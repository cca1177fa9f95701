use video_downloader::media::compare_resolution;

#[test]
fn matching_resolutions_are_not_reported() {
    assert!(compare_resolution(Some("1080p"), Some(1920 * 1080), Some(1920), Some(1080)).is_none());
    assert!(compare_resolution(Some("1080p"), None, Some(1280), Some(720)).is_none());
    assert!(compare_resolution(Some("1080p"), Some(0), Some(1280), Some(720)).is_none());
    assert!(compare_resolution(Some("1080p"), Some(1920 * 1080), Some(0), Some(720)).is_none());
    assert!(compare_resolution(Some("1080p"), Some(1920 * 1080), None, Some(720)).is_none());
}

#[test]
fn lower_resolution_is_reported_with_both_labels() {
    let detail = compare_resolution(Some("1080p"), Some(1920 * 1080), Some(1280), Some(720)).unwrap();

    assert_eq!(detail.status, "lower");
    assert_eq!(detail.expected_label.as_deref(), Some("1080p"));
    assert_eq!(detail.actual_label.as_deref(), Some("1280×720"));
}

#[test]
fn higher_resolution_without_a_label_shows_the_pixel_count() {
    let detail = compare_resolution(Some("  "), Some(1280 * 720), Some(1920), Some(1080)).unwrap();

    assert_eq!(detail.status, "higher");
    assert_eq!(detail.expected_label.as_deref(), Some("921600 px"));
    assert_eq!(detail.actual_label.as_deref(), Some("1920×1080"));
}
