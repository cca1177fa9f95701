use video_downloader::progress::{
    extract_after, is_merge_progress_line, is_real_codec, normalize_eta_value,
    normalize_progress_value, parse_progress_fields, phase_rank, progress_line_is_readable,
    progress_media_kind, progress_phase, strip_ansi_codes, updated_snapshot_phase, DownloadPhase,
    ProgressMediaKind,
};

#[test]
fn machine_progress_lines_give_their_fields() {
    let fields = parse_progress_fields("VD_PROGRESS: 12.3%|8.4MiB/s|00:42|h264|none|137").unwrap();
    assert_eq!(fields.percent, "12.3");
    assert_eq!(fields.speed.as_deref(), Some("8.4MiB/s"));
    assert_eq!(fields.eta.as_deref(), Some("00:42"));
    assert_eq!(fields.media_kind, ProgressMediaKind::Video);

    let fields =
        parse_progress_fields("VD_PROGRESS: 40%|Unknown B/s|Unknown ETA|none|opus|251").unwrap();
    assert_eq!(fields.percent, "40");
    assert_eq!(fields.speed, None);
    assert_eq!(fields.eta, None);
    assert_eq!(fields.media_kind, ProgressMediaKind::Audio);
}

#[test]
fn download_progress_lines_give_their_fields() {
    let fields = parse_progress_fields(
        "[download]  35.2% of ~120.00MiB at 3.1MiB/s ETA 00:25 (frag 20/80)",
    )
    .unwrap();
    assert_eq!(fields.percent, "35.2");
    assert_eq!(fields.speed.as_deref(), Some("3.1MiB/s"));
    assert_eq!(fields.eta.as_deref(), Some("00:25"));
    assert_eq!(fields.media_kind, ProgressMediaKind::Unknown);

    let fields = parse_progress_fields("[download] 100% of 120.00MiB in 00:30 at 4.0MiB/s").unwrap();
    assert_eq!(fields.percent, "100");
    assert_eq!(fields.speed.as_deref(), Some("4.0MiB/s"));
    assert_eq!(fields.eta, None);
}

#[test]
fn lines_without_progress_give_nothing() {
    assert!(parse_progress_fields("[info] Extracting URL").is_none());
    assert!(parse_progress_fields("[download] Destination: a.mp4").is_none());
    assert!(parse_progress_fields("VD_PROGRESS: %|1B/s").is_none());
    let fields = parse_progress_fields("VD_PROGRESS: Unknown|N/A|Unknown").unwrap();
    assert_eq!(fields.percent, "Unknown");
    assert_eq!(fields.speed, None);
}

#[test]
fn ansi_codes_are_removed_before_reading() {
    assert_eq!(strip_ansi_codes("\u{1b}[0;32mgreen\u{1b}[0m text"), "green text");
    let fields = parse_progress_fields("\u{1b}[0;94m[download]\u{1b}[0m  50.0% of 10MiB").unwrap();
    assert_eq!(fields.percent, "50.0");
}

#[test]
fn progress_numbers_after_non_ascii_text_are_not_readable() {
    assert!(progress_line_is_readable("[download] 12% done"));
    assert!(!progress_line_is_readable("[download] é12% done"));
    assert!(progress_line_is_readable("VD_PROGRESS: é12%"));
}

#[test]
fn merge_lines_are_recognised() {
    assert!(is_merge_progress_line("[Merger] Merging formats into \"video.mp4\""));
    assert!(is_merge_progress_line("VD_POSTPROCESS:started"));
    assert!(is_merge_progress_line("  something Merging formats into x"));
    assert!(!is_merge_progress_line("[download] 10%"));
}

#[test]
fn progress_values_that_say_nothing_are_dropped() {
    assert_eq!(normalize_progress_value(" 1.2MiB/s "), Some("1.2MiB/s".to_string()));
    assert_eq!(normalize_progress_value("N/A"), None);
    assert_eq!(normalize_progress_value("unknown speed"), None);
    assert_eq!(normalize_progress_value("-"), None);
    assert_eq!(normalize_eta_value(" 00:25 (frag 1/2)"), Some("00:25".to_string()));
    assert_eq!(extract_after("a at  b  ETA c", " at ", " ETA "), Some("b".to_string()));
    assert_eq!(extract_after("nothing here", " at ", " ETA "), None);
}

#[test]
fn codecs_decide_the_stream_kind() {
    assert!(!is_real_codec(" NULL "));
    assert!(is_real_codec("avc1"));
    assert_eq!(progress_media_kind(Some("avc1"), Some("opus")), ProgressMediaKind::Media);
    assert_eq!(progress_media_kind(None, Some("n/a")), ProgressMediaKind::Unknown);
    assert_eq!(progress_phase(ProgressMediaKind::Audio), DownloadPhase::DownloadingAudio);
    assert_eq!(progress_phase(ProgressMediaKind::Unknown), DownloadPhase::DownloadingMedia);
}

#[test]
fn snapshot_phase_does_not_step_back_without_progress() {
    // Video finished (50%), then audio starts at 50%: the phase moves on.
    let phase = updated_snapshot_phase(DownloadPhase::DownloadingVideo, DownloadPhase::DownloadingAudio, true);
    assert_eq!(phase, DownloadPhase::DownloadingAudio);
    // A stale video line (40% < 50%) does not move the phase back.
    let phase = updated_snapshot_phase(phase, DownloadPhase::DownloadingVideo, false);
    assert_eq!(phase, DownloadPhase::DownloadingAudio);
    // A later phase is taken even without progress.
    let phase = updated_snapshot_phase(DownloadPhase::DownloadingMedia, DownloadPhase::DownloadingVideo, false);
    assert_eq!(phase, DownloadPhase::DownloadingVideo);
    assert!(phase_rank(DownloadPhase::Merging) > phase_rank(DownloadPhase::DownloadingAudio));
    assert_eq!(DownloadPhase::Merging.as_str(), "merging");
    assert_eq!(DownloadPhase::Completed.label(), "已完成");
}
