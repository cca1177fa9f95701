use video_downloader::formats::{
    actual_resolution_label, best_format_label, best_format_label_from_json, build_format_options,
    display_video_codec, format_from_json, format_label_from_json, format_score, has_real_video,
    normalize_thumbnail_url, parse_dimension_score, parse_progressive_height,
    resolution_score_from_text, contains_quality_token, saturating_mul, thumbnail_url, Field,
    FormatJson, FormatOption, MediaJson,
};

fn text(s: &str) -> Field {
    Field::Text(s.to_string())
}

fn video_format(id: &str, width: Option<u64>, height: Option<u64>, note: Option<&str>, ext: &str, vcodec: &str, acodec: &str) -> FormatJson {
    let mut f = FormatJson::empty();
    f.format_id = text(id);
    if let Some(w) = width {
        f.width = Field::Unsigned(w);
    }
    if let Some(h) = height {
        f.height = Field::Unsigned(h);
    }
    if let Some(n) = note {
        f.format_note = text(n);
    }
    f.ext = text(ext);
    f.vcodec = text(vcodec);
    f.acodec = text(acodec);
    f
}

fn option(id: &str, label: &str, selector: &str, ext: Option<&str>, resolution: Option<&str>, vcodec: Option<&str>, acodec: Option<&str>, filesize: Option<u64>) -> FormatOption {
    FormatOption {
        id: id.to_string(),
        label: label.to_string(),
        selector: selector.to_string(),
        ext: ext.map(str::to_string),
        resolution: resolution.map(str::to_string),
        vcodec: vcodec.map(str::to_string),
        acodec: acodec.map(str::to_string),
        filesize,
    }
}

#[test]
fn best_format_label_uses_first_real_video_format() {
    let formats = vec![
        option("best", "最佳画质 + 最佳音频", "bv*+ba/b", Some("mp4"), Some("自动"), None, None, None),
        option("audio", "仅音频", "ba", None, Some("audio"), None, None, None),
        option(
            "30121",
            "3840x1634 · mp4 · H.265",
            "30121+bestaudio/best",
            Some("mp4"),
            Some("3840x1634"),
            Some("hev1.1.6.L153"),
            Some("none"),
            Some(2_400_000_000),
        ),
    ];

    assert_eq!(
        best_format_label(&formats).as_deref(),
        Some("3840x1634 · mp4 · H.265")
    );
}

#[test]
fn format_labels_use_short_video_codec_names() {
    let cases = [
        ("av01.0.00M.10.0.110.01.01.01.0", "AV1"),
        ("avc1.640034", "H.264"),
        ("h264", "H.264"),
        ("hev1.1.6.L153", "H.265"),
        ("hvc1.2.4.L150", "H.265"),
        ("vp09.00.51.08", "VP9"),
        ("vp08.00.10.08", "VP8"),
        ("mystery.codec.profile", "MYSTERY"),
        ("theora", "theora"),
    ];

    for (vcodec, expected_codec) in cases {
        let format = video_format("test", Some(1920), Some(1080), None, "mp4", vcodec, "none");
        let expected_label = format!("1920x1080 · mp4 · {expected_codec}");

        assert_eq!(
            format_label_from_json(&format).as_deref(),
            Some(expected_label.as_str())
        );
    }
}

#[test]
fn format_option_keeps_raw_codec_but_displays_short_name() {
    let format = video_format(
        "30121",
        Some(3840),
        Some(1634),
        None,
        "mp4",
        "av01.0.00M.10.0.110.01.01.01.0",
        "none",
    );

    let option = format_from_json(&format).expect("format option");

    assert_eq!(
        option.vcodec.as_deref(),
        Some("av01.0.00M.10.0.110.01.01.01.0")
    );
    assert_eq!(option.label, "3840x1634 · mp4 · AV1");
}

#[test]
fn format_label_prefers_raw_width_and_height() {
    let format = video_format("30121", Some(3840), Some(2160), Some("4K"), "mp4", "avc1.640034", "none");

    assert_eq!(
        actual_resolution_label(&format).as_deref(),
        Some("3840x2160")
    );
    assert_eq!(format_score(&format), 3840 * 2160);
    assert_eq!(
        format_label_from_json(&format).as_deref(),
        Some("3840x2160 · mp4 · H.264")
    );
}

#[test]
fn fallback_resolution_scores_do_not_become_display_labels() {
    let format = video_format("137", None, Some(2160), Some("4K"), "mp4", "h264", "none");

    assert_eq!(actual_resolution_label(&format), None);
    assert_eq!(format_score(&format), 3840 * 2160);
    assert_eq!(
        format_label_from_json(&format).as_deref(),
        Some("未返回明确分辨率 · mp4 · H.264")
    );
}

#[test]
fn best_format_label_uses_requested_video_format() {
    let mut audio = FormatJson::empty();
    audio.format_id = text("30280");
    audio.ext = text("m4a");
    audio.vcodec = text("none");
    audio.acodec = text("mp4a.40.2");
    let json = MediaJson {
        top: FormatJson::empty(),
        requested_formats: Some(vec![
            video_format("30121", Some(3840), Some(2160), Some("4K"), "mp4", "avc1.640034", "none"),
            audio,
        ]),
        formats: Some(vec![video_format("low", Some(1280), Some(720), None, "mp4", "h264", "none")]),
    };
    let formats = build_format_options(&json);

    assert_eq!(
        best_format_label_from_json(&json, &formats).as_deref(),
        Some("3840x2160 · mp4 · H.264")
    );
}

#[test]
fn format_options_start_with_fixed_choices_and_order_by_score() {
    let json = MediaJson {
        top: FormatJson::empty(),
        requested_formats: None,
        formats: Some(vec![
            video_format("low", Some(1280), Some(720), None, "mp4", "h264", "none"),
            video_format("audio-only", None, None, None, "m4a", "none", "mp4a.40.2"),
            video_format("high", Some(3840), Some(2160), None, "webm", "vp09.00.51.08", "none"),
        ]),
    };
    let options = build_format_options(&json);
    let ids: Vec<&str> = options.iter().map(|o| o.id.as_str()).collect();

    assert_eq!(ids, vec!["best", "best-mp4", "audio", "high", "low"]);
    assert_eq!(options[3].selector, "high+ba/b");
    assert_eq!(options[3].label, "3840x2160 · webm · VP9");
}

#[test]
fn format_options_keep_at_most_twelve_video_formats() {
    let mut formats = Vec::new();
    for index in 0..20u64 {
        formats.push(video_format(
            &format!("f{index}"),
            Some(100 + index),
            Some(100),
            None,
            "mp4",
            "h264",
            "none",
        ));
    }
    let json = MediaJson {
        top: FormatJson::empty(),
        requested_formats: None,
        formats: Some(formats),
    };
    let options = build_format_options(&json);

    assert_eq!(options.len(), 15);
    assert_eq!(options[3].id, "f19");
    assert_eq!(options[14].id, "f8");
}

#[test]
fn format_options_without_formats_are_the_fixed_choices() {
    let json = MediaJson {
        top: FormatJson::empty(),
        requested_formats: None,
        formats: None,
    };
    let options = build_format_options(&json);
    let ids: Vec<&str> = options.iter().map(|o| o.id.as_str()).collect();

    assert_eq!(ids, vec!["best", "best-mp4", "audio"]);
    assert_eq!(options[1].selector, "bv*[ext=mp4]+ba[ext=m4a]/b[ext=mp4]/b");
}

#[test]
fn video_codecs_get_short_display_names() {
    assert_eq!(display_video_codec(Some("avc1.4d401f")).as_deref(), Some("H.264"));
    assert_eq!(display_video_codec(Some("none")), None);
    assert_eq!(display_video_codec(Some("  ")), None);
    assert_eq!(display_video_codec(None), None);
}

#[test]
fn resolution_text_is_scored() {
    assert_eq!(parse_dimension_score("1920x1080"), Some((1920, 1080, 1920 * 1080)));
    assert_eq!(parse_dimension_score("audio only"), None);
    assert_eq!(parse_progressive_height("1080p60"), Some(1080));
    assert_eq!(parse_progressive_height("HD"), None);
    assert!(contains_quality_token("Premium 4K HDR", "4K"));
    assert!(!contains_quality_token("Premium4K", "4K"));
    assert_eq!(resolution_score_from_text("720p"), Some(1280 * 720));
    assert_eq!(resolution_score_from_text("8K"), Some(7680 * 4320));
    assert_eq!(saturating_mul(u64::MAX, 2), u64::MAX);
}

#[test]
fn formats_without_video_are_not_real_video() {
    let mut audio = FormatJson::empty();
    audio.vcodec = text("none");
    assert!(!has_real_video(&audio));
    assert!(has_real_video(&video_format("x", None, None, None, "mp4", "h264", "none")));
    assert!(format_from_json(&FormatJson::empty()).is_none());
}

#[test]
fn thumbnails_prefer_https() {
    assert_eq!(
        normalize_thumbnail_url("http://example.test/a.jpg".to_string()),
        "https://example.test/a.jpg"
    );
    assert_eq!(
        thumbnail_url(&text("http://example.test/t.jpg"), &None).as_deref(),
        Some("https://example.test/t.jpg")
    );
    assert_eq!(
        thumbnail_url(&Field::Missing, &Some(vec![Field::Other, text("https://example.test/b.png")]))
            .as_deref(),
        Some("https://example.test/b.png")
    );
}
