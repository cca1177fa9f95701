use video_downloader::formats::Field;
use video_downloader::sites::{
    clean_text, display_site, display_title, is_bilibili_video_id, is_opaque_id_text,
    is_placeholder_text, normalize_playlist_entry_url, playlist_entry_url, sanitize_cache_component,
    site_from_url, supported_site_examples, title_from_output_path, title_from_url, url_origin,
    uuid_like_id, validate_url, playlist_item_title, expand_playlist, EntryJson, QueueEntry,
};

fn entry() -> EntryJson {
    EntryJson {
        webpage_url: Field::Missing,
        original_url: Field::Missing,
        url: Field::Missing,
        ie_key: Field::Missing,
        extractor_key: Field::Missing,
        extractor: Field::Missing,
    }
}

fn text(s: &str) -> Field {
    Field::Text(s.to_string())
}

#[test]
fn video_addresses_must_be_web_addresses() {
    assert_eq!(validate_url("https://example.test/v"), Ok(()));
    assert_eq!(
        validate_url("ftp://example.test/v"),
        Err("请输入 http:// 或 https:// 开头的视频地址。".to_string())
    );
    assert_eq!(url_origin("https://a.test/x/y").as_deref(), Some("https://a.test"));
    assert_eq!(url_origin("https://a.test").as_deref(), Some("https://a.test"));
    assert_eq!(url_origin("a.test/x"), None);
}

#[test]
fn supported_sites_are_listed_in_order_up_to_six() {
    let extractors: Vec<String> = ["YouTube:Tab", "BiliBili", "Vimeo", "TikTok", "twitter", "Twitch", "youku"]
        .iter()
        .map(|s| s.to_string())
        .collect();
    let examples = supported_site_examples(&extractors);
    let names: Vec<&str> = examples.iter().map(|e| e.name.as_str()).collect();

    assert_eq!(names, vec!["Bilibili", "YouTube", "Vimeo", "TikTok", "X / Twitter", "Twitch"]);
    assert_eq!(examples[2].url, "https://vimeo.com/76979871");
    assert!(supported_site_examples(&[]).is_empty());
}

#[test]
fn titles_and_sites_fall_back_in_order() {
    assert_eq!(clean_text("  x  ").as_deref(), Some("x"));
    assert_eq!(clean_text("   "), None);
    assert!(is_bilibili_video_id("BV1xx411c7mD"));
    assert!(is_bilibili_video_id("av12345"));
    assert!(!is_bilibili_video_id("av"));
    assert!(!is_bilibili_video_id("avx1"));
    assert!(is_placeholder_text(" Untitled Video "));
    assert!(!is_placeholder_text("A real title"));
    assert!(is_opaque_id_text("dQw4w9WgXcQ"));
    assert!(!is_opaque_id_text("lowercase123"));

    assert_eq!(
        title_from_output_path("/dl/My Clip-BV1xx411c7mD.mp4").as_deref(),
        Some("My Clip")
    );
    assert_eq!(title_from_output_path("/dl/plain.mp4").as_deref(), Some("plain"));
    assert_eq!(title_from_url("https://a.test/videos/clip?x=1"), "clip");
    assert_eq!(title_from_url("https://a.test/videos/clip/"), "clip");
    assert_eq!(title_from_url(""), "待解析视频");
    assert_eq!(site_from_url("https://www.a.test/x"), "a.test");
    assert_eq!(site_from_url("https:///x"), "未知站点");

    assert_eq!(display_title(Some("  Title "), "https://a.test/v", None), "Title");
    assert_eq!(
        display_title(Some("BV1xx411c7mD"), "https://a.test/v", Some("/dl/Real-BV1xx411c7mD.mp4")),
        "Real"
    );
    assert_eq!(display_title(Some("null"), "https://a.test/v/abc", None), "abc");
    assert_eq!(display_site(Some(" Bilibili "), "https://www.bilibili.com/"), "Bilibili");
    assert_eq!(display_site(Some("unknown"), "https://www.bilibili.com/"), "bilibili.com");
}

#[test]
fn cache_names_keep_safe_characters() {
    assert_eq!(sanitize_cache_component("task-1/../x_y"), "task-1x_y");
    assert_eq!(sanitize_cache_component("../.."), "unknown-task");
    let once = sanitize_cache_component("a b/c");
    assert_eq!(sanitize_cache_component(&once), once);
}

#[test]
fn task_ids_carry_time_and_counter() {
    assert_eq!(uuid_like_id(1_700_000_000_123_456_789, 7), "task-1700000000123456789-7");
    assert_eq!(uuid_like_id(0, 0), "task-0-0");
}

#[test]
fn playlist_entries_become_full_addresses() {
    let source = "https://www.youtube.com/playlist?list=x";
    assert_eq!(
        normalize_playlist_entry_url(" https://a.test/v ", &entry(), source).as_deref(),
        Some("https://a.test/v")
    );
    assert_eq!(
        normalize_playlist_entry_url("//cdn.test/v", &entry(), source).as_deref(),
        Some("https://cdn.test/v")
    );
    assert_eq!(
        normalize_playlist_entry_url("/watch?v=1", &entry(), source).as_deref(),
        Some("https://www.youtube.com/watch?v=1")
    );
    assert_eq!(
        normalize_playlist_entry_url("shorts/abc", &entry(), source).as_deref(),
        Some("https://www.youtube.com/shorts/abc")
    );
    assert_eq!(
        normalize_playlist_entry_url("dQw4w9WgXcQ", &entry(), source).as_deref(),
        Some("https://www.youtube.com/watch?v=dQw4w9WgXcQ")
    );
    let mut bili = entry();
    bili.ie_key = text("BiliBili");
    assert_eq!(
        normalize_playlist_entry_url("BV1xx411c7mD", &bili, "https://space.test/list").as_deref(),
        Some("https://www.bilibili.com/video/BV1xx411c7mD")
    );
    assert_eq!(normalize_playlist_entry_url("abc", &entry(), "https://other.test/"), None);
    assert_eq!(normalize_playlist_entry_url("   ", &entry(), source), None);

    let mut e = entry();
    e.original_url = text("https://b.test/2");
    e.url = text("https://b.test/3");
    assert_eq!(playlist_entry_url(&e, source).as_deref(), Some("https://b.test/2"));
    assert_eq!(playlist_entry_url(&entry(), source), None);
}

#[test]
fn playlist_items_fall_back_to_the_playlist_title() {
    assert_eq!(playlist_item_title(Some("Episode 1".to_string()), Some("Show")).as_deref(), Some("Episode 1"));
    assert_eq!(playlist_item_title(Some("dQw4w9WgXcQ".to_string()), Some(" Show ")).as_deref(), Some("Show"));
    assert_eq!(playlist_item_title(Some("untitled".to_string()), Some("  ")), None);
    assert_eq!(playlist_item_title(None, None), None);
}

fn queue_entry(url: Option<&str>, title: Option<&str>, index: Option<usize>, autonumber: Option<usize>) -> QueueEntry {
    let mut e = entry();
    if let Some(u) = url {
        e.url = text(u);
    }
    QueueEntry {
        entry: e,
        title: title.map(str::to_string),
        playlist_index: index,
        playlist_autonumber: autonumber,
    }
}

#[test]
fn playlists_expand_into_their_usable_entries() {
    let source = "https://www.youtube.com/playlist?list=x";
    let entries = Some(vec![
        queue_entry(Some("abc"), Some("First"), Some(7), None),
        queue_entry(None, Some("No address"), None, None),
        queue_entry(Some("https://a.test/v"), Some("untitled"), None, Some(9)),
        queue_entry(Some("https://a.test/w"), None, None, None),
    ]);
    let items = expand_playlist(&entries, source, Some(" List ")).unwrap().unwrap();
    let seen: Vec<(usize, &str, Option<&str>, usize)> = items
        .iter()
        .map(|i| (i.position, i.url.as_str(), i.title.as_deref(), i.playlist_index))
        .collect();

    assert_eq!(
        seen,
        vec![
            (0, "https://www.youtube.com/watch?v=abc", Some("First"), 7),
            (2, "https://a.test/v", Some("List"), 9),
            (3, "https://a.test/w", Some("List"), 4),
        ]
    );
}

#[test]
fn playlists_without_usable_entries_are_errors_or_single_items() {
    let source = "https://other.test/list";
    assert_eq!(
        expand_playlist(&Some(vec![queue_entry(None, None, None, None)]), source, None).unwrap_err(),
        "已检测到播放列表条目，但 yt-dlp 未返回可下载的子项链接。请升级 yt-dlp 后重试。"
    );
    assert!(expand_playlist(&Some(Vec::new()), source, None).unwrap().is_none());
    assert!(expand_playlist(&None, source, None).unwrap().is_none());
}
