use std::cmp::Ordering;
use video_downloader::tools::{
    candidate_tool_dirs, compare_versions, dedupe_paths, enhanced_path_dirs, ensure_tool_with_settings, first_line,
    is_version_newer, join_path_str, latest_tool_version, latest_version_url, normalized_browser,
    normalized_tool_version, tool_candidates, tool_update_status, validate_tool_path,
    version_parts, ManagedTool, ToolResolution, ToolSettings, ToolSource,
};

fn strings(items: &[&str]) -> Vec<String> {
    items.iter().map(|s| s.to_string()).collect()
}

#[test]
fn tool_names_round_trip() {
    for tool in [ManagedTool::YtDlp, ManagedTool::Ffmpeg] {
        assert_eq!(ManagedTool::from_name(tool.display_name()), Ok(tool));
    }
    assert_eq!(ManagedTool::from_name("ytDlp"), Ok(ManagedTool::YtDlp));
    assert_eq!(ManagedTool::from_name("yt_dlp"), Ok(ManagedTool::YtDlp));
    assert_eq!(ManagedTool::from_name("curl"), Err("不支持的工具名称：curl".to_string()));
    assert_eq!(ManagedTool::Ffmpeg.env_var(), "VIDEO_DOWNLOADER_FFMPEG_PATH");
    assert_eq!(ManagedTool::Ffmpeg.version_arg(), "-version");
    assert_eq!(ManagedTool::YtDlp.version_arg(), "--version");
    assert_eq!(ToolSource::Env.as_str(), "env");
}

#[test]
fn saved_tool_paths_are_per_tool() {
    let mut settings = ToolSettings::empty();
    ManagedTool::Ffmpeg.set_path(&mut settings, Some("/opt/ffmpeg".to_string()));

    assert_eq!(ManagedTool::Ffmpeg.path(&settings), Some("/opt/ffmpeg"));
    assert_eq!(ManagedTool::YtDlp.path(&settings), None);
    ManagedTool::Ffmpeg.set_path(&mut settings, None);
    assert_eq!(ManagedTool::Ffmpeg.path(&settings), None);
}

#[test]
fn missing_tools_get_a_message_naming_the_searched_places() {
    let found = ToolResolution { path: "/usr/bin/ffmpeg".to_string(), source: ToolSource::Path };
    assert_eq!(ensure_tool_with_settings(Some(found), "ffmpeg"), Ok("/usr/bin/ffmpeg".to_string()));
    assert_eq!(
        ensure_tool_with_settings(None, "yt-dlp").unwrap_err(),
        "未找到 yt-dlp。已检查手动指定路径、环境变量、当前 PATH 以及常见 Homebrew 路径：/opt/homebrew/bin, /usr/local/bin, /usr/bin, /bin。请确认已安装并可执行：brew install yt-dlp ffmpeg"
    );
}

#[test]
fn tool_versions_are_normalised() {
    assert_eq!(first_line("  2024.08.06 \nmore".to_string()), "2024.08.06");
    assert_eq!(
        normalized_tool_version(ManagedTool::YtDlp, " v2024.08.06 ").as_deref(),
        Some("2024.08.06")
    );
    assert_eq!(
        normalized_tool_version(ManagedTool::Ffmpeg, "ffmpeg version n7.1 Copyright").as_deref(),
        Some("7.1")
    );
    assert_eq!(normalized_tool_version(ManagedTool::Ffmpeg, "7.1.1_1").as_deref(), Some("7.1.1_1"));
    assert_eq!(normalized_tool_version(ManagedTool::YtDlp, "vvv"), None);
    assert_eq!(normalized_tool_version(ManagedTool::YtDlp, "   "), None);
}

#[test]
fn versions_compare_numerically_with_zero_padding() {
    assert_eq!(version_parts("2024.08.06-beta2"), vec![2024, 8, 6, 2]);
    assert_eq!(version_parts("99999999999999999999.1"), vec![1]);
    assert_eq!(compare_versions("1.10", "1.9"), Ordering::Greater);
    assert_eq!(compare_versions("1.0", "1"), Ordering::Equal);
    assert_eq!(compare_versions("7.0.2", "7.1"), Ordering::Less);
    assert!(is_version_newer("2024.08.06", "2024.07.30"));
    assert!(!is_version_newer("2024.07.30", "2024.08.06"));
    assert!(!is_version_newer("7.1", "7.1.0"));
}

#[test]
fn only_known_browsers_are_kept() {
    assert_eq!(normalized_browser(Some("chrome".to_string())).as_deref(), Some("chrome"));
    assert_eq!(normalized_browser(Some("Chrome".to_string())), None);
    assert_eq!(normalized_browser(Some("edge".to_string())), None);
    assert_eq!(normalized_browser(None), None);
}

#[test]
fn search_directories_keep_first_occurrences() {
    assert_eq!(
        dedupe_paths(strings(&["/a", "/b", "/a", "/c", "/b"])),
        strings(&["/a", "/b", "/c"])
    );
    assert_eq!(
        candidate_tool_dirs(strings(&["/usr/bin", "/home/me/bin"])),
        strings(&["/usr/bin", "/home/me/bin", "/opt/homebrew/bin", "/usr/local/bin", "/bin"])
    );
}

#[test]
fn tool_paths_are_validated() {
    assert_eq!(
        validate_tool_path(ManagedTool::Ffmpeg, "/tmp/x", false, None),
        Err("ffmpeg 路径不是有效文件：/tmp/x".to_string())
    );
    assert_eq!(
        validate_tool_path(ManagedTool::YtDlp, "/tmp/y", true, Some("  ".to_string())),
        Err("yt-dlp 路径不可执行或未能返回版本信息：/tmp/y".to_string())
    );
    assert_eq!(
        validate_tool_path(ManagedTool::YtDlp, "/tmp/y", true, Some("2024.08.06".to_string())),
        Ok(())
    );
}

#[test]
fn latest_versions_come_from_release_documents() {
    assert_eq!(
        latest_version_url(ManagedTool::Ffmpeg),
        "https://formulae.brew.sh/api/formula/ffmpeg.json"
    );
    assert_eq!(
        latest_tool_version(ManagedTool::YtDlp, Ok(Some("2024.08.06".to_string()))),
        Ok("2024.08.06".to_string())
    );
    assert_eq!(
        latest_tool_version(ManagedTool::Ffmpeg, Ok(None)),
        Err("未能解析 ffmpeg 最新版本。".to_string())
    );
    assert_eq!(
        latest_tool_version(ManagedTool::Ffmpeg, Err("版本检查请求失败。".to_string())),
        Err("版本检查请求失败。".to_string())
    );
}

#[test]
fn update_status_compares_installed_and_latest_versions() {
    let status = tool_update_status(
        ManagedTool::Ffmpeg,
        Some("ffmpeg version 7.0.2 Copyright (c)\nbuilt with clang".to_string()),
        Ok("7.1".to_string()),
        "1700000000".to_string(),
    );
    assert_eq!(status.name, "ffmpeg");
    assert_eq!(status.current_version.as_deref(), Some("7.0.2"));
    assert_eq!(status.latest_version.as_deref(), Some("7.1"));
    assert_eq!(status.update_available, Some(true));
    assert_eq!(status.update_command.as_deref(), Some("brew update && brew upgrade ffmpeg"));
    assert_eq!(status.error, None);

    let status = tool_update_status(ManagedTool::YtDlp, None, Err("offline".to_string()), "1".to_string());
    assert_eq!(status.current_version, None);
    assert_eq!(status.update_available, None);
    assert_eq!(status.error.as_deref(), Some("offline"));
}

#[test]
fn tool_candidates_follow_the_search_order() {
    let mut settings = ToolSettings::empty();
    settings.yt_dlp_path = Some("/manual/yt-dlp".to_string());
    let candidates = tool_candidates(
        &settings,
        "yt-dlp",
        Some("/env/yt-dlp".to_string()),
        &strings(&["/usr/local/bin", "/bin/"]),
        false,
    );
    let seen: Vec<(&str, ToolSource)> = candidates.iter().map(|c| (c.path.as_str(), c.source)).collect();

    assert_eq!(
        seen,
        vec![
            ("/manual/yt-dlp", ToolSource::Manual),
            ("/env/yt-dlp", ToolSource::Env),
            ("/usr/local/bin/yt-dlp", ToolSource::Path),
            ("/bin/yt-dlp", ToolSource::Path),
        ]
    );
    assert!(tool_candidates(&settings, "curl", None, &strings(&["/bin"]), false).is_empty());
    assert_eq!(join_path_str("", "ffmpeg"), "ffmpeg");
}

#[test]
fn tool_path_directories_come_first() {
    let mut settings = ToolSettings::empty();
    settings.yt_dlp_path = Some("/opt/yt/yt-dlp".to_string());
    settings.ffmpeg_path = Some("ffmpeg".to_string());
    let dirs = enhanced_path_dirs(&settings, &strings(&["/env/bin/ffmpeg", "/"]), strings(&["/usr/bin", "/opt/yt"]));

    assert_eq!(
        dirs,
        strings(&["/opt/yt", "", "/env/bin", "/usr/bin", "/opt/homebrew/bin", "/usr/local/bin", "/bin"])
    );
}

#[test]
fn windows_lookup_also_tries_exe_names() {
    let settings = ToolSettings::empty();
    let candidates = tool_candidates(&settings, "ffmpeg", None, &strings(&["C:\\tools", "D:\\bin\\", "E:"]), true);
    let seen: Vec<&str> = candidates.iter().map(|c| c.path.as_str()).collect();

    assert_eq!(
        seen,
        vec![
            "C:\\tools\\ffmpeg",
            "C:\\tools\\ffmpeg.exe",
            "D:\\bin\\ffmpeg",
            "D:\\bin\\ffmpeg.exe",
            "E:ffmpeg",
            "E:ffmpeg.exe",
        ]
    );
}

#[test]
fn search_directories_compare_as_paths() {
    assert_eq!(
        dedupe_paths(strings(&["/usr/bin/", "/usr/bin", "/usr//bin", "/usr/./bin", "./bin", "bin", "bin/"])),
        strings(&["/usr/bin/", "./bin", "bin"])
    );
    assert_eq!(
        candidate_tool_dirs(strings(&["/usr/bin/", "/opt/homebrew/bin//"])),
        strings(&["/usr/bin/", "/opt/homebrew/bin//", "/usr/local/bin", "/bin"])
    );
}
