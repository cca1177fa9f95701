use video_downloader::downloads::{
    command_error_message, download_error, download_task_cache_dir, download_outcome, format_duration_seconds,
    history_is_stale, is_invalid_history_item, queue_sources, operation_stopped_error, stops_queue,
    timeout_message, upsert_started_history, wait_step, HistoryRecord, WaitStep, output_path_from_line, refreshed_history_site,
    refreshed_history_title, ytdlp_download_args, ytdlp_probe_args, ytdlp_queue_args,
    DownloadOutcome,
};

fn strings(items: &[&str]) -> Vec<String> {
    items.iter().map(|s| s.to_string()).collect()
}

#[test]
fn probe_and_queue_arguments() {
    assert_eq!(
        ytdlp_probe_args("https://a.test/v", Some("chrome")),
        strings(&[
            "--dump-single-json", "--skip-download", "--no-warnings", "--no-playlist",
            "--socket-timeout", "30", "-f", "bv*+ba/b", "--cookies-from-browser", "chrome",
            "https://a.test/v",
        ])
    );
    assert_eq!(
        ytdlp_queue_args("https://a.test/list", None),
        strings(&[
            "--dump-single-json", "--skip-download", "--no-warnings", "--socket-timeout", "30",
            "--yes-playlist", "--flat-playlist", "https://a.test/list",
        ])
    );
}

#[test]
fn download_arguments_end_with_cookies_and_the_address() {
    let args = ytdlp_download_args(
        "137+ba/b",
        "/usr/bin/ffmpeg",
        "/out",
        "/cache/task-1",
        "/cache/yt-dlp",
        Some("firefox"),
        "https://a.test/v",
    );
    assert_eq!(args.len(), 33);
    assert_eq!(args[0], "--progress");
    assert_eq!(
        args[7],
        "download:VD_PROGRESS:%(progress._percent_str)s|%(progress._speed_str)s|%(progress._eta_str)s|%(info.vcodec|)s|%(info.acodec|)s|%(info.format_id|)s"
    );
    assert_eq!(args[14], "137+ba/b");
    assert_eq!(args[16], "/usr/bin/ffmpeg");
    assert_eq!(args[20], "home:/out");
    assert_eq!(args[22], "temp:/cache/task-1");
    assert_eq!(args[24], "/cache/yt-dlp");
    assert_eq!(&args[29..], &strings(&["after_move:VD_OUTPUT=%(filepath)s", "--cookies-from-browser", "firefox", "https://a.test/v"])[..]);
    let plain = ytdlp_download_args("b", "f", "o", "c", "y", None, "u");
    assert_eq!(plain.len(), 31);
    assert_eq!(plain[30], "u");
}

#[test]
fn output_lines_name_the_saved_file() {
    assert_eq!(output_path_from_line("VD_OUTPUT= /out/a.mp4 ").as_deref(), Some("/out/a.mp4"));
    assert_eq!(output_path_from_line("[download] 10%"), None);
}

#[test]
fn failed_commands_report_their_error_output() {
    assert_eq!(command_error_message("  boom \n", "fallback"), "boom");
    assert_eq!(command_error_message(" \n", "fallback"), "fallback");
    assert_eq!(
        download_error(DownloadOutcome::Failed, ""),
        Some("下载失败，yt-dlp 未返回详细错误。".to_string())
    );
    assert_eq!(download_error(DownloadOutcome::Failed, "ERROR: 403"), Some("ERROR: 403".to_string()));
    assert_eq!(download_error(DownloadOutcome::Completed, "warning"), None);
}

#[test]
fn cancelling_wins_over_pausing_and_the_exit_status() {
    assert_eq!(download_outcome(true, true, true), DownloadOutcome::Canceled);
    assert_eq!(download_outcome(false, true, false), DownloadOutcome::Paused);
    assert_eq!(download_outcome(false, false, true), DownloadOutcome::Completed);
    assert_eq!(download_outcome(false, false, false), DownloadOutcome::Failed);
    assert_eq!(DownloadOutcome::Canceled.as_str(), "canceled");
    assert!(!DownloadOutcome::Paused.removes_cache());
    assert!(DownloadOutcome::Failed.removes_cache());
}

#[test]
fn history_titles_and_sites_are_refreshed() {
    assert_eq!(
        refreshed_history_title("untitled", "https://a.test/v/clip", None),
        "clip"
    );
    assert_eq!(
        refreshed_history_title("AbC123xyz", "https://a.test/v", Some("/out/Real Title-AbC123xyz.mp4")),
        "Real Title-AbC123xyz"
    );
    assert_eq!(refreshed_history_title("AbC123xyz", "https://a.test/v", None), "AbC123xyz");
    assert_eq!(refreshed_history_title("Keep me", "https://a.test/v", None), "Keep me");
    assert_eq!(refreshed_history_site("", "https://www.a.test/v"), "a.test");
    assert_eq!(refreshed_history_site("Vimeo", "https://www.a.test/v"), "Vimeo");
}

#[test]
fn stale_and_invalid_history_entries() {
    assert!(history_is_stale("1000", "87400"));
    assert!(!history_is_stale("1000", "87399"));
    assert!(!history_is_stale("90000", "1000"));
    assert!(history_is_stale("not a time", "86400"));

    assert!(!is_invalid_history_item("failed", true, true, None));
    assert!(is_invalid_history_item("canceled", false, false, Some(true)));
    assert!(is_invalid_history_item("running", false, true, None));
    assert!(!is_invalid_history_item("paused", false, false, None));
    assert!(is_invalid_history_item("completed", false, false, None));
    assert!(is_invalid_history_item("completed", false, false, Some(false)));
    assert!(!is_invalid_history_item("completed", false, false, Some(true)));
    assert!(!is_invalid_history_item("queued", false, true, Some(false)));
}

#[test]
fn durations_are_shown_as_clock_times() {
    assert_eq!(format_duration_seconds(0), "00:00");
    assert_eq!(format_duration_seconds(65), "01:05");
    assert_eq!(format_duration_seconds(3600), "1:00:00");
    assert_eq!(format_duration_seconds(36125), "10:02:05");
}

#[test]
fn task_cache_directories_use_safe_names() {
    assert_eq!(download_task_cache_dir("/cache", "task-1/../x"), "/cache/task-1x");
    assert_eq!(download_task_cache_dir("/cache/", "../"), "/cache/unknown-task");
}

#[test]
fn queue_addresses_are_trimmed_and_numbered() {
    let urls: Vec<String> = [" https://a.test/1 ", "   ", "", "https://a.test/2"]
        .iter()
        .map(|s| s.to_string())
        .collect();
    assert_eq!(
        queue_sources(&urls),
        vec![("https://a.test/1".to_string(), 1), ("https://a.test/2".to_string(), 2)]
    );
    assert!(queue_sources(&[]).is_empty());
}

#[test]
fn waiting_checks_stop_then_exit_then_time() {
    assert_eq!(wait_step(true, true, true), WaitStep::Stop);
    assert_eq!(wait_step(false, true, true), WaitStep::Finish);
    assert_eq!(wait_step(false, false, true), WaitStep::GiveUp);
    assert_eq!(wait_step(false, false, false), WaitStep::Wait);
    assert_eq!(timeout_message("yt-dlp", 45), "yt-dlp 超过 45 秒未返回，请检查网络或代理。");
    assert_eq!(timeout_message("ffprobe", 20), "ffprobe 超过 20 秒未返回。");
}

#[test]
fn only_a_stop_ends_the_queue() {
    assert!(stops_queue(&operation_stopped_error()));
    assert!(!stops_queue("ERROR: Unsupported URL"));
}

fn record(id: &str, status: &str, progress: f64) -> HistoryRecord<f64, u8, u8> {
    HistoryRecord {
        id: id.to_string(),
        url: format!("https://a.test/{id}"),
        title: "old".to_string(),
        site: "a.test".to_string(),
        format: "best".to_string(),
        browser: None,
        output_dir: "/out".to_string(),
        status: status.to_string(),
        progress,
        output_path: Some("/out/x.mp4".to_string()),
        local_media: Some(1),
        media_comparison: Some(2),
        error: Some("boom".to_string()),
        updated_at: "1".to_string(),
    }
}

#[test]
fn starting_a_download_restarts_or_adds_its_entry() {
    let mut items = vec![record("a", "paused", 42.0), record("b", "failed", 13.0)];
    let mut next = record("a", "running", 0.0);
    next.title = "new".to_string();
    upsert_started_history(&mut items, next, "9".to_string());
    assert_eq!(items.len(), 2);
    assert_eq!(items[0].title, "new");
    assert_eq!(items[0].status, "running");
    assert_eq!(items[0].progress, 42.0);
    assert_eq!(items[0].output_path, None);
    assert_eq!(items[0].local_media, None);
    assert_eq!(items[0].error, None);
    assert_eq!(items[0].updated_at, "9");

    upsert_started_history(&mut items, record("b", "running", 0.0), "10".to_string());
    assert_eq!(items[1].progress, 0.0);

    upsert_started_history(&mut items, record("c", "running", 0.0), "11".to_string());
    assert_eq!(items.len(), 3);
    assert_eq!(items[0].id, "c");
}
