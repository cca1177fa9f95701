//! The decisions around a download run by yt-dlp: the arguments it is
//! started with, the lines it prints, how the run ended, and what the saved
//! history says about it.
use vstd::prelude::*;
use crate::text::{
    chars_of, decimal, has_prefix_str, lower, parse_u64, parse_u64_chars, part, push_all,
    push_str, starts_with, string_from, string_of, trim, trimmed, u64_to_chars,
};
use crate::tools::{join_path, join_path_str, opt_view, opt_str_view};
use crate::sites::{
    display_site, display_site_spec, display_title, display_title_spec, is_opaque_id_spec,
    is_opaque_id_text, is_placeholder_spec, is_placeholder_text, title_from_output_path,
    title_from_output_path_spec, sanitize_cache_component, sanitize_spec,
};

verus! {

pub open spec fn strings_view(v: Seq<String>) -> Seq<Seq<char>> {
    v.map_values(|s: String| s@)
}

fn push_arg(args: &mut Vec<String>, s: &str)
    ensures
        strings_view(final(args)@) == strings_view(old(args)@).push(s@),
{
    args.push(string_from(s));
    assert(strings_view(args@) =~= strings_view(old(args)@).push(s@));
}

fn push_owned(args: &mut Vec<String>, s: String)
    ensures
        strings_view(final(args)@) == strings_view(old(args)@).push(s@),
{
    let ghost v = s@;
    args.push(s);
    assert(strings_view(args@) =~= strings_view(old(args)@).push(v));
}

/// The cookie arguments for a browser, where one is chosen.
pub open spec fn cookie_args(browser: Option<Seq<char>>) -> Seq<Seq<char>> {
    match browser {
        Some(b) => seq!["--cookies-from-browser"@, b],
        None => seq![],
    }
}

fn push_cookie_args(args: &mut Vec<String>, browser: Option<&str>)
    ensures
        strings_view(final(args)@) == strings_view(old(args)@) + cookie_args(opt_str_view(browser)),
{
    match browser {
        Some(b) => {
            push_arg(args, "--cookies-from-browser");
            push_arg(args, b);
        },
        None => {
            assert(strings_view(args@) =~= strings_view(args@) + Seq::<Seq<char>>::empty());
        },
    }
}

/// The arguments that probe one video, after the proxy arguments.
pub open spec fn probe_args_spec(url: Seq<char>, browser: Option<Seq<char>>) -> Seq<Seq<char>> {
    seq![
        "--dump-single-json"@,
        "--skip-download"@,
        "--no-warnings"@,
        "--no-playlist"@,
        "--socket-timeout"@,
        "30"@,
        "-f"@,
        "bv*+ba/b"@,
    ] + cookie_args(browser) + seq![url]
}

pub fn ytdlp_probe_args(url: &str, browser: Option<&str>) -> (r: Vec<String>)
    ensures
        strings_view(r@) == probe_args_spec(url@, opt_str_view(browser)),
{
    let mut args: Vec<String> = Vec::new();
    push_arg(&mut args, "--dump-single-json");
    push_arg(&mut args, "--skip-download");
    push_arg(&mut args, "--no-warnings");
    push_arg(&mut args, "--no-playlist");
    push_arg(&mut args, "--socket-timeout");
    push_arg(&mut args, "30");
    push_arg(&mut args, "-f");
    push_arg(&mut args, "bv*+ba/b");
    push_cookie_args(&mut args, browser);
    push_arg(&mut args, url);
    args
}

/// The arguments that list the entries of a playlist (or one video), after
/// the proxy arguments.
pub open spec fn queue_args_spec(url: Seq<char>, browser: Option<Seq<char>>) -> Seq<Seq<char>> {
    seq![
        "--dump-single-json"@,
        "--skip-download"@,
        "--no-warnings"@,
        "--socket-timeout"@,
        "30"@,
        "--yes-playlist"@,
        "--flat-playlist"@,
    ] + cookie_args(browser) + seq![url]
}

pub fn ytdlp_queue_args(url: &str, browser: Option<&str>) -> (r: Vec<String>)
    ensures
        strings_view(r@) == queue_args_spec(url@, opt_str_view(browser)),
{
    let mut args: Vec<String> = Vec::new();
    push_arg(&mut args, "--dump-single-json");
    push_arg(&mut args, "--skip-download");
    push_arg(&mut args, "--no-warnings");
    push_arg(&mut args, "--socket-timeout");
    push_arg(&mut args, "30");
    push_arg(&mut args, "--yes-playlist");
    push_arg(&mut args, "--flat-playlist");
    push_cookie_args(&mut args, browser);
    push_arg(&mut args, url);
    args
}

/// The template of the progress lines that `parse_progress_fields` reads.
pub open spec fn progress_template() -> Seq<char> {
    "download:VD_PROGRESS:%(progress._percent_str)s|%(progress._speed_str)s|%(progress._eta_str)s|%(info.vcodec|)s|%(info.acodec|)s|%(info.format_id|)s"@
}

/// The arguments of a download, after the proxy arguments.
pub open spec fn download_args_spec(
    format: Seq<char>,
    ffmpeg_path: Seq<char>,
    output_dir: Seq<char>,
    cache_dir: Seq<char>,
    ytdlp_cache_dir: Seq<char>,
    browser: Option<Seq<char>>,
    url: Seq<char>,
) -> Seq<Seq<char>> {
    seq![
        "--progress"@,
        "--newline"@,
        "--color"@,
        "stderr:never"@,
        "--progress-delta"@,
        "0.5"@,
        "--progress-template"@,
        progress_template(),
        "--progress-template"@,
        "postprocess:VD_POSTPROCESS:%(progress.status|)s"@,
        "--no-playlist"@,
        "--socket-timeout"@,
        "30"@,
        "-f"@,
        format,
        "--ffmpeg-location"@,
        ffmpeg_path,
        "--merge-output-format"@,
        "mp4"@,
        "--paths"@,
        "home:"@ + output_dir,
        "--paths"@,
        "temp:"@ + cache_dir,
        "--cache-dir"@,
        ytdlp_cache_dir,
        "--continue"@,
        "-o"@,
        "%(title).120B-%(id)s.%(ext)s"@,
        "--print"@,
        "after_move:VD_OUTPUT=%(filepath)s"@,
    ] + cookie_args(browser) + seq![url]
}

fn prefixed(prefix: &str, value: &str) -> (r: String)
    ensures
        r@ == prefix@ + value@,
{
    let mut c = chars_of(prefix);
    push_str(&mut c, value);
    string_of(&c)
}

pub fn ytdlp_download_args(
    format: &str,
    ffmpeg_path: &str,
    output_dir: &str,
    cache_dir: &str,
    ytdlp_cache_dir: &str,
    browser: Option<&str>,
    url: &str,
) -> (r: Vec<String>)
    ensures
        strings_view(r@) == download_args_spec(
            format@,
            ffmpeg_path@,
            output_dir@,
            cache_dir@,
            ytdlp_cache_dir@,
            opt_str_view(browser),
            url@,
        ),
{
    let mut args: Vec<String> = Vec::new();
    push_arg(&mut args, "--progress");
    push_arg(&mut args, "--newline");
    push_arg(&mut args, "--color");
    push_arg(&mut args, "stderr:never");
    push_arg(&mut args, "--progress-delta");
    push_arg(&mut args, "0.5");
    push_arg(&mut args, "--progress-template");
    push_arg(
        &mut args,
        "download:VD_PROGRESS:%(progress._percent_str)s|%(progress._speed_str)s|%(progress._eta_str)s|%(info.vcodec|)s|%(info.acodec|)s|%(info.format_id|)s",
    );
    push_arg(&mut args, "--progress-template");
    push_arg(&mut args, "postprocess:VD_POSTPROCESS:%(progress.status|)s");
    push_arg(&mut args, "--no-playlist");
    push_arg(&mut args, "--socket-timeout");
    push_arg(&mut args, "30");
    push_arg(&mut args, "-f");
    push_arg(&mut args, format);
    push_arg(&mut args, "--ffmpeg-location");
    push_arg(&mut args, ffmpeg_path);
    push_arg(&mut args, "--merge-output-format");
    push_arg(&mut args, "mp4");
    push_arg(&mut args, "--paths");
    let home = prefixed("home:", output_dir);
    let ghost hv = home@;
    push_owned(&mut args, home);
    push_arg(&mut args, "--paths");
    let temp = prefixed("temp:", cache_dir);
    let ghost tv = temp@;
    push_owned(&mut args, temp);
    push_arg(&mut args, "--cache-dir");
    push_arg(&mut args, ytdlp_cache_dir);
    push_arg(&mut args, "--continue");
    push_arg(&mut args, "-o");
    push_arg(&mut args, "%(title).120B-%(id)s.%(ext)s");
    push_arg(&mut args, "--print");
    push_arg(&mut args, "after_move:VD_OUTPUT=%(filepath)s");
    let ghost base = strings_view(args@);
    push_cookie_args(&mut args, browser);
    push_arg(&mut args, url);
    assert(base =~= seq![
        "--progress"@,
        "--newline"@,
        "--color"@,
        "stderr:never"@,
        "--progress-delta"@,
        "0.5"@,
        "--progress-template"@,
        progress_template(),
        "--progress-template"@,
        "postprocess:VD_POSTPROCESS:%(progress.status|)s"@,
        "--no-playlist"@,
        "--socket-timeout"@,
        "30"@,
        "-f"@,
        format@,
        "--ffmpeg-location"@,
        ffmpeg_path@,
        "--merge-output-format"@,
        "mp4"@,
        "--paths"@,
        hv,
        "--paths"@,
        tv,
        "--cache-dir"@,
        ytdlp_cache_dir@,
        "--continue"@,
        "-o"@,
        "%(title).120B-%(id)s.%(ext)s"@,
        "--print"@,
        "after_move:VD_OUTPUT=%(filepath)s"@,
    ]);
    args
}

/// The saved file that a `VD_OUTPUT=` line of the download names, trimmed.
pub open spec fn output_path_spec(line: Seq<char>) -> Option<Seq<char>> {
    if starts_with(line, "VD_OUTPUT="@) {
        Some(trim(line.skip(10)))
    } else {
        None
    }
}

pub fn output_path_from_line(line: &str) -> (r: Option<String>)
    ensures
        opt_view(r) == output_path_spec(line@),
{
    let c = chars_of(line);
    if has_prefix_str(&c, "VD_OUTPUT=") {
        proof {
            assert("VD_OUTPUT="@.len() == 10) by {
                reveal_strlit("VD_OUTPUT=");
            }
        }
        let rest = part(&c, 10, c.len());
        assert(rest@ =~= line@.skip(10));
        let t = trimmed(&rest);
        Some(string_of(&t))
    } else {
        None
    }
}

/// The message of a failed command: its trimmed error output, or `fallback`
/// where that is blank.
pub open spec fn command_error_spec(stderr: Seq<char>, fallback: Seq<char>) -> Seq<char> {
    if trim(stderr).len() == 0 {
        fallback
    } else {
        trim(stderr)
    }
}

pub fn command_error_message(stderr: &str, fallback: &str) -> (r: String)
    ensures
        r@ == command_error_spec(stderr@, fallback@),
{
    let c = chars_of(stderr);
    let t = trimmed(&c);
    if t.len() == 0 {
        string_from(fallback)
    } else {
        string_of(&t)
    }
}

/// How a download ended.
#[derive(Debug, Clone, Copy, PartialEq, Eq, Structural)]
pub enum DownloadOutcome {
    Canceled,
    Paused,
    Completed,
    Failed,
}

/// Cancelling wins over pausing, pausing over the exit status.
pub open spec fn outcome_spec(canceled: bool, paused: bool, success: bool) -> DownloadOutcome {
    if canceled {
        DownloadOutcome::Canceled
    } else if paused {
        DownloadOutcome::Paused
    } else if success {
        DownloadOutcome::Completed
    } else {
        DownloadOutcome::Failed
    }
}

pub fn download_outcome(canceled: bool, paused: bool, success: bool) -> (r: DownloadOutcome)
    ensures
        r == outcome_spec(canceled, paused, success),
{
    if canceled {
        DownloadOutcome::Canceled
    } else if paused {
        DownloadOutcome::Paused
    } else if success {
        DownloadOutcome::Completed
    } else {
        DownloadOutcome::Failed
    }
}

impl DownloadOutcome {
    pub open spec fn status_spec(self) -> Seq<char> {
        match self {
            DownloadOutcome::Canceled => "canceled"@,
            DownloadOutcome::Paused => "paused"@,
            DownloadOutcome::Completed => "completed"@,
            DownloadOutcome::Failed => "failed"@,
        }
    }

    /// The status saved in the history.
    pub fn as_str(self) -> (r: &'static str)
        ensures
            r@ == self.status_spec(),
    {
        match self {
            DownloadOutcome::Canceled => "canceled",
            DownloadOutcome::Paused => "paused",
            DownloadOutcome::Completed => "completed",
            DownloadOutcome::Failed => "failed",
        }
    }

    /// Whether the task's download cache is removed: it is kept only while
    /// paused, for resuming.
    pub fn removes_cache(self) -> (r: bool)
        ensures
            r == (self != DownloadOutcome::Paused),
    {
        match self {
            DownloadOutcome::Paused => false,
            _ => true,
        }
    }
}

/// The error saved for a failed download.
pub open spec fn failure_message_spec(stderr: Seq<char>) -> Seq<char> {
    command_error_spec(stderr, "下载失败，yt-dlp 未返回详细错误。"@)
}

pub fn download_error(outcome: DownloadOutcome, stderr: &str) -> (r: Option<String>)
    ensures
        outcome == DownloadOutcome::Failed ==> opt_view(r) == Some(failure_message_spec(stderr@)),
        outcome != DownloadOutcome::Failed ==> r is None,
{
    match outcome {
        DownloadOutcome::Failed => Some(
            command_error_message(stderr, "下载失败，yt-dlp 未返回详细错误。"),
        ),
        _ => None,
    }
}

// ---------------------------------------------------------------------------
// History entries
// ---------------------------------------------------------------------------
/// The title kept in the history once a download ends: a placeholder, or an
/// id-like title when the saved file gives a real one, is replaced by the
/// title shown for the download.
pub open spec fn refreshed_title_spec(title: Seq<char>, url: Seq<char>, output_path: Option<Seq<char>>) -> Seq<char> {
    let from_file = match output_path {
        Some(p) => title_from_output_path_spec(p) is Some,
        None => false,
    };
    if is_placeholder_spec(title) || (from_file && is_opaque_id_spec(title)) {
        display_title_spec(None, url, output_path)
    } else {
        title
    }
}

pub fn refreshed_history_title(title: &str, url: &str, output_path: Option<&str>) -> (r: String)
    ensures
        r@ == refreshed_title_spec(title@, url@, opt_str_view(output_path)),
{
    let from_file = match output_path {
        Some(p) => title_from_output_path(p).is_some(),
        None => false,
    };
    if is_placeholder_text(title) || (from_file && is_opaque_id_text(title)) {
        display_title(None, url, output_path)
    } else {
        string_from(title)
    }
}

/// The site kept in the history once a download ends.
pub open spec fn refreshed_site_spec(site: Seq<char>, url: Seq<char>) -> Seq<char> {
    if is_placeholder_spec(site) {
        display_site_spec(None, url)
    } else {
        site
    }
}

pub fn refreshed_history_site(site: &str, url: &str) -> (r: String)
    ensures
        r@ == refreshed_site_spec(site@, url@),
{
    if is_placeholder_text(site) {
        display_site(None, url)
    } else {
        string_from(site)
    }
}

/// A running or paused entry not updated for a day is stale; a time that
/// does not parse counts as 0.
pub open spec fn is_stale_spec(updated_at: Seq<char>, now: Seq<char>) -> bool {
    let u = match parse_u64(updated_at) {
        Some(v) => v,
        None => 0,
    };
    let n = match parse_u64(now) {
        Some(v) => v,
        None => 0,
    };
    n >= u && n - u >= 86400
}

pub fn history_is_stale(updated_at: &str, now: &str) -> (r: bool)
    ensures
        r == is_stale_spec(updated_at@, now@),
{
    let uc = chars_of(updated_at);
    let nc = chars_of(now);
    let u = match parse_u64_chars(&uc) {
        Some(v) => v,
        None => 0,
    };
    let n = match parse_u64_chars(&nc) {
        Some(v) => v,
        None => 0,
    };
    n.saturating_sub(u) >= 86400
}

/// Whether a history entry is cleaned up: failed and cancelled ones always,
/// running and paused ones when stale, completed ones whose file is gone;
/// never one of an active task. `output_is_file` says whether the entry's
/// saved file exists (`None` where it names none).
pub open spec fn is_invalid_spec(status: Seq<char>, active: bool, stale: bool, output_is_file: Option<bool>) -> bool {
    if active {
        false
    } else if status == "failed"@ || status == "canceled"@ {
        true
    } else if status == "running"@ || status == "paused"@ {
        stale
    } else if status == "completed"@ {
        match output_is_file {
            Some(f) => !f,
            None => true,
        }
    } else {
        false
    }
}

pub fn is_invalid_history_item(status: &str, active: bool, stale: bool, output_is_file: Option<bool>) -> (r: bool)
    ensures
        r == is_invalid_spec(status@, active, stale, output_is_file),
{
    if active {
        return false;
    }
    let s = chars_of(status);
    if crate::text::eq_str(&s, "failed") || crate::text::eq_str(&s, "canceled") {
        true
    } else if crate::text::eq_str(&s, "running") || crate::text::eq_str(&s, "paused") {
        stale
    } else if crate::text::eq_str(&s, "completed") {
        match output_is_file {
            Some(f) => !f,
            None => true,
        }
    } else {
        false
    }
}

/// A media duration in whole seconds as `M:SS` padded to two digits, or
/// `H:MM:SS` from an hour on.
pub open spec fn two_digits(n: nat) -> Seq<char> {
    if n < 10 {
        "0"@ + decimal(n)
    } else {
        decimal(n)
    }
}

pub open spec fn duration_text_spec(total: u64) -> Seq<char> {
    let hours = total / 3600;
    let minutes = (total % 3600) / 60;
    let seconds = total % 60;
    if hours > 0 {
        decimal(hours as nat) + ":"@ + two_digits(minutes as nat) + ":"@ + two_digits(seconds as nat)
    } else {
        two_digits(minutes as nat) + ":"@ + two_digits(seconds as nat)
    }
}

fn push_two_digits(out: &mut Vec<char>, n: u64)
    ensures
        final(out)@ == old(out)@ + two_digits(n as nat),
{
    if n < 10 {
        push_str(out, "0");
    }
    let d = u64_to_chars(n);
    push_all(out, &d);
}

pub fn format_duration_seconds(total_seconds: u64) -> (r: String)
    ensures
        r@ == duration_text_spec(total_seconds),
{
    let hours = total_seconds / 3600;
    let minutes = (total_seconds % 3600) / 60;
    let seconds = total_seconds % 60;
    let mut out: Vec<char> = Vec::new();
    if hours > 0 {
        let h = u64_to_chars(hours);
        push_all(&mut out, &h);
        push_str(&mut out, ":");
    }
    push_two_digits(&mut out, minutes);
    push_str(&mut out, ":");
    push_two_digits(&mut out, seconds);
    string_of(&out)
}

/// The cache directory of a download task inside the cache root: the task
/// id reduced to a safe directory name.
pub fn download_task_cache_dir(cache_root: &str, task_id: &str) -> (r: String)
    ensures
        r@ == join_path(cache_root@, sanitize_spec(task_id@)),
{
    let name = sanitize_cache_component(task_id);
    join_path_str(cache_root, name.as_str())
}

/// The addresses of a download queue, trimmed and without blank ones, each
/// with its order among them, counted from 1.
pub open spec fn queue_sources_spec(urls: Seq<Seq<char>>) -> Seq<(Seq<char>, nat)>
    decreases urls.len(),
{
    if urls.len() == 0 {
        seq![]
    } else {
        let prev = queue_sources_spec(urls.drop_last());
        if trim(urls.last()).len() == 0 {
            prev
        } else {
            prev.push((trim(urls.last()), prev.len() + 1))
        }
    }
}

pub fn queue_sources(urls: &[String]) -> (r: Vec<(String, usize)>)
    ensures
        r@.map_values(|e: (String, usize)| (e.0@, e.1 as nat)) == queue_sources_spec(
            urls@.map_values(|u: String| u@),
        ),
{
    let ghost src = urls@.map_values(|u: String| u@);
    let mut out: Vec<(String, usize)> = Vec::new();
    let mut i: usize = 0;
    while i < urls.len()
        invariant
            i <= urls@.len(),
            src == urls@.map_values(|u: String| u@),
            out@.map_values(|e: (String, usize)| (e.0@, e.1 as nat)) == queue_sources_spec(
                src.take(i as int),
            ),
            out@.len() <= i,
        decreases urls@.len() - i,
    {
        proof {
            assert(src.take(i + 1).drop_last() =~= src.take(i as int));
            assert(src.take(i + 1).last() == urls@[i as int]@);
        }
        let c = chars_of(urls[i].as_str());
        let t = trimmed(&c);
        if t.len() > 0 {
            let ghost before = out@.map_values(|e: (String, usize)| (e.0@, e.1 as nat));
            let order = out.len() + 1;
            out.push((string_of(&t), order));
            assert(out@.map_values(|e: (String, usize)| (e.0@, e.1 as nat)) =~= before.push(
                (t@, before.len() + 1),
            ));
        }
        i = i + 1;
    }
    assert(src.take(urls@.len() as int) =~= src);
    out
}

// ---------------------------------------------------------------------------
// Waiting for a command
// ---------------------------------------------------------------------------
/// What to do next while waiting for a command.
#[derive(Debug, Clone, Copy, PartialEq, Eq, Structural)]
pub enum WaitStep {
    /// The user stopped the operation: end the command, report it stopped.
    Stop,
    /// The command has exited: collect its output.
    Finish,
    /// The time limit has passed: end the command, report the timeout.
    GiveUp,
    /// Check again after a short sleep.
    Wait,
}

/// One step of waiting: a stop by the user comes first, then the command's
/// exit, then the time limit.
pub open spec fn wait_step_spec(canceled: bool, exited: bool, timed_out: bool) -> WaitStep {
    if canceled {
        WaitStep::Stop
    } else if exited {
        WaitStep::Finish
    } else if timed_out {
        WaitStep::GiveUp
    } else {
        WaitStep::Wait
    }
}

pub fn wait_step(canceled: bool, exited: bool, timed_out: bool) -> (r: WaitStep)
    ensures
        r == wait_step_spec(canceled, exited, timed_out),
{
    if canceled {
        WaitStep::Stop
    } else if exited {
        WaitStep::Finish
    } else if timed_out {
        WaitStep::GiveUp
    } else {
        WaitStep::Wait
    }
}

/// The message of a command that ran past its time limit; for yt-dlp it
/// adds a hint to check the network or proxy.
pub open spec fn timeout_message_spec(label: Seq<char>, seconds: u64) -> Seq<char> {
    label + " 超过 "@ + decimal(seconds as nat) + " 秒未返回"@ + (if label == "yt-dlp"@ {
        "，请检查网络或代理"@
    } else {
        seq![]
    }) + "。"@
}

pub fn timeout_message(label: &str, seconds: u64) -> (r: String)
    ensures
        r@ == timeout_message_spec(label@, seconds),
{
    let mut m = chars_of(label);
    push_str(&mut m, " 超过 ");
    let d = u64_to_chars(seconds);
    push_all(&mut m, &d);
    push_str(&mut m, " 秒未返回");
    let l = chars_of(label);
    if crate::text::eq_str(&l, "yt-dlp") {
        push_str(&mut m, "，请检查网络或代理");
    }
    push_str(&mut m, "。");
    string_of(&m)
}

/// The error of a yt-dlp operation that the user stopped.
pub open spec fn operation_stopped_message() -> Seq<char> {
    "操作已停止。"@
}

pub fn operation_stopped_error() -> (r: String)
    ensures
        r@ == operation_stopped_message(),
{
    string_from("操作已停止。")
}

/// Whether an error while parsing the download queue ends the whole batch:
/// only a stop by the user does; any other error becomes an error item.
pub fn stops_queue(error: &str) -> (r: bool)
    ensures
        r == (error@ == operation_stopped_message()),
{
    let c = chars_of(error);
    crate::text::eq_str(&c, "操作已停止。")
}

// ---------------------------------------------------------------------------
// Download history entries
// ---------------------------------------------------------------------------
/// An entry of the download history. The progress (`P`), the local media
/// information (`M`) and the comparison with the promised media (`C`) are
/// carried as they are.
#[derive(Debug, Clone)]
pub struct HistoryRecord<P, M, C> {
    pub id: String,
    pub url: String,
    pub title: String,
    pub site: String,
    pub format: String,
    pub browser: Option<String>,
    pub output_dir: String,
    pub status: String,
    pub progress: P,
    pub output_path: Option<String>,
    pub local_media: Option<M>,
    pub media_comparison: Option<C>,
    pub error: Option<String>,
    pub updated_at: String,
}

/// The index of the first entry with the id `id`.
pub open spec fn id_position<P, M, C>(items: Seq<HistoryRecord<P, M, C>>, id: Seq<char>) -> Option<nat>
    decreases items.len(),
{
    if items.len() == 0 {
        None
    } else {
        match id_position(items.drop_last(), id) {
            Some(k) => Some(k),
            None => if items.last().id@ == id {
                Some((items.len() - 1) as nat)
            } else {
                None
            },
        }
    }
}

/// `r` is `existing` restarted by `item` at `now`: the new address, title,
/// site, format, browser and directory, running again, with no file, media,
/// comparison or error, and the progress kept where `existing` was paused.
pub open spec fn restarted<P, M, C>(
    r: HistoryRecord<P, M, C>,
    existing: HistoryRecord<P, M, C>,
    item: HistoryRecord<P, M, C>,
    now: String,
) -> bool {
    &&& r.id == existing.id
    &&& r.url == item.url
    &&& r.title == item.title
    &&& r.site == item.site
    &&& r.format == item.format
    &&& r.browser == item.browser
    &&& r.output_dir == item.output_dir
    &&& r.status@ == "running"@
    &&& r.progress == (if existing.status@ == "paused"@ {
        existing.progress
    } else {
        item.progress
    })
    &&& r.output_path is None
    &&& r.local_media is None
    &&& r.media_comparison is None
    &&& r.error is None
    &&& r.updated_at == now
}

fn find_id<P, M, C>(items: &Vec<HistoryRecord<P, M, C>>, id: &str) -> (r: Option<usize>)
    ensures
        r matches Some(k) ==> id_position(items@, id@) == Some(k as nat) && k < items@.len(),
        r is None ==> id_position(items@, id@) is None,
{
    let key = chars_of(id);
    let mut k: usize = 0;
    while k < items.len()
        invariant
            k <= items@.len(),
            key@ == id@,
            id_position(items@.take(k as int), id@) is None,
        decreases items@.len() - k,
    {
        let c = chars_of(items[k].id.as_str());
        assert(items@.take(k + 1).drop_last() =~= items@.take(k as int));
        if crate::text::seq_eq(&c, &key) {
            proof {
                lemma_id_position_prefix(items@, id@, (k + 1) as nat, k as nat);
            }
            return Some(k);
        }
        k = k + 1;
    }
    assert(items@.take(items@.len() as int) =~= items@);
    None
}

proof fn lemma_id_position_prefix<P, M, C>(items: Seq<HistoryRecord<P, M, C>>, id: Seq<char>, n: nat, k: nat)
    requires
        n <= items.len(),
        id_position(items.take(n as int), id) == Some(k),
    ensures
        id_position(items, id) == Some(k),
    decreases items.len() - n,
{
    if n < items.len() {
        let m = (n + 1) as nat;
        assert(items.take(m as int).drop_last() =~= items.take(n as int));
        assert(id_position(items.take(m as int), id) == Some(k));
        lemma_id_position_prefix(items, id, m, k);
    } else {
        assert(items.take(n as int) =~= items);
    }
}

/// The history after a download starts: the entry with the item's id is
/// restarted by it, or, where there is none, the item goes first.
pub fn upsert_started_history<P: Copy, M, C>(
    items: &mut Vec<HistoryRecord<P, M, C>>,
    item: HistoryRecord<P, M, C>,
    now: String,
)
    ensures
        id_position(old(items)@, item.id@) matches Some(k) ==> final(items)@.len() == old(items)@.len()
            && restarted(final(items)@[k as int], old(items)@[k as int], item, now) && forall|j: int|
            0 <= j < old(items)@.len() && j != k ==> final(items)@[j] == old(items)@[j],
        id_position(old(items)@, item.id@) is None ==> final(items)@ == seq![item] + old(items)@,
{
    match find_id(items, item.id.as_str()) {
        Some(k) => {
            let status = chars_of(items[k].status.as_str());
            let progress = if crate::text::eq_str(&status, "paused") {
                items[k].progress
            } else {
                item.progress
            };
            let record = HistoryRecord {
                id: items[k].id.clone(),
                url: item.url,
                title: item.title,
                site: item.site,
                format: item.format,
                browser: item.browser,
                output_dir: item.output_dir,
                status: string_from("running"),
                progress,
                output_path: None,
                local_media: None,
                media_comparison: None,
                error: None,
                updated_at: now,
            };
            items.set(k, record);
        },
        None => {
            items.insert(0, item);
            assert(items@ =~= seq![item] + old(items)@);
        },
    }
}

} // verus!
