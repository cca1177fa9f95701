//! The two managed command-line tools (yt-dlp and ffmpeg): their names,
//! user settings, version strings and update status.
use vstd::prelude::*;
use crate::ffmpeg::{path_components, same_path};
use crate::text::{is_upper, is_lower, 
    chars_of, eq_str, find_ch, find_char, has_prefix, is_whitespace, is_ws, part, push_all,
    push_str, skip_ws, starts_with, string_of, strip_start_all, strip_start_char, trim,
    trim_start, trimmed, is_digit, is_ascii_digit, digits_value, all_digits, digits_to_u64,
};

verus! {

/// Where a tool executable was found.
#[derive(Debug, Clone, Copy, PartialEq, Eq, Structural)]
pub enum ToolSource {
    Manual,
    Env,
    Path,
}

impl ToolSource {
    pub open spec fn name_spec(self) -> Seq<char> {
        match self {
            ToolSource::Manual => "manual"@,
            ToolSource::Env => "env"@,
            ToolSource::Path => "path"@,
        }
    }

    pub fn as_str(self) -> (r: &'static str)
        ensures
            r@ == self.name_spec(),
    {
        match self {
            ToolSource::Manual => "manual",
            ToolSource::Env => "env",
            ToolSource::Path => "path",
        }
    }
}

/// A tool executable and where it was found.
#[derive(Debug, Clone)]
pub struct ToolResolution {
    pub path: String,
    pub source: ToolSource,
}

/// The user's saved tool paths and proxy choice.
#[derive(Debug, Clone)]
pub struct ToolSettings {
    pub yt_dlp_path: Option<String>,
    pub ffmpeg_path: Option<String>,
    pub proxy_mode: Option<String>,
    pub proxy_url: Option<String>,
}

impl ToolSettings {
    /// Settings with nothing saved.
    pub fn empty() -> (r: Self)
        ensures
            r.yt_dlp_path is None,
            r.ffmpeg_path is None,
            r.proxy_mode is None,
            r.proxy_url is None,
    {
        ToolSettings { yt_dlp_path: None, ffmpeg_path: None, proxy_mode: None, proxy_url: None }
    }
}

/// A tool whose path the user may set.
#[derive(Debug, Clone, Copy, PartialEq, Eq, Structural)]
pub enum ManagedTool {
    YtDlp,
    Ffmpeg,
}

pub open spec fn opt_view(o: Option<String>) -> Option<Seq<char>> {
    match o {
        Some(s) => Some(s@),
        None => None,
    }
}

pub open spec fn opt_str_view(o: Option<&str>) -> Option<Seq<char>> {
    match o {
        Some(s) => Some(s@),
        None => None,
    }
}

impl ManagedTool {
    /// The tool that a name given by the front end stands for.
    pub open spec fn from_name_spec(name: Seq<char>) -> Option<ManagedTool> {
        if name == "yt-dlp"@ || name == "ytDlp"@ || name == "yt_dlp"@ {
            Some(ManagedTool::YtDlp)
        } else if name == "ffmpeg"@ {
            Some(ManagedTool::Ffmpeg)
        } else {
            None
        }
    }

    pub open spec fn display_name_spec(self) -> Seq<char> {
        match self {
            ManagedTool::YtDlp => "yt-dlp"@,
            ManagedTool::Ffmpeg => "ffmpeg"@,
        }
    }

    pub open spec fn env_var_spec(self) -> Seq<char> {
        match self {
            ManagedTool::YtDlp => "VIDEO_DOWNLOADER_YT_DLP_PATH"@,
            ManagedTool::Ffmpeg => "VIDEO_DOWNLOADER_FFMPEG_PATH"@,
        }
    }

    /// The saved path of this tool.
    pub open spec fn path_spec(self, settings: ToolSettings) -> Option<String> {
        match self {
            ManagedTool::YtDlp => settings.yt_dlp_path,
            ManagedTool::Ffmpeg => settings.ffmpeg_path,
        }
    }

    pub fn from_name(name: &str) -> (r: Result<Self, String>)
        ensures
            r matches Ok(t) ==> Self::from_name_spec(name@) == Some(t),
            r matches Err(e) ==> Self::from_name_spec(name@) is None && e@ == "不支持的工具名称："@
                + name@,
    {
        let n = chars_of(name);
        if eq_str(&n, "yt-dlp") || eq_str(&n, "ytDlp") || eq_str(&n, "yt_dlp") {
            Ok(ManagedTool::YtDlp)
        } else if eq_str(&n, "ffmpeg") {
            Ok(ManagedTool::Ffmpeg)
        } else {
            let mut m: Vec<char> = Vec::new();
            push_str(&mut m, "不支持的工具名称：");
            push_all(&mut m, &n);
            Err(string_of(&m))
        }
    }

    pub fn display_name(self) -> (r: &'static str)
        ensures
            r@ == self.display_name_spec(),
    {
        match self {
            ManagedTool::YtDlp => "yt-dlp",
            ManagedTool::Ffmpeg => "ffmpeg",
        }
    }

    /// The argument that makes the tool print its version.
    pub fn version_arg(self) -> (r: &'static str)
        ensures
            r@ == (match self {
                ManagedTool::YtDlp => "--version"@,
                ManagedTool::Ffmpeg => "-version"@,
            }),
    {
        match self {
            ManagedTool::YtDlp => "--version",
            ManagedTool::Ffmpeg => "-version",
        }
    }

    pub fn env_var(self) -> (r: &'static str)
        ensures
            r@ == self.env_var_spec(),
    {
        match self {
            ManagedTool::YtDlp => "VIDEO_DOWNLOADER_YT_DLP_PATH",
            ManagedTool::Ffmpeg => "VIDEO_DOWNLOADER_FFMPEG_PATH",
        }
    }

    pub fn path<'a>(self, settings: &'a ToolSettings) -> (r: Option<&'a str>)
        ensures
            opt_str_view(r) == opt_view(self.path_spec(*settings)),
    {
        let field = match self {
            ManagedTool::YtDlp => &settings.yt_dlp_path,
            ManagedTool::Ffmpeg => &settings.ffmpeg_path,
        };
        match field {
            Some(p) => Some(p.as_str()),
            None => None,
        }
    }

    /// The settings with this tool's saved path replaced by `path`.
    pub open spec fn with_path_spec(self, settings: ToolSettings, path: Option<String>) -> ToolSettings {
        match self {
            ManagedTool::YtDlp => ToolSettings { yt_dlp_path: path, ..settings },
            ManagedTool::Ffmpeg => ToolSettings { ffmpeg_path: path, ..settings },
        }
    }

    pub fn set_path(self, settings: &mut ToolSettings, path: Option<String>)
        ensures
            *final(settings) == self.with_path_spec(*old(settings), path),
    {
        match self {
            ManagedTool::YtDlp => settings.yt_dlp_path = path,
            ManagedTool::Ffmpeg => settings.ffmpeg_path = path,
        }
    }
}

/// Directories searched after `PATH`, joined by ", " in messages.
pub open spec fn fallback_tool_dirs_text() -> Seq<char> {
    "/opt/homebrew/bin, /usr/local/bin, /usr/bin, /bin"@
}

/// The message given when a tool cannot be found.
pub open spec fn missing_tool_message(name: Seq<char>) -> Seq<char> {
    "未找到 "@ + name
        + "。已检查手动指定路径、环境变量、当前 PATH 以及常见 Homebrew 路径："@
        + fallback_tool_dirs_text() + "。请确认已安装并可执行：brew install yt-dlp ffmpeg"@
}

/// The path of a found tool, or the message that says where it was looked for.
pub fn ensure_tool_with_settings(found: Option<ToolResolution>, name: &str) -> (r: Result<
    String,
    String,
>)
    ensures
        found matches Some(res) ==> (r matches Ok(p) && p@ == res.path@),
        found is None ==> (r matches Err(e) && e@ == missing_tool_message(name@)),
{
    match found {
        Some(res) => Ok(res.path),
        None => {
            let mut m: Vec<char> = Vec::new();
            push_str(&mut m, "未找到 ");
            push_str(&mut m, name);
            push_str(&mut m, "。已检查手动指定路径、环境变量、当前 PATH 以及常见 Homebrew 路径：");
            push_str(&mut m, "/opt/homebrew/bin, /usr/local/bin, /usr/bin, /bin");
            push_str(&mut m, "。请确认已安装并可执行：brew install yt-dlp ffmpeg");
            Err(string_of(&m))
        },
    }
}

// ---------------------------------------------------------------------------
// Version strings
// ---------------------------------------------------------------------------
/// `value.lines().next().unwrap_or("").trim()`.
pub open spec fn first_line_spec(value: Seq<char>) -> Seq<char> {
    match find_char(value, '\n') {
        Some(k) => trim(value.take(k as int)),
        None => trim(value),
    }
}

pub fn first_line(value: String) -> (r: String)
    ensures
        r@ == first_line_spec(value@),
{
    let s = chars_of(value.as_str());
    let line = match find_ch(&s, '\n') {
        Some(k) => part(&s, 0, k),
        None => s,
    };
    proof {
        if let Some(k) = find_char(value@, '\n') {
            assert(line@ =~= value@.take(k as int));
        }
    }
    let t = trimmed(&line);
    string_of(&t)
}

/// Index of the first whitespace character of `s`, or its length.
pub open spec fn ws_end(s: Seq<char>, i: nat) -> nat
    decreases s.len() - i,
{
    if i >= s.len() || is_ws(s[i as int]) {
        i
    } else {
        ws_end(s, i + 1)
    }
}

/// `s.split_whitespace().next()`.
pub open spec fn first_word(s: Seq<char>) -> Option<Seq<char>> {
    let t = trim_start(s);
    if t.len() == 0 {
        None
    } else {
        Some(t.take(ws_end(t, 0) as int))
    }
}

/// `s.strip_prefix(p).unwrap_or(s)`.
pub open spec fn strip_prefix_or_keep(s: Seq<char>, p: Seq<char>) -> Seq<char> {
    if starts_with(s, p) {
        s.skip(p.len() as int)
    } else {
        s
    }
}

/// The bare version number in a tool's version output or release tag.
pub open spec fn normalized_tool_version_spec(tool: ManagedTool, value: Seq<char>) -> Option<
    Seq<char>,
> {
    let trimmed = trim(value);
    if trimmed.len() == 0 {
        None
    } else {
        let candidate = match tool {
            ManagedTool::YtDlp => strip_start_all(trimmed, 'v'),
            ManagedTool::Ffmpeg => {
                let rest = strip_prefix_or_keep(trimmed, "ffmpeg version "@);
                let word = match first_word(rest) {
                    Some(w) => w,
                    None => trimmed,
                };
                strip_start_all(word, 'n')
            },
        };
        if candidate.len() == 0 {
            None
        } else {
            Some(candidate)
        }
    }
}

fn word_end(s: &[char], from: usize) -> (j: usize)
    requires
        from <= s.len(),
    ensures
        j == ws_end(s@, from as nat),
        j <= s.len(),
{
    let mut j = from;
    while j < s.len() && !is_whitespace(s[j])
        invariant
            from <= j <= s.len(),
            ws_end(s@, from as nat) == ws_end(s@, j as nat),
        decreases s.len() - j,
    {
        j = j + 1;
    }
    j
}

/// `s.split_whitespace().next()`.
pub fn first_word_of(s: &[char]) -> (r: Option<Vec<char>>)
    ensures
        r matches Some(w) ==> first_word(s@) == Some(w@),
        r is None ==> first_word(s@) is None,
{
    let a = skip_ws(s, 0);
    assert(s@.skip(0) =~= s@);
    let t = part(s, a, s.len());
    assert(t@ =~= s@.skip(a as int));
    if t.len() == 0 {
        return None;
    }
    let e = word_end(&t, 0);
    Some(part(&t, 0, e))
}

pub fn normalized_tool_version(tool: ManagedTool, value: &str) -> (r: Option<String>)
    ensures
        r matches Some(v) ==> normalized_tool_version_spec(tool, value@) == Some(v@),
        r is None ==> normalized_tool_version_spec(tool, value@) is None,
{
    let v = chars_of(value);
    let trimmed = trimmed(&v);
    if trimmed.len() == 0 {
        return None;
    }
    let candidate = match tool {
        ManagedTool::YtDlp => strip_start_char(&trimmed, 'v'),
        ManagedTool::Ffmpeg => {
            let prefix = chars_of("ffmpeg version ");
            let rest = if has_prefix(&trimmed, &prefix) {
                part(&trimmed, prefix.len(), trimmed.len())
            } else {
                trimmed.clone()
            };
            proof {
                if starts_with(trimmed@, prefix@) {
                    assert(rest@ =~= trimmed@.skip(prefix@.len() as int));
                }
            }
            let word = match first_word_of(&rest) {
                Some(w) => w,
                None => trimmed.clone(),
            };
            strip_start_char(&word, 'n')
        },
    };
    if candidate.len() == 0 {
        None
    } else {
        Some(string_of(&candidate))
    }
}

/// Maximal runs of ASCII digits of `s` from index `i` on, each kept where
/// its value fits in a `u64`: `split(non-digit).filter(non-empty)
/// .filter_map(parse::<u64>)`.
pub open spec fn version_parts_from(s: Seq<char>, i: nat) -> Seq<u64>
    decreases s.len() - i, 1nat,
{
    if i >= s.len() {
        seq![]
    } else if !is_digit(s[i as int]) {
        version_parts_from(s, i + 1)
    } else {
        digit_run_parts(s, i, i)
    }
}

/// Continues a digit run that started at `start` and reaches `j`.
pub open spec fn digit_run_parts(s: Seq<char>, start: nat, j: nat) -> Seq<u64>
    recommends
        start <= j,
    decreases s.len() - j, 0nat,
{
    if j < s.len() && is_digit(s[j as int]) {
        digit_run_parts(s, start, j + 1)
    } else {
        let run = s.subrange(start as int, j as int);
        let rest = if j < s.len() {
            version_parts_from(s, j + 1)
        } else {
            seq![]
        };
        if digits_value(run) <= u64::MAX {
            seq![digits_value(run) as u64] + rest
        } else {
            rest
        }
    }
}

pub open spec fn version_parts_spec(s: Seq<char>) -> Seq<u64> {
    version_parts_from(s, 0)
}

pub fn version_parts(value: &str) -> (r: Vec<u64>)
    ensures
        r@ == version_parts_spec(value@),
{
    let s = chars_of(value);
    let mut out: Vec<u64> = Vec::new();
    let mut i: usize = 0;
    while i < s.len()
        invariant
            i <= s.len(),
            s@ == value@,
            version_parts_spec(value@) == out@ + version_parts_from(s@, i as nat),
        decreases s.len() - i,
    {
        if !is_ascii_digit(s[i]) {
            i = i + 1;
        } else {
            let start = i;
            let mut j = i;
            while j < s.len() && is_ascii_digit(s[j])
                invariant
                    start <= j <= s.len(),
                    start < s.len(),
                    is_digit(s@[start as int]),
                    version_parts_from(s@, start as nat) == digit_run_parts(
                        s@,
                        start as nat,
                        j as nat,
                    ),
                    forall|k: int| start <= k < j ==> is_digit(#[trigger] s@[k]),
                decreases s.len() - j,
            {
                j = j + 1;
            }
            proof {
                assert(all_digits(s@.subrange(start as int, j as int))) by {
                    assert forall|k: int| 0 <= k < j - start implies is_digit(
                        #[trigger] s@.subrange(start as int, j as int)[k],
                    ) by {
                        assert(s@.subrange(start as int, j as int)[k] == s@[start + k]);
                    }
                }
            }
            let v = digits_to_u64(&s, start, j);
            let ghost before = out@;
            match v {
                Some(n) => {
                    out.push(n);
                },
                None => {},
            }
            if j < s.len() {
                i = j + 1;
            } else {
                i = j;
            }
            proof {
                let run = s@.subrange(start as int, j as int);
                let rest = if j < s@.len() {
                    version_parts_from(s@, (j + 1) as nat)
                } else {
                    seq![]
                };
                if j >= s@.len() {
                    assert(version_parts_from(s@, i as nat) =~= Seq::<u64>::empty());
                }
                if digits_value(run) <= u64::MAX {
                    assert(out@ =~= before + seq![digits_value(run) as u64]);
                    assert(before + (seq![digits_value(run) as u64] + rest) =~= out@ + rest);
                }
            }
        }
    }
    proof {
        assert(version_parts_from(s@, i as nat) =~= Seq::<u64>::empty());
        assert(out@ + Seq::<u64>::empty() =~= out@);
    }
    out
}

/// The part at `i`, or 0 past the end.
pub open spec fn part_at(p: Seq<u64>, i: int) -> u64 {
    if 0 <= i < p.len() {
        p[i]
    } else {
        0
    }
}

/// Sign of the comparison of two zero-padded part lists from index `i` on.
pub open spec fn compare_parts_from(a: Seq<u64>, b: Seq<u64>, i: nat) -> int
    decreases (if a.len() > b.len() {
        a.len()
    } else {
        b.len()
    }) - i,
{
    if i >= a.len() && i >= b.len() {
        0
    } else if part_at(a, i as int) < part_at(b, i as int) {
        -1
    } else if part_at(a, i as int) > part_at(b, i as int) {
        1
    } else {
        compare_parts_from(a, b, i + 1)
    }
}

/// Sign of the numeric comparison of two version strings.
pub open spec fn compare_versions_spec(left: Seq<char>, right: Seq<char>) -> int {
    compare_parts_from(version_parts_spec(left), version_parts_spec(right), 0)
}

/// Sign of the comparison of two part lists, zero-padded to equal length.
pub fn compare_part_lists(a: &Vec<u64>, b: &Vec<u64>) -> (r: i8)
    ensures
        r as int == compare_parts_from(a@, b@, 0),
{
    let length = if a.len() > b.len() {
        a.len()
    } else {
        b.len()
    };
    let mut i: usize = 0;
    while i < length
        invariant
            i <= length,
            length == (if a@.len() > b@.len() {
                a@.len()
            } else {
                b@.len()
            }),
            compare_parts_from(a@, b@, 0) == compare_parts_from(a@, b@, i as nat),
        decreases length - i,
    {
        let l: u64 = if i < a.len() {
            a[i]
        } else {
            0
        };
        let r: u64 = if i < b.len() {
            b[i]
        } else {
            0
        };
        if l < r {
            return -1;
        }
        if l > r {
            return 1;
        }
        i = i + 1;
    }
    0
}

pub fn compare_versions(left: &str, right: &str) -> (r: std::cmp::Ordering)
    ensures
        (r == std::cmp::Ordering::Less) == (compare_versions_spec(left@, right@) < 0),
        (r == std::cmp::Ordering::Equal) == (compare_versions_spec(left@, right@) == 0),
        (r == std::cmp::Ordering::Greater) == (compare_versions_spec(left@, right@) > 0),
{
    let a = version_parts(left);
    let b = version_parts(right);
    let sign = compare_part_lists(&a, &b);
    if sign < 0 {
        std::cmp::Ordering::Less
    } else if sign == 0 {
        std::cmp::Ordering::Equal
    } else {
        std::cmp::Ordering::Greater
    }
}

pub fn is_version_newer(latest: &str, current: &str) -> (r: bool)
    ensures
        r == (compare_versions_spec(latest@, current@) > 0),
{
    match compare_versions(latest, current) {
        std::cmp::Ordering::Greater => true,
        _ => false,
    }
}

/// The three browsers whose cookies yt-dlp may read.
pub open spec fn is_known_browser(b: Seq<char>) -> bool {
    b == "chrome"@ || b == "safari"@ || b == "firefox"@
}

pub fn normalized_browser(browser: Option<String>) -> (r: Option<String>)
    ensures
        r == (match browser {
            Some(b) => if is_known_browser(b@) {
                Some(b)
            } else {
                None
            },
            None => None,
        }),
{
    match browser {
        Some(b) => {
            let c = chars_of(b.as_str());
            if eq_str(&c, "chrome") || eq_str(&c, "safari") || eq_str(&c, "firefox") {
                Some(b)
            } else {
                None
            }
        },
        None => None,
    }
}


// ---------------------------------------------------------------------------
// Tool paths and updates
// ---------------------------------------------------------------------------
/// Whether `s` holds a path equal to `p` as paths (`same_path`).
pub open spec fn has_path(s: Seq<Seq<char>>, p: Seq<char>) -> bool {
    exists|i: int| 0 <= i < s.len() && #[trigger] same_path(s[i], p)
}

/// The paths in their order, each kept only where no earlier path is the
/// same path (`same_path`: equal components).
pub open spec fn dedupe_spec(s: Seq<Seq<char>>) -> Seq<Seq<char>>
    decreases s.len(),
{
    if s.len() == 0 {
        seq![]
    } else {
        let d = dedupe_spec(s.drop_last());
        if has_path(d, s.last()) {
            d
        } else {
            d.push(s.last())
        }
    }
}

pub open spec fn paths_view(v: Seq<String>) -> Seq<Seq<char>> {
    v.map_values(|p: String| p@)
}

pub fn dedupe_paths(paths: Vec<String>) -> (r: Vec<String>)
    ensures
        paths_view(r@) == dedupe_spec(paths_view(paths@)),
{
    let ghost src = paths_view(paths@);
    let mut deduped: Vec<String> = Vec::new();
    let mut i: usize = 0;
    while i < paths.len()
        invariant
            i <= paths@.len(),
            src == paths_view(paths@),
            paths_view(deduped@) == dedupe_spec(src.take(i as int)),
        decreases paths@.len() - i,
    {
        assert(src.take(i + 1).drop_last() =~= src.take(i as int));
        let p = chars_of(paths[i].as_str());
        let pc = crate::ffmpeg::path_components_of(&p);
        let mut j: usize = 0;
        let mut seen = false;
        while j < deduped.len()
            invariant
                j <= deduped@.len(),
                crate::ffmpeg::pieces_view(pc@) == path_components(p@),
                seen == (exists|t: int| 0 <= t < j && #[trigger] same_path(deduped@[t]@, p@)),
            decreases deduped@.len() - j,
        {
            let q = chars_of(deduped[j].as_str());
            let qc = crate::ffmpeg::path_components_of(&q);
            if crate::ffmpeg::same_components(&qc, &pc) {
                seen = true;
                assert(same_path(deduped@[j as int]@, p@));
            }
            j = j + 1;
        }
        let ghost d = paths_view(deduped@);
        proof {
            if seen {
                let t = choose|t: int| 0 <= t < j && #[trigger] same_path(deduped@[t]@, p@);
                assert(d[t] == deduped@[t]@);
                assert(same_path(d[t], p@));
                assert(has_path(d, p@));
            } else {
                assert forall|t: int| 0 <= t < d.len() implies !#[trigger] same_path(d[t], p@) by {
                    assert(d[t] == deduped@[t]@);
                }
                assert(!has_path(d, p@));
            }
        }
        if !seen {
            deduped.push(paths[i].clone());
            assert(paths_view(deduped@) =~= d.push(p@));
        }
        i = i + 1;
    }
    assert(src.take(paths@.len() as int) =~= src);
    deduped
}

/// `PATH` directories, then the usual install directories, without repeats.
pub open spec fn candidate_dirs_spec(path_dirs: Seq<Seq<char>>) -> Seq<Seq<char>> {
    dedupe_spec(
        path_dirs + seq!["/opt/homebrew/bin"@, "/usr/local/bin"@, "/usr/bin"@, "/bin"@],
    )
}

pub fn candidate_tool_dirs(path_dirs: Vec<String>) -> (r: Vec<String>)
    ensures
        paths_view(r@) == candidate_dirs_spec(paths_view(path_dirs@)),
{
    let mut dirs = path_dirs;
    let ghost start = paths_view(dirs@);
    dirs.push(crate::text::string_from("/opt/homebrew/bin"));
    dirs.push(crate::text::string_from("/usr/local/bin"));
    dirs.push(crate::text::string_from("/usr/bin"));
    dirs.push(crate::text::string_from("/bin"));
    assert(paths_view(dirs@) =~= start + seq![
        "/opt/homebrew/bin"@,
        "/usr/local/bin"@,
        "/usr/bin"@,
        "/bin"@,
    ]);
    dedupe_paths(dirs)
}

/// Whether a chosen tool path is usable: it must name a file (`is_file`)
/// and the tool must print a non-blank version (`version`).
pub open spec fn validate_tool_path_spec(
    tool: ManagedTool,
    path: Seq<char>,
    is_file: bool,
    version: Option<Seq<char>>,
) -> Result<(), Seq<char>> {
    if !is_file {
        Err(tool.display_name_spec() + " 路径不是有效文件："@ + path)
    } else {
        match version {
            Some(v) => if trim(v).len() > 0 {
                Ok(())
            } else {
                Err(tool.display_name_spec() + " 路径不可执行或未能返回版本信息："@ + path)
            },
            None => Err(tool.display_name_spec() + " 路径不可执行或未能返回版本信息："@ + path),
        }
    }
}

pub open spec fn unit_result_view(r: Result<(), String>) -> Result<(), Seq<char>> {
    match r {
        Ok(()) => Ok(()),
        Err(e) => Err(e@),
    }
}

pub fn validate_tool_path(tool: ManagedTool, path: &str, is_file: bool, version: Option<String>) -> (r:
    Result<(), String>)
    ensures
        unit_result_view(r) == validate_tool_path_spec(tool, path@, is_file, opt_view(version)),
{
    let mut m = chars_of(tool.display_name());
    if !is_file {
        push_str(&mut m, " 路径不是有效文件：");
        push_str(&mut m, path);
        return Err(string_of(&m));
    }
    let ok = match &version {
        Some(v) => {
            let c = chars_of(v.as_str());
            trimmed(&c).len() > 0
        },
        None => false,
    };
    if ok {
        Ok(())
    } else {
        push_str(&mut m, " 路径不可执行或未能返回版本信息：");
        push_str(&mut m, path);
        Err(string_of(&m))
    }
}

/// Where the newest release of a tool is published.
pub open spec fn latest_version_url_spec(tool: ManagedTool) -> Seq<char> {
    match tool {
        ManagedTool::YtDlp => "https://api.github.com/repos/yt-dlp/yt-dlp/releases/latest"@,
        ManagedTool::Ffmpeg => "https://formulae.brew.sh/api/formula/ffmpeg.json"@,
    }
}

pub fn latest_version_url(tool: ManagedTool) -> (r: &'static str)
    ensures
        r@ == latest_version_url_spec(tool),
{
    match tool {
        ManagedTool::YtDlp => "https://api.github.com/repos/yt-dlp/yt-dlp/releases/latest",
        ManagedTool::Ffmpeg => "https://formulae.brew.sh/api/formula/ffmpeg.json",
    }
}

/// The newest version from a release document: `fetched` is the fetch
/// error, or the version text the document holds (`tag_name` for yt-dlp,
/// `versions.stable` for ffmpeg) where it holds one.
pub open spec fn latest_tool_version_spec(tool: ManagedTool, fetched: Result<Option<Seq<char>>, Seq<char>>) -> Result<
    Seq<char>,
    Seq<char>,
> {
    match fetched {
        Err(e) => Err(e),
        Ok(raw) => {
            let v = match raw {
                Some(t) => if t.len() > 0 {
                    normalized_tool_version_spec(tool, t)
                } else {
                    None
                },
                None => None,
            };
            match v {
                Some(x) => Ok(x),
                None => Err("未能解析 "@ + tool.display_name_spec() + " 最新版本。"@),
            }
        },
    }
}

pub open spec fn fetched_view(r: Result<Option<String>, String>) -> Result<Option<Seq<char>>, Seq<char>> {
    match r {
        Ok(o) => Ok(opt_view(o)),
        Err(e) => Err(e@),
    }
}

pub open spec fn string_result_view(r: Result<String, String>) -> Result<Seq<char>, Seq<char>> {
    match r {
        Ok(s) => Ok(s@),
        Err(e) => Err(e@),
    }
}

pub fn latest_tool_version(tool: ManagedTool, fetched: Result<Option<String>, String>) -> (r: Result<
    String,
    String,
>)
    ensures
        string_result_view(r) == latest_tool_version_spec(tool, fetched_view(fetched)),
{
    let raw = match fetched {
        Err(e) => return Err(e),
        Ok(raw) => raw,
    };
    let v = match raw {
        Some(t) => {
            let c = chars_of(t.as_str());
            if c.len() > 0 {
                normalized_tool_version(tool, t.as_str())
            } else {
                None
            }
        },
        None => None,
    };
    match v {
        Some(x) => Ok(x),
        None => {
            let mut m = chars_of("未能解析 ");
            push_str(&mut m, tool.display_name());
            push_str(&mut m, " 最新版本。");
            Err(string_of(&m))
        },
    }
}

/// Whether a tool is installed in its newest version.
#[derive(Debug, Clone)]
pub struct ToolUpdateStatus {
    pub name: String,
    pub current_version: Option<String>,
    pub latest_version: Option<String>,
    pub update_available: Option<bool>,
    pub checked_at: String,
    pub update_command: Option<String>,
    pub error: Option<String>,
}

/// The installed version, from the output of `tool --version`.
pub open spec fn current_version_spec(tool: ManagedTool, output: Option<Seq<char>>) -> Option<Seq<char>> {
    match output {
        Some(o) => normalized_tool_version_spec(tool, first_line_spec(o)),
        None => None,
    }
}

pub fn tool_update_status(
    tool: ManagedTool,
    version_output: Option<String>,
    latest: Result<String, String>,
    checked_at: String,
) -> (r: ToolUpdateStatus)
    ensures
        r.name@ == tool.display_name_spec(),
        opt_view(r.current_version) == current_version_spec(tool, opt_view(version_output)),
        r.checked_at == checked_at,
        opt_view(r.update_command) == Some("brew update && brew upgrade "@ + tool.display_name_spec()),
        latest is Ok ==> r.error is None && opt_view(r.latest_version) == Some(latest->Ok_0@)
            && r.update_available == (match current_version_spec(tool, opt_view(version_output)) {
                Some(c) => Some(compare_versions_spec(latest->Ok_0@, c) > 0),
                None => None,
            }),
        latest is Err ==> r.latest_version is None && r.update_available is None && opt_view(r.error)
            == Some(latest->Err_0@),
{
    let current = match version_output {
        Some(o) => {
            let line = first_line(o);
            normalized_tool_version(tool, line.as_str())
        },
        None => None,
    };
    let mut cmd = chars_of("brew update && brew upgrade ");
    push_str(&mut cmd, tool.display_name());
    let update_command = Some(string_of(&cmd));
    match latest {
        Ok(latest_version) => {
            let update_available = match &current {
                Some(c) => Some(is_version_newer(latest_version.as_str(), c.as_str())),
                None => None,
            };
            ToolUpdateStatus {
                name: crate::text::string_from(tool.display_name()),
                current_version: current,
                latest_version: Some(latest_version),
                update_available,
                checked_at,
                update_command,
                error: None,
            }
        },
        Err(error) => ToolUpdateStatus {
            name: crate::text::string_from(tool.display_name()),
            current_version: current,
            latest_version: None,
            update_available: None,
            checked_at,
            update_command,
            error: Some(error),
        },
    }
}


/// `Path::join` of a directory and a relative file name.
pub open spec fn join_path(dir: Seq<char>, name: Seq<char>) -> Seq<char> {
    if dir.len() == 0 {
        name
    } else if dir.last() == '/' {
        dir + name
    } else {
        dir + "/"@ + name
    }
}

pub fn join_path_str(dir: &str, name: &str) -> (r: String)
    ensures
        r@ == join_path(dir@, name@),
{
    let mut d = chars_of(dir);
    if d.len() > 0 && d[d.len() - 1] != '/' {
        push_str(&mut d, "/");
    }
    push_str(&mut d, name);
    string_of(&d)
}

pub open spec fn resolution_view(r: ToolResolution) -> (Seq<char>, ToolSource) {
    (r.path@, r.source)
}

/// A path separator: `/`, and on Windows also `\\`.
pub open spec fn is_separator(c: char, windows: bool) -> bool {
    c == '/' || (windows && c == '\\')
}

/// A bare Windows drive such as `C:`.
pub open spec fn is_bare_drive(dir: Seq<char>) -> bool {
    dir.len() == 2 && (is_upper(dir[0]) || is_lower(dir[0])) && dir[1] == ':'
}

/// `Path::join` of a directory and a relative file name on Unix
/// (`windows` false) or Windows: the name follows the directory after a
/// separator, which is added unless the directory is empty, ends in a
/// separator or (on Windows) is a bare drive.
pub open spec fn join_path_on(dir: Seq<char>, name: Seq<char>, windows: bool) -> Seq<char> {
    if dir.len() == 0 || is_separator(dir.last(), windows) || (windows && is_bare_drive(dir)) {
        dir + name
    } else if windows {
        dir + "\\"@ + name
    } else {
        dir + "/"@ + name
    }
}

fn join_path_on_str(dir: &str, name: &str, windows: bool) -> (r: String)
    ensures
        r@ == join_path_on(dir@, name@, windows),
{
    let mut d = chars_of(dir);
    let n = d.len();
    let bare_drive = n == 2 && (crate::text::is_ascii_uppercase(d[0]) || ('a' <= d[0] && d[0] <= 'z'))
        && d[1] == ':';
    if n == 0 || d[n - 1] == '/' || (windows && d[n - 1] == '\\') || (windows && bare_drive) {
    } else if windows {
        push_str(&mut d, "\\");
    } else {
        push_str(&mut d, "/");
    }
    push_str(&mut d, name);
    string_of(&d)
}

/// The tool's file names in each search directory, in order: `name`, and on
/// Windows then `name.exe`.
pub open spec fn dir_candidates(dirs: Seq<Seq<char>>, name: Seq<char>, windows: bool) -> Seq<
    (Seq<char>, ToolSource),
>
    decreases dirs.len(),
{
    if dirs.len() == 0 {
        seq![]
    } else {
        let d = dirs.last();
        let plain = seq![(join_path_on(d, name, windows), ToolSource::Path)];
        let exe = if windows {
            seq![(join_path_on(d, name + ".exe"@, windows), ToolSource::Path)]
        } else {
            seq![]
        };
        dir_candidates(dirs.drop_last(), name, windows) + plain + exe
    }
}

/// The places a tool is looked for, in order: the saved path where it is
/// not blank, the environment variable where it is set, then the tool's
/// file names in each search directory (`windows` says whether the system
/// is Windows). The first that names a file is the tool.
pub open spec fn tool_candidates_spec(
    settings: ToolSettings,
    name: Seq<char>,
    env_value: Option<Seq<char>>,
    dirs: Seq<Seq<char>>,
    windows: bool,
) -> Seq<(Seq<char>, ToolSource)> {
    match ManagedTool::from_name_spec(name) {
        None => seq![],
        Some(tool) => {
            let manual = match opt_view(tool.path_spec(settings)) {
                Some(p) => if trim(p).len() > 0 {
                    seq![(p, ToolSource::Manual)]
                } else {
                    seq![]
                },
                None => seq![],
            };
            let env = match env_value {
                Some(e) => if e.len() > 0 {
                    seq![(e, ToolSource::Env)]
                } else {
                    seq![]
                },
                None => seq![],
            };
            manual + env + dir_candidates(dirs, name, windows)
        },
    }
}

pub open spec fn resolutions_view(v: Seq<ToolResolution>) -> Seq<(Seq<char>, ToolSource)> {
    v.map_values(|x: ToolResolution| resolution_view(x))
}

fn push_path_candidate(out: &mut Vec<ToolResolution>, path: String)
    ensures
        resolutions_view(final(out)@) == resolutions_view(old(out)@).push((path@, ToolSource::Path)),
{
    let ghost v = path@;
    out.push(ToolResolution { path, source: ToolSource::Path });
    assert(resolutions_view(out@) =~= resolutions_view(old(out)@).push((v, ToolSource::Path)));
}

pub fn tool_candidates(
    settings: &ToolSettings,
    name: &str,
    env_value: Option<String>,
    dirs: &[String],
    windows: bool,
) -> (r: Vec<ToolResolution>)
    ensures
        resolutions_view(r@) == tool_candidates_spec(
            *settings,
            name@,
            opt_view(env_value),
            dirs@.map_values(|d: String| d@),
            windows,
        ),
{
    let mut out: Vec<ToolResolution> = Vec::new();
    let tool = match ManagedTool::from_name(name) {
        Ok(t) => t,
        Err(_) => {
            assert(resolutions_view(out@) =~= Seq::<(Seq<char>, ToolSource)>::empty());
            return out;
        },
    };
    match tool.path(settings) {
        Some(p) => {
            let c = chars_of(p);
            if trimmed(&c).len() > 0 {
                out.push(ToolResolution { path: crate::text::string_from(p), source: ToolSource::Manual });
            }
        },
        None => {},
    }
    match env_value {
        Some(e) => {
            let c = chars_of(e.as_str());
            if c.len() > 0 {
                out.push(ToolResolution { path: e, source: ToolSource::Env });
            }
        },
        None => {},
    }
    let ghost head = resolutions_view(out@);
    let ghost dv = dirs@.map_values(|d: String| d@);
    let mut exe_name = chars_of(name);
    push_str(&mut exe_name, ".exe");
    let exe = string_of(&exe_name);
    let mut i: usize = 0;
    while i < dirs.len()
        invariant
            i <= dirs@.len(),
            dv == dirs@.map_values(|d: String| d@),
            exe@ == name@ + ".exe"@,
            resolutions_view(out@) == head + dir_candidates(dv.take(i as int), name@, windows),
        decreases dirs@.len() - i,
    {
        let ghost prev = resolutions_view(out@);
        let d = dirs[i].as_str();
        assert(d@ == dv[i as int]);
        push_path_candidate(&mut out, join_path_on_str(d, name, windows));
        if windows {
            push_path_candidate(&mut out, join_path_on_str(d, exe.as_str(), windows));
        }
        let ghost t = dv.take(i + 1);
        assert(t.drop_last() =~= dv.take(i as int));
        assert(t.last() == dv[i as int]);
        assert(resolutions_view(out@) =~= head + dir_candidates(t, name@, windows));
        i = i + 1;
    }
    assert(dv.take(dirs@.len() as int) =~= dv);
    out
}

/// The directories of those paths that have one.
pub open spec fn parent_dirs(paths: Seq<Seq<char>>) -> Seq<Seq<char>>
    decreases paths.len(),
{
    if paths.len() == 0 {
        seq![]
    } else {
        let prev = parent_dirs(paths.drop_last());
        match crate::ffmpeg::parent_spec(paths.last()) {
            Some(p) => prev.push(p),
            None => prev,
        }
    }
}

/// The saved tool paths, yt-dlp's first.
pub open spec fn saved_tool_paths(settings: ToolSettings) -> Seq<Seq<char>> {
    let y = match opt_view(settings.yt_dlp_path) {
        Some(p) => seq![p],
        None => seq![],
    };
    let f = match opt_view(settings.ffmpeg_path) {
        Some(p) => seq![p],
        None => seq![],
    };
    y + f
}

/// The `PATH` a tool runs with: the directories of the saved tool paths,
/// then those of the paths set in the environment variables, then the
/// search directories, without repeats.
pub open spec fn enhanced_path_dirs_spec(
    settings: ToolSettings,
    env_paths: Seq<Seq<char>>,
    path_dirs: Seq<Seq<char>>,
) -> Seq<Seq<char>> {
    dedupe_spec(
        parent_dirs(saved_tool_paths(settings)) + parent_dirs(env_paths) + candidate_dirs_spec(
            path_dirs,
        ),
    )
}

fn push_parents(out: &mut Vec<String>, paths: &[String])
    ensures
        paths_view(final(out)@) == paths_view(old(out)@) + parent_dirs(paths_view(paths@)),
{
    let ghost start = paths_view(out@);
    let ghost src = paths_view(paths@);
    let mut i: usize = 0;
    while i < paths.len()
        invariant
            i <= paths@.len(),
            src == paths_view(paths@),
            paths_view(out@) == start + parent_dirs(src.take(i as int)),
        decreases paths@.len() - i,
    {
        proof {
            assert(src.take(i + 1).drop_last() =~= src.take(i as int));
            assert(src.take(i + 1).last() == paths@[i as int]@);
        }
        let c = chars_of(paths[i].as_str());
        match crate::ffmpeg::parent_of(&c) {
            Some(p) => {
                let ghost before = paths_view(out@);
                out.push(string_of(&p));
                assert(paths_view(out@) =~= before.push(p@));
                assert(start + parent_dirs(src.take(i + 1)) =~= before.push(p@));
            },
            None => {},
        }
        i = i + 1;
    }
    assert(src.take(paths@.len() as int) =~= src);
}

pub fn enhanced_path_dirs(settings: &ToolSettings, env_paths: &[String], path_dirs: Vec<String>) -> (r:
    Vec<String>)
    ensures
        paths_view(r@) == enhanced_path_dirs_spec(*settings, paths_view(env_paths@), paths_view(path_dirs@)),
{
    let mut saved: Vec<String> = Vec::new();
    match &settings.yt_dlp_path {
        Some(p) => saved.push(p.clone()),
        None => {},
    }
    match &settings.ffmpeg_path {
        Some(p) => saved.push(p.clone()),
        None => {},
    }
    assert(paths_view(saved@) =~= saved_tool_paths(*settings));
    let mut dirs: Vec<String> = Vec::new();
    push_parents(&mut dirs, saved.as_slice());
    push_parents(&mut dirs, env_paths);
    let search = candidate_tool_dirs(path_dirs);
    let ghost before = paths_view(dirs@);
    let mut i: usize = 0;
    while i < search.len()
        invariant
            i <= search@.len(),
            paths_view(dirs@) == before + paths_view(search@).take(i as int),
        decreases search@.len() - i,
    {
        let ghost prev = paths_view(dirs@);
        dirs.push(search[i].clone());
        assert(paths_view(dirs@) =~= prev.push(search@[i as int]@));
        assert(paths_view(search@).take(i + 1) =~= paths_view(search@).take(i as int).push(
            search@[i as int]@,
        ));
        i = i + 1;
    }
    assert(paths_view(search@).take(search@.len() as int) =~= paths_view(search@));
    dedupe_paths(dirs)
}

} // verus!
