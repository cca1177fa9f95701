//! FFmpeg command drafts: the presets, their argument lists, the output file
//! name, and shell quoting of the finished command.
use vstd::prelude::*;
use crate::text::{
    chars_of, contains_char, decimal, eq_str, find_ch, has_char, is_alnum, is_ascii_alphanumeric,
    is_digit, lower, part, push_all, push_str, rfind, rfind_seq, split_char, split_on,
    string_from, string_of, to_lower, trim, trimmed, u64_to_chars,
};
use crate::tools::{join_path, opt_view, opt_str_view};

verus! {

/// What the user asked a command draft for.
#[derive(Debug, Clone)]
pub struct FfmpegCommandRequest {
    pub preset_id: String,
    pub input_path: String,
    pub secondary_input_path: Option<String>,
    pub output_dir: String,
    pub audio_format: Option<String>,
    pub start_time: Option<String>,
    pub end_time: Option<String>,
    pub crf: Option<u8>,
}

pub open spec fn unsupported_preset_message(id: Seq<char>) -> Seq<char> {
    "不支持的 FFmpeg 预设："@ + id
}

/// The word a preset adds to the output file name.
pub open spec fn preset_suffix_spec(id: Seq<char>) -> Result<Seq<char>, Seq<char>> {
    if id == "convertMp4"@ {
        Ok("converted"@)
    } else if id == "compress"@ {
        Ok("compressed"@)
    } else if id == "extractAudio"@ {
        Ok("audio"@)
    } else if id == "trim"@ {
        Ok("clip"@)
    } else if id == "mergeAudioVideo"@ {
        Ok("merged"@)
    } else {
        Err(unsupported_preset_message(id))
    }
}

pub open spec fn str_result_view(r: Result<&'static str, String>) -> Result<Seq<char>, Seq<char>> {
    match r {
        Ok(s) => Ok(s@),
        Err(e) => Err(e@),
    }
}

pub open spec fn string_result_view(r: Result<String, String>) -> Result<Seq<char>, Seq<char>> {
    match r {
        Ok(s) => Ok(s@),
        Err(e) => Err(e@),
    }
}

fn preset_error(id: &[char]) -> (r: String)
    ensures
        r@ == unsupported_preset_message(id@),
{
    let mut m = chars_of("不支持的 FFmpeg 预设：");
    push_all(&mut m, id);
    string_of(&m)
}

pub fn ffmpeg_preset_suffix(preset_id: &str) -> (r: Result<&'static str, String>)
    ensures
        str_result_view(r) == preset_suffix_spec(preset_id@),
{
    let id = chars_of(preset_id);
    if eq_str(&id, "convertMp4") {
        Ok("converted")
    } else if eq_str(&id, "compress") {
        Ok("compressed")
    } else if eq_str(&id, "extractAudio") {
        Ok("audio")
    } else if eq_str(&id, "trim") {
        Ok("clip")
    } else if eq_str(&id, "mergeAudioVideo") {
        Ok("merged")
    } else {
        Err(preset_error(&id))
    }
}

/// The audio format of an extraction: `mp3` (the default) or `m4a`, in any
/// case and with blanks around it.
pub open spec fn audio_format_spec(value: Option<Seq<char>>) -> Result<Seq<char>, Seq<char>> {
    let v = lower(
        trim(
            match value {
                Some(v) => v,
                None => "mp3"@,
            },
        ),
    );
    if v == "mp3"@ {
        Ok("mp3"@)
    } else if v == "m4a"@ {
        Ok("m4a"@)
    } else {
        Err("不支持的音频格式："@ + v)
    }
}

pub fn normalized_audio_format(value: Option<&str>) -> (r: Result<&'static str, String>)
    ensures
        str_result_view(r) == audio_format_spec(opt_str_view(value)),
{
    let raw = match value {
        Some(v) => chars_of(v),
        None => chars_of("mp3"),
    };
    let t = trimmed(&raw);
    let v = to_lower(&t);
    if eq_str(&v, "mp3") {
        Ok("mp3")
    } else if eq_str(&v, "m4a") {
        Ok("m4a")
    } else {
        let mut m = chars_of("不支持的音频格式：");
        push_all(&mut m, &v);
        Err(string_of(&m))
    }
}

/// A time given by the user, trimmed, where it is not blank.
pub open spec fn time_spec(value: Option<Seq<char>>) -> Option<Seq<char>> {
    match value {
        Some(v) => if trim(v).len() > 0 {
            Some(trim(v))
        } else {
            None
        },
        None => None,
    }
}

pub fn normalized_time(value: Option<&str>) -> (r: Option<String>)
    ensures
        opt_view(r) == time_spec(opt_str_view(value)),
{
    match value {
        Some(v) => {
            let c = chars_of(v);
            let t = trimmed(&c);
            if t.len() > 0 {
                Some(string_of(&t))
            } else {
                None
            }
        },
        None => None,
    }
}

/// Digits, colons and dots only, and at most 24 of them.
pub open spec fn is_time_text(value: Seq<char>) -> bool {
    (forall|i: int| 0 <= i < value.len() ==> is_digit(#[trigger] value[i]) || value[i] == ':'
        || value[i] == '.') && value.len() <= 24
}

pub open spec fn time_error(label: Seq<char>) -> Seq<char> {
    label + "只能包含数字、冒号和小数点。"@
}

pub fn validate_time_value(label: &str, value: &str) -> (r: Result<(), String>)
    ensures
        r is Ok <==> is_time_text(value@),
        r matches Err(e) ==> e@ == time_error(label@),
{
    let v = chars_of(value);
    let mut i: usize = 0;
    let mut valid = true;
    while i < v.len()
        invariant
            i <= v@.len(),
            valid == (forall|k: int| 0 <= k < i ==> is_digit(#[trigger] v@[k]) || v@[k] == ':'
                || v@[k] == '.'),
        decreases v@.len() - i,
    {
        let c = v[i];
        if !(('0' <= c && c <= '9') || c == ':' || c == '.') {
            valid = false;
        }
        i = i + 1;
    }
    if valid && v.len() <= 24 {
        Ok(())
    } else {
        let mut m = chars_of(label);
        push_str(&mut m, "只能包含数字、冒号和小数点。");
        Err(string_of(&m))
    }
}

/// A character that needs no quoting in a POSIX shell word.
pub open spec fn is_shell_safe(c: char) -> bool {
    is_alnum(c) || c == '_' || c == '.' || c == '/' || c == ':' || c == '+' || c == '=' || c == '@'
        || c == '%' || c == '-'
}

/// `value.replace('\'', "'\\''")`.
pub open spec fn escape_quotes(value: Seq<char>) -> Seq<char>
    decreases value.len(),
{
    if value.len() == 0 {
        seq![]
    } else {
        let head = if value[0] == '\'' {
            "'\\''"@
        } else {
            seq![value[0]]
        };
        head + escape_quotes(value.drop_first())
    }
}

/// A word as a POSIX shell reads it back: unchanged where every character
/// is safe, else in single quotes.
pub open spec fn shell_quote_spec(value: Seq<char>) -> Seq<char> {
    if value.len() > 0 && forall|i: int| 0 <= i < value.len() ==> is_shell_safe(#[trigger] value[i]) {
        value
    } else {
        "'"@ + escape_quotes(value) + "'"@
    }
}

fn is_safe_char(c: char) -> (r: bool)
    ensures
        r == is_shell_safe(c),
{
    is_ascii_alphanumeric(c) || c == '_' || c == '.' || c == '/' || c == ':' || c == '+' || c
        == '=' || c == '@' || c == '%' || c == '-'
}

pub fn shell_quote_chars(v: &[char]) -> (r: Vec<char>)
    ensures
        r@ == shell_quote_spec(v@),
{
    let mut i: usize = 0;
    let mut safe = true;
    while i < v.len()
        invariant
            i <= v@.len(),
            safe == (forall|k: int| 0 <= k < i ==> is_shell_safe(#[trigger] v@[k])),
        decreases v@.len() - i,
    {
        if !is_safe_char(v[i]) {
            safe = false;
        }
        i = i + 1;
    }
    if v.len() > 0 && safe {
        return part(v, 0, v.len());
    }
    let mut out = chars_of("'");
    let ghost start = out@;
    let mut j: usize = 0;
    assert(v@.skip(0) =~= v@);
    while j < v.len()
        invariant
            j <= v@.len(),
            out@ + escape_quotes(v@.skip(j as int)) == start + escape_quotes(v@),
        decreases v@.len() - j,
    {
        let ghost before = out@;
        assert(v@.skip(j as int).drop_first() =~= v@.skip(j + 1));
        if v[j] == '\'' {
            push_str(&mut out, "'\\''");
        } else {
            out.push(v[j]);
            assert(out@ =~= before + seq![v@[j as int]]);
        }
        assert(before + escape_quotes(v@.skip(j as int)) =~= out@ + escape_quotes(v@.skip(j + 1)));
        j = j + 1;
    }
    assert(escape_quotes(v@.skip(j as int)) =~= Seq::<char>::empty());
    assert(out@ =~= start + escape_quotes(v@));
    push_str(&mut out, "'");
    out
}

pub fn shell_quote(value: &str) -> (r: String)
    ensures
        r@ == shell_quote_spec(value@),
{
    let v = chars_of(value);
    let q = shell_quote_chars(&v);
    string_of(&q)
}

/// Words joined by single spaces.
pub open spec fn join_space(words: Seq<Seq<char>>) -> Seq<char>
    decreases words.len(),
{
    if words.len() == 0 {
        seq![]
    } else if words.len() == 1 {
        words[0]
    } else {
        join_space(words.drop_last()) + " "@ + words.last()
    }
}

pub open spec fn strings_view(v: Seq<String>) -> Seq<Seq<char>> {
    v.map_values(|s: String| s@)
}

/// The command line of an argument list, each argument shell-quoted.
pub open spec fn command_line_spec(args: Seq<Seq<char>>) -> Seq<char> {
    join_space(args.map_values(|a: Seq<char>| shell_quote_spec(a)))
}

pub fn shell_command_line(args: &Vec<String>) -> (r: String)
    ensures
        r@ == command_line_spec(strings_view(args@)),
{
    let ghost q = strings_view(args@).map_values(|a: Seq<char>| shell_quote_spec(a));
    let mut out: Vec<char> = Vec::new();
    let mut i: usize = 0;
    while i < args.len()
        invariant
            i <= args@.len(),
            q == strings_view(args@).map_values(|a: Seq<char>| shell_quote_spec(a)),
            out@ == join_space(q.take(i as int)),
        decreases args@.len() - i,
    {
        assert(q.take(i + 1).drop_last() =~= q.take(i as int));
        let a = chars_of(args[i].as_str());
        let w = shell_quote_chars(&a);
        if i > 0 {
            push_str(&mut out, " ");
        } else {
            assert(out@ =~= Seq::<char>::empty());
        }
        push_all(&mut out, &w);
        proof {
            if i == 0 {
                assert(q.take(1) =~= seq![q[0]]);
                assert(out@ =~= q[0]);
            }
        }
        i = i + 1;
    }
    assert(q.take(args@.len() as int) =~= q);
    string_of(&out)
}

// ---------------------------------------------------------------------------
// Paths
// ---------------------------------------------------------------------------
/// The last piece among `ps[..n]` that is neither empty nor `.`, unless it
/// is `..`: `Path::file_name` of a `/`-separated path.
pub open spec fn last_name(ps: Seq<Seq<char>>, n: nat) -> Option<Seq<char>>
    decreases n,
{
    if n == 0 || n > ps.len() {
        None
    } else {
        let p = ps[n - 1];
        if p.len() == 0 || p == "."@ {
            last_name(ps, (n - 1) as nat)
        } else if p == ".."@ {
            None
        } else {
            Some(p)
        }
    }
}

pub open spec fn file_name_spec(path: Seq<char>) -> Option<Seq<char>> {
    let ps = split_on(path, '/');
    last_name(ps, ps.len())
}

/// `Path::file_stem`: the name before its last dot, unless that dot starts
/// the name.
pub open spec fn file_stem_spec(path: Seq<char>) -> Option<Seq<char>> {
    match file_name_spec(path) {
        Some(name) => match rfind(name, "."@) {
            Some(k) => if k > 0 {
                Some(name.take(k as int))
            } else {
                Some(name)
            },
            None => Some(name),
        },
        None => None,
    }
}

/// `Path::extension`: the name after its last dot, unless that dot starts
/// the name.
pub open spec fn extension_spec(path: Seq<char>) -> Option<Seq<char>> {
    match file_name_spec(path) {
        Some(name) => match rfind(name, "."@) {
            Some(k) => if k > 0 {
                Some(name.skip((k + 1) as int))
            } else {
                None
            },
            None => None,
        },
        None => None,
    }
}

pub fn file_name_of(path: &[char]) -> (r: Option<Vec<char>>)
    ensures
        r matches Some(n) ==> file_name_spec(path@) == Some(n@),
        r is None ==> file_name_spec(path@) is None,
{
    let ps = split_char(path, '/');
    let ghost sp = split_on(path@, '/');
    let mut n: usize = ps.len();
    while n > 0
        invariant
            n <= ps@.len() == sp.len(),
            forall|t: int| 0 <= t < ps@.len() ==> #[trigger] ps@[t]@ == sp[t],
            file_name_spec(path@) == last_name(sp, n as nat),
        decreases n,
    {
        let p = &ps[n - 1];
        assert(p@ == sp[n - 1]);
        if p.len() == 0 || eq_str(p, ".") {
            n = n - 1;
        } else if eq_str(p, "..") {
            return None;
        } else {
            return Some(part(p, 0, p.len()));
        }
    }
    None
}

fn last_dot(name: &[char]) -> (r: Option<usize>)
    ensures
        r matches Some(k) ==> rfind(name@, "."@) == Some(k as nat) && k < name@.len(),
        r is None ==> rfind(name@, "."@) is None,
{
    let d = chars_of(".");
    proof {
        crate::text::lemma_rfind(name@, "."@);
    }
    let r = rfind_seq(name, &d);
    proof {
        if let Some(k) = r {
            assert(d@.len() == 1) by {
                reveal_strlit(".");
            }
        }
    }
    r
}

pub fn file_stem_of(path: &[char]) -> (r: Option<Vec<char>>)
    ensures
        r matches Some(n) ==> file_stem_spec(path@) == Some(n@),
        r is None ==> file_stem_spec(path@) is None,
{
    let name = match file_name_of(path) {
        Some(n) => n,
        None => return None,
    };
    match last_dot(&name) {
        Some(k) => {
            if k > 0 {
                let s = part(&name, 0, k);
                assert(s@ =~= name@.take(k as int));
                Some(s)
            } else {
                Some(name)
            }
        },
        None => Some(name),
    }
}

pub fn extension_of(path: &[char]) -> (r: Option<Vec<char>>)
    ensures
        r matches Some(n) ==> extension_spec(path@) == Some(n@),
        r is None ==> extension_spec(path@) is None,
{
    let name = match file_name_of(path) {
        Some(n) => n,
        None => return None,
    };
    match last_dot(&name) {
        Some(k) => {
            if k > 0 && k < name.len() {
                let s = part(&name, k + 1, name.len());
                assert(s@ =~= name@.skip((k + 1) as int));
                Some(s)
            } else {
                None
            }
        },
        None => None,
    }
}

/// Whether piece `i` of a `/`-separated path is one of its components: a
/// piece that is neither empty nor `.`, or a `.` that starts the path.
pub open spec fn is_component(ps: Seq<Seq<char>>, i: int) -> bool {
    (ps[i].len() > 0 && ps[i] != "."@) || (i == 0 && ps[i] == "."@)
}

/// The index of the last component among `ps[..n]`.
pub open spec fn last_component(ps: Seq<Seq<char>>, n: nat) -> Option<nat>
    decreases n,
{
    if n == 0 || n > ps.len() {
        None
    } else if is_component(ps, n - 1) {
        Some((n - 1) as nat)
    } else {
        last_component(ps, (n - 1) as nat)
    }
}

/// Pieces joined by `/`.
pub open spec fn join_slash(ps: Seq<Seq<char>>) -> Seq<char>
    decreases ps.len(),
{
    if ps.len() == 0 {
        seq![]
    } else if ps.len() == 1 {
        ps[0]
    } else {
        join_slash(ps.drop_last()) + "/"@ + ps.last()
    }
}

/// `Path::parent` of a `/`-separated path: the path up to its component
/// before the last one; `/` or the empty path where the last component is
/// the first; none where the path has no component after its root.
pub open spec fn parent_spec(path: Seq<char>) -> Option<Seq<char>> {
    let ps = split_on(path, '/');
    match last_component(ps, ps.len()) {
        None => None,
        Some(j) => match last_component(ps, j) {
            Some(k) => Some(join_slash(ps.take((k + 1) as int))),
            None => if path.len() > 0 && path[0] == '/' {
                Some("/"@)
            } else {
                Some(seq![])
            },
        },
    }
}

fn last_component_of(ps: &Vec<Vec<char>>, n: usize, Ghost(sp): Ghost<Seq<Seq<char>>>) -> (r: Option<usize>)
    requires
        n <= ps@.len() == sp.len(),
        forall|t: int| 0 <= t < ps@.len() ==> #[trigger] ps@[t]@ == sp[t],
    ensures
        r matches Some(j) ==> last_component(sp, n as nat) == Some(j as nat) && j < n,
        r is None ==> last_component(sp, n as nat) is None,
{
    let mut m: usize = n;
    while m > 0
        invariant
            m <= n <= ps@.len() == sp.len(),
            forall|t: int| 0 <= t < ps@.len() ==> #[trigger] ps@[t]@ == sp[t],
            last_component(sp, n as nat) == last_component(sp, m as nat),
        decreases m,
    {
        let p = &ps[m - 1];
        assert(p@ == sp[m - 1]);
        if (p.len() > 0 && !eq_str(p, ".")) || (m == 1 && eq_str(p, ".")) {
            return Some(m - 1);
        }
        m = m - 1;
    }
    None
}

pub fn parent_of(path: &[char]) -> (r: Option<Vec<char>>)
    ensures
        r matches Some(p) ==> parent_spec(path@) == Some(p@),
        r is None ==> parent_spec(path@) is None,
{
    let ps = split_char(path, '/');
    let ghost sp = split_on(path@, '/');
    let j = match last_component_of(&ps, ps.len(), Ghost(sp)) {
        Some(j) => j,
        None => return None,
    };
    match last_component_of(&ps, j, Ghost(sp)) {
        Some(k) => {
            let mut out: Vec<char> = Vec::new();
            let mut i: usize = 0;
            let total = ps.len();
            while i <= k
                invariant
                    k < total == ps@.len() == sp.len(),
                    i <= k + 1,
                    forall|t: int| 0 <= t < ps@.len() ==> #[trigger] ps@[t]@ == sp[t],
                    out@ == join_slash(sp.take(i as int)),
                decreases k + 1 - i,
            {
                let ghost before = out@;
                if i > 0 {
                    push_str(&mut out, "/");
                }
                push_all(&mut out, &ps[i]);
                proof {
                    let t = sp.take(i + 1);
                    assert(t.drop_last() =~= sp.take(i as int));
                    assert(t.last() == sp[i as int]);
                    if i == 0 {
                        assert(out@ =~= sp[0]);
                    }
                }
                i = i + 1;
            }
            Some(out)
        },
        None => {
            if path.len() > 0 && path[0] == '/' {
                Some(chars_of("/"))
            } else {
                Some(Vec::new())
            }
        },
    }
}

/// The components among the first `n` pieces of a `/`-separated path.
pub open spec fn components_from(ps: Seq<Seq<char>>, n: nat) -> Seq<Seq<char>>
    decreases n,
{
    if n == 0 || n > ps.len() {
        seq![]
    } else {
        let prev = components_from(ps, (n - 1) as nat);
        if is_component(ps, n - 1) {
            prev.push(ps[n - 1])
        } else {
            prev
        }
    }
}

/// `Path::components` of a `/`-separated path: `/` for the root where the
/// path starts with one, then its pieces that are neither empty nor `.`,
/// with a `.` kept only where it starts a relative path. No other component
/// is `/`, so the root stays apart from the rest.
pub open spec fn path_components(path: Seq<char>) -> Seq<Seq<char>> {
    let ps = split_on(path, '/');
    let root: Seq<Seq<char>> = if path.len() > 0 && path[0] == '/' {
        seq!["/"@]
    } else {
        seq![]
    };
    root + components_from(ps, ps.len())
}

/// Whether two paths are equal as `Path`s are: by their components, so that
/// repeated separators, a trailing separator and `.` pieces inside make no
/// difference.
pub open spec fn same_path(a: Seq<char>, b: Seq<char>) -> bool {
    path_components(a) == path_components(b)
}

pub open spec fn pieces_view(v: Seq<Vec<char>>) -> Seq<Seq<char>> {
    v.map_values(|p: Vec<char>| p@)
}

pub fn path_components_of(path: &[char]) -> (r: Vec<Vec<char>>)
    ensures
        pieces_view(r@) == path_components(path@),
{
    let ps = split_char(path, '/');
    let ghost sp = split_on(path@, '/');
    let mut out: Vec<Vec<char>> = Vec::new();
    if path.len() > 0 && path[0] == '/' {
        out.push(chars_of("/"));
    }
    let ghost root = pieces_view(out@);
    assert(root =~= (if path@.len() > 0 && path@[0] == '/' {
        seq!["/"@]
    } else {
        Seq::<Seq<char>>::empty()
    }));
    let mut i: usize = 0;
    while i < ps.len()
        invariant
            i <= ps@.len() == sp.len(),
            forall|t: int| 0 <= t < ps@.len() ==> #[trigger] ps@[t]@ == sp[t],
            pieces_view(out@) == root + components_from(sp, i as nat),
        decreases ps@.len() - i,
    {
        let p = &ps[i];
        assert(p@ == sp[i as int]);
        let ghost before = pieces_view(out@);
        if (p.len() > 0 && !eq_str(p, ".")) || (i == 0 && eq_str(p, ".")) {
            let q = part(p, 0, p.len());
            assert(q@ =~= p@);
            out.push(q);
            assert(pieces_view(out@) =~= before.push(sp[i as int]));
        }
        i = i + 1;
    }
    out
}

/// Whether two component lists are equal.
pub fn same_components(a: &Vec<Vec<char>>, b: &Vec<Vec<char>>) -> (r: bool)
    ensures
        r == (pieces_view(a@) == pieces_view(b@)),
{
    if a.len() != b.len() {
        assert(pieces_view(a@).len() != pieces_view(b@).len());
        return false;
    }
    let mut i: usize = 0;
    while i < a.len()
        invariant
            i <= a@.len() == b@.len(),
            forall|t: int| 0 <= t < i ==> (#[trigger] a@[t])@ == b@[t]@,
        decreases a@.len() - i,
    {
        if !crate::text::seq_eq(&a[i], &b[i]) {
            assert(pieces_view(a@)[i as int] != pieces_view(b@)[i as int]);
            return false;
        }
        i = i + 1;
    }
    assert(pieces_view(a@) =~= pieces_view(b@));
    true
}

/// The ffprobe executable next to ffmpeg: `executable_name` in ffmpeg's
/// directory, where ffmpeg's path has one.
pub open spec fn ffprobe_candidate_spec(ffmpeg_path: Seq<char>, executable_name: Seq<char>) -> Option<
    Seq<char>,
> {
    match parent_spec(ffmpeg_path) {
        Some(dir) => Some(join_path(dir, executable_name)),
        None => None,
    }
}

pub fn ffprobe_candidate(ffmpeg_path: &str, executable_name: &str) -> (r: Option<String>)
    ensures
        opt_view(r) == ffprobe_candidate_spec(ffmpeg_path@, executable_name@),
{
    let p = chars_of(ffmpeg_path);
    match parent_of(&p) {
        Some(dir) => {
            let d = string_of(&dir);
            Some(crate::tools::join_path_str(d.as_str(), executable_name))
        },
        None => None,
    }
}

/// The ffprobe to run: the one next to ffmpeg where `candidate_is_file`
/// says it exists, else `executable_name` looked up on `PATH`.
pub fn ffprobe_path_from_ffmpeg(ffmpeg_path: &str, executable_name: &str, candidate_is_file: bool) -> (r:
    String)
    ensures
        r@ == (match ffprobe_candidate_spec(ffmpeg_path@, executable_name@) {
            Some(c) => if candidate_is_file {
                c
            } else {
                executable_name@
            },
            None => executable_name@,
        }),
{
    match ffprobe_candidate(ffmpeg_path, executable_name) {
        Some(c) => if candidate_is_file {
            c
        } else {
            string_from(executable_name)
        },
        None => string_from(executable_name),
    }
}

/// The directory an FFmpeg command runs in and writes to: the chosen output
/// directory, trimmed, or else the input file's directory, or `.`.
pub open spec fn working_dir_spec(output_dir: Seq<char>, input_path: Seq<char>) -> Seq<char> {
    if trim(output_dir).len() == 0 {
        match parent_spec(input_path) {
            Some(p) => p,
            None => "."@,
        }
    } else {
        trim(output_dir)
    }
}

pub fn ffmpeg_working_dir(output_dir: &str, input_path: &str) -> (r: String)
    ensures
        r@ == working_dir_spec(output_dir@, input_path@),
{
    let o = chars_of(output_dir);
    let t = trimmed(&o);
    if t.len() == 0 {
        let p = chars_of(input_path);
        match parent_of(&p) {
            Some(d) => string_of(&d),
            None => string_from("."),
        }
    } else {
        string_of(&t)
    }
}

/// The working directory of an FFmpeg command, which must exist:
/// `working_dir_is_dir` says whether `ffmpeg_working_dir` names a directory.
pub fn resolve_ffmpeg_working_dir(output_dir: &str, input_path: &str, working_dir_is_dir: bool) -> (r:
    Result<String, String>)
    ensures
        string_result_view(r) == (if working_dir_is_dir {
            Ok::<Seq<char>, Seq<char>>(working_dir_spec(output_dir@, input_path@))
        } else {
            Err("输出目录不存在："@ + working_dir_spec(output_dir@, input_path@))
        }),
{
    let dir = ffmpeg_working_dir(output_dir, input_path);
    if working_dir_is_dir {
        Ok(dir)
    } else {
        let mut m = chars_of("输出目录不存在：");
        push_str(&mut m, dir.as_str());
        Err(string_of(&m))
    }
}

/// The extension of a preset's output file.
pub open spec fn output_extension_spec(input_path: Seq<char>, preset: Seq<char>, audio: Option<
    Seq<char>,
>) -> Result<Seq<char>, Seq<char>> {
    if preset == "convertMp4"@ || preset == "compress"@ || preset == "mergeAudioVideo"@ {
        Ok("mp4"@)
    } else if preset == "extractAudio"@ {
        audio_format_spec(audio)
    } else if preset == "trim"@ {
        Ok(
            lower(
                match extension_spec(input_path) {
                    Some(e) => if trim(e).len() > 0 {
                        e
                    } else {
                        "mp4"@
                    },
                    None => "mp4"@,
                },
            ),
        )
    } else {
        Err(unsupported_preset_message(preset))
    }
}

pub open spec fn request_audio(r: FfmpegCommandRequest) -> Option<Seq<char>> {
    opt_view(r.audio_format)
}

pub fn ffmpeg_output_extension(input_path: &str, request: &FfmpegCommandRequest) -> (r: Result<
    String,
    String,
>)
    ensures
        string_result_view(r) == output_extension_spec(
            input_path@,
            request.preset_id@,
            request_audio(*request),
        ),
{
    let id = chars_of(request.preset_id.as_str());
    if eq_str(&id, "convertMp4") || eq_str(&id, "compress") || eq_str(&id, "mergeAudioVideo") {
        return Ok(string_from("mp4"));
    }
    if eq_str(&id, "extractAudio") {
        let audio = match &request.audio_format {
            Some(a) => Some(a.as_str()),
            None => None,
        };
        return match normalized_audio_format(audio) {
            Ok(f) => Ok(string_from(f)),
            Err(e) => Err(e),
        };
    }
    if eq_str(&id, "trim") {
        let p = chars_of(input_path);
        let e = match extension_of(&p) {
            Some(e) => if trimmed(&e).len() > 0 {
                e
            } else {
                chars_of("mp4")
            },
            None => chars_of("mp4"),
        };
        let l = to_lower(&e);
        return Ok(string_of(&l));
    }
    Err(preset_error(&id))
}

/// The stem of the output file: the input's stem where it is not blank.
pub open spec fn output_stem_spec(input_path: Seq<char>) -> Seq<char> {
    match file_stem_spec(input_path) {
        Some(s) => if trim(s).len() > 0 {
            s
        } else {
            "video"@
        },
        None => "video"@,
    }
}

/// The `index`-th candidate name of a preset's output file:
/// `stem-suffix.ext`, then `stem-suffix-2.ext` and so on.
pub open spec fn output_file_name_spec(
    input_path: Seq<char>,
    preset: Seq<char>,
    audio: Option<Seq<char>>,
    index: u64,
) -> Result<Seq<char>, Seq<char>> {
    match preset_suffix_spec(preset) {
        Err(e) => Err(e),
        Ok(suffix) => match output_extension_spec(input_path, preset, audio) {
            Err(e) => Err(e),
            Ok(ext) => {
                let stem = output_stem_spec(input_path);
                if index == 1 {
                    Ok(stem + "-"@ + suffix + "."@ + ext)
                } else {
                    Ok(stem + "-"@ + suffix + "-"@ + decimal(index as nat) + "."@ + ext)
                }
            },
        },
    }
}

pub fn ffmpeg_output_file_name(input_path: &str, request: &FfmpegCommandRequest, index: u64) -> (r:
    Result<String, String>)
    ensures
        string_result_view(r) == output_file_name_spec(
            input_path@,
            request.preset_id@,
            request_audio(*request),
            index,
        ),
{
    let p = chars_of(input_path);
    let stem = match file_stem_of(&p) {
        Some(s) => if trimmed(&s).len() > 0 {
            s
        } else {
            chars_of("video")
        },
        None => chars_of("video"),
    };
    let suffix = match ffmpeg_preset_suffix(request.preset_id.as_str()) {
        Ok(s) => s,
        Err(e) => return Err(e),
    };
    let ext = match ffmpeg_output_extension(input_path, request) {
        Ok(e) => e,
        Err(e) => return Err(e),
    };
    let mut out = stem;
    push_str(&mut out, "-");
    push_str(&mut out, suffix);
    if index != 1 {
        push_str(&mut out, "-");
        let d = u64_to_chars(index);
        push_all(&mut out, &d);
    }
    push_str(&mut out, ".");
    push_str(&mut out, ext.as_str());
    Ok(string_of(&out))
}

/// The candidate output path with the given index inside `working_dir`.
pub open spec fn candidate_path(working_dir: Seq<char>, input_path: Seq<char>, preset: Seq<char>, audio: Option<
    Seq<char>,
>, index: u64) -> Seq<char> {
    match output_file_name_spec(input_path, preset, audio, index) {
        Ok(name) => join_path(working_dir, name),
        Err(e) => e,
    }
}

/// Whether `is_taken` reported the path `path` as taken (`taken`) or free.
pub open spec fn reported<F: Fn(&str) -> bool>(is_taken: F, path: Seq<char>, taken: bool) -> bool {
    exists|q: &str| q@ == path && #[trigger] call_ensures(is_taken, (q,), taken)
}

/// The first candidate output path that is not taken, trying the indices 1
/// to 9999 in turn; `is_taken` says whether a path is taken.
pub fn unique_ffmpeg_output_path<F: Fn(&str) -> bool>(
    working_dir: &str,
    input_path: &str,
    request: &FfmpegCommandRequest,
    is_taken: F,
) -> (r: Result<String, String>)
    requires
        forall|q: &str| call_requires(is_taken, (q,)),
    ensures
        output_file_name_spec(input_path@, request.preset_id@, request_audio(*request), 1) matches Err(
            e,
        ) ==> string_result_view(r) == Err::<Seq<char>, Seq<char>>(e),
        r matches Ok(p) ==> exists|i: u64|
            1 <= i < 10000 && p@ == candidate_path(
                working_dir@,
                input_path@,
                request.preset_id@,
                request_audio(*request),
                i,
            ) && reported(is_taken, p@, false) && forall|j: u64|
                1 <= j < i ==> #[trigger] reported(
                    is_taken,
                    candidate_path(
                        working_dir@,
                        input_path@,
                        request.preset_id@,
                        request_audio(*request),
                        j,
                    ),
                    true,
                ),
        (r is Err && output_file_name_spec(input_path@, request.preset_id@, request_audio(*request), 1)
            is Ok) ==> (r matches Err(e) && e@ == "无法生成未被占用的输出文件名。"@ && forall|j: u64|
            1 <= j < 10000 ==> #[trigger] reported(
                is_taken,
                candidate_path(working_dir@, input_path@, request.preset_id@, request_audio(*request), j),
                true,
            )),
{
    let ghost audio = request_audio(*request);
    let ghost preset = request.preset_id@;
    let first = ffmpeg_output_file_name(input_path, request, 1);
    if let Err(e) = first {
        return Err(e);
    }
    let mut index: u64 = 1;
    while index < 10000
        invariant
            1 <= index <= 10000,
            forall|q: &str| call_requires(is_taken, (q,)),
            audio == request_audio(*request),
            preset == request.preset_id@,
            output_file_name_spec(input_path@, preset, audio, 1) is Ok,
            forall|j: u64|
                1 <= j < index ==> #[trigger] reported(
                    is_taken,
                    candidate_path(working_dir@, input_path@, preset, audio, j),
                    true,
                ),
        decreases 10000 - index,
    {
        let name = match ffmpeg_output_file_name(input_path, request, index) {
            Ok(n) => n,
            Err(e) => {
                assert(false);
                return Err(e);
            },
        };
        let candidate = crate::tools::join_path_str(working_dir, name.as_str());
        let q: &str = candidate.as_str();
        let taken = is_taken(q);
        assert(candidate@ == candidate_path(working_dir@, input_path@, preset, audio, index));
        if !taken {
            assert(reported(is_taken, candidate@, false));
            return Ok(candidate);
        }
        assert(reported(is_taken, candidate@, true));
        index = index + 1;
    }
    Err(string_from("无法生成未被占用的输出文件名。"))
}

/// A media file given by the user, trimmed; `is_file` says whether the
/// trimmed path names an existing file.
pub open spec fn media_file_spec(label: Seq<char>, value: Seq<char>, is_file: bool) -> Result<
    Seq<char>,
    Seq<char>,
> {
    if is_file {
        Ok(trim(value))
    } else {
        Err(label + "不存在或不是文件："@ + trim(value))
    }
}

pub fn validate_media_file(label: &str, value: &str, is_file: bool) -> (r: Result<String, String>)
    ensures
        string_result_view(r) == media_file_spec(label@, value@, is_file),
{
    let v = chars_of(value);
    let t = trimmed(&v);
    if is_file {
        Ok(string_of(&t))
    } else {
        let mut m = chars_of(label);
        push_str(&mut m, "不存在或不是文件：");
        push_all(&mut m, &t);
        Err(string_of(&m))
    }
}

// ---------------------------------------------------------------------------
// Argument lists
// ---------------------------------------------------------------------------
/// `crf.unwrap_or(28).clamp(18, 35)`.
pub open spec fn crf_spec(crf: Option<u8>) -> u8 {
    let c = match crf {
        Some(c) => c,
        None => 28u8,
    };
    if c < 18 {
        18
    } else if c > 35 {
        35
    } else {
        c
    }
}

/// The arguments of an FFmpeg command for a preset, after the program and
/// `-hide_banner -n`. `secondary_is_file` says whether the trimmed secondary
/// input names an existing file.
pub open spec fn preset_args_spec(
    input: Seq<char>,
    output: Seq<char>,
    req: FfmpegCommandRequest,
    secondary_is_file: bool,
) -> Result<Seq<Seq<char>>, Seq<char>> {
    let id = req.preset_id@;
    if id == "convertMp4"@ {
        Ok(
            seq![
                "-i"@,
                input,
                "-c:v"@,
                "libx264"@,
                "-preset"@,
                "medium"@,
                "-crf"@,
                "20"@,
                "-c:a"@,
                "aac"@,
                "-b:a"@,
                "192k"@,
                "-movflags"@,
                "+faststart"@,
                output,
            ],
        )
    } else if id == "compress"@ {
        Ok(
            seq![
                "-i"@,
                input,
                "-c:v"@,
                "libx264"@,
                "-preset"@,
                "medium"@,
                "-crf"@,
                decimal(crf_spec(req.crf) as nat),
                "-c:a"@,
                "aac"@,
                "-b:a"@,
                "128k"@,
                "-movflags"@,
                "+faststart"@,
                output,
            ],
        )
    } else if id == "extractAudio"@ {
        match audio_format_spec(opt_view(req.audio_format)) {
            Ok(f) => if f == "mp3"@ {
                Ok(seq!["-i"@, input, "-vn"@, "-c:a"@, "libmp3lame"@, "-q:a"@, "2"@, output])
            } else {
                Ok(seq!["-i"@, input, "-vn"@, "-c:a"@, "aac"@, "-b:a"@, "192k"@, output])
            },
            Err(e) => Err(e),
        }
    } else if id == "trim"@ {
        match time_spec(opt_view(req.start_time)) {
            None => Err("请填写截取开始时间。"@),
            Some(start) => if !is_time_text(start) {
                Err(time_error("开始时间"@))
            } else {
                let head = seq!["-ss"@, start];
                let tail = seq!["-i"@, input, "-c"@, "copy"@, output];
                match time_spec(opt_view(req.end_time)) {
                    None => Ok(head + tail),
                    Some(end) => if !is_time_text(end) {
                        Err(time_error("结束时间"@))
                    } else {
                        Ok(head + seq!["-to"@, end] + tail)
                    },
                }
            },
        }
    } else if id == "mergeAudioVideo"@ {
        match opt_view(req.secondary_input_path) {
            None => Err("请选择要合并的音频文件。"@),
            Some(sec) => match media_file_spec("音频文件"@, sec, secondary_is_file) {
                Err(e) => Err(e),
                Ok(audio) => Ok(
                    seq![
                        "-i"@,
                        input,
                        "-i"@,
                        audio,
                        "-map"@,
                        "0:v:0"@,
                        "-map"@,
                        "1:a:0"@,
                        "-c:v"@,
                        "copy"@,
                        "-c:a"@,
                        "aac"@,
                        "-shortest"@,
                        output,
                    ],
                ),
            },
        }
    } else {
        Err(unsupported_preset_message(id))
    }
}

/// The whole argument list: the program, `-hide_banner`, `-n`, then the
/// preset's arguments.
pub open spec fn ffmpeg_args_spec(
    ffmpeg: Seq<char>,
    input: Seq<char>,
    output: Seq<char>,
    req: FfmpegCommandRequest,
    secondary_is_file: bool,
) -> Result<Seq<Seq<char>>, Seq<char>> {
    match preset_args_spec(input, output, req, secondary_is_file) {
        Ok(rest) => Ok(seq![ffmpeg, "-hide_banner"@, "-n"@] + rest),
        Err(e) => Err(e),
    }
}

pub open spec fn args_result_view(r: Result<Vec<String>, String>) -> Result<Seq<Seq<char>>, Seq<char>> {
    match r {
        Ok(v) => Ok(strings_view(v@)),
        Err(e) => Err(e@),
    }
}

fn push_lit(args: &mut Vec<String>, s: &str)
    ensures
        strings_view(final(args)@) == strings_view(old(args)@).push(s@),
{
    args.push(string_from(s));
    assert(strings_view(args@) =~= strings_view(old(args)@).push(s@));
}

fn push_owned(args: &mut Vec<String>, s: String)
    ensures
        strings_view(final(args)@) == strings_view(old(args)@).push(s@),
{
    let ghost v = s@;
    args.push(s);
    assert(strings_view(args@) =~= strings_view(old(args)@).push(v));
}

pub fn ffmpeg_command_args(
    ffmpeg_path: &str,
    input_path: &str,
    output_path: &str,
    request: &FfmpegCommandRequest,
    secondary_is_file: bool,
) -> (r: Result<Vec<String>, String>)
    ensures
        args_result_view(r) == ffmpeg_args_spec(
            ffmpeg_path@,
            input_path@,
            output_path@,
            *request,
            secondary_is_file,
        ),
{
    let mut args: Vec<String> = Vec::new();
    push_lit(&mut args, ffmpeg_path);
    push_lit(&mut args, "-hide_banner");
    push_lit(&mut args, "-n");
    let ghost base = strings_view(args@);
    assert(base =~= seq![ffmpeg_path@, "-hide_banner"@, "-n"@]);
    let id = chars_of(request.preset_id.as_str());
    if eq_str(&id, "convertMp4") {
        push_lit(&mut args, "-i");
        push_lit(&mut args, input_path);
        push_lit(&mut args, "-c:v");
        push_lit(&mut args, "libx264");
        push_lit(&mut args, "-preset");
        push_lit(&mut args, "medium");
        push_lit(&mut args, "-crf");
        push_lit(&mut args, "20");
        push_lit(&mut args, "-c:a");
        push_lit(&mut args, "aac");
        push_lit(&mut args, "-b:a");
        push_lit(&mut args, "192k");
        push_lit(&mut args, "-movflags");
        push_lit(&mut args, "+faststart");
        push_lit(&mut args, output_path);
        assert(strings_view(args@) =~= base + seq![
            "-i"@,
            input_path@,
            "-c:v"@,
            "libx264"@,
            "-preset"@,
            "medium"@,
            "-crf"@,
            "20"@,
            "-c:a"@,
            "aac"@,
            "-b:a"@,
            "192k"@,
            "-movflags"@,
            "+faststart"@,
            output_path@,
        ]);
        return Ok(args);
    }
    if eq_str(&id, "compress") {
        let c: u8 = match request.crf {
            Some(c) => c,
            None => 28,
        };
        let crf: u8 = if c < 18 {
            18
        } else if c > 35 {
            35
        } else {
            c
        };
        let crf_text = crate::text::u64_to_string(crf as u64);
        push_lit(&mut args, "-i");
        push_lit(&mut args, input_path);
        push_lit(&mut args, "-c:v");
        push_lit(&mut args, "libx264");
        push_lit(&mut args, "-preset");
        push_lit(&mut args, "medium");
        push_lit(&mut args, "-crf");
        push_owned(&mut args, crf_text);
        push_lit(&mut args, "-c:a");
        push_lit(&mut args, "aac");
        push_lit(&mut args, "-b:a");
        push_lit(&mut args, "128k");
        push_lit(&mut args, "-movflags");
        push_lit(&mut args, "+faststart");
        push_lit(&mut args, output_path);
        assert(strings_view(args@) =~= base + seq![
            "-i"@,
            input_path@,
            "-c:v"@,
            "libx264"@,
            "-preset"@,
            "medium"@,
            "-crf"@,
            decimal(crf_spec(request.crf) as nat),
            "-c:a"@,
            "aac"@,
            "-b:a"@,
            "128k"@,
            "-movflags"@,
            "+faststart"@,
            output_path@,
        ]);
        return Ok(args);
    }
    if eq_str(&id, "extractAudio") {
        let audio = match &request.audio_format {
            Some(a) => Some(a.as_str()),
            None => None,
        };
        let format = match normalized_audio_format(audio) {
            Ok(f) => f,
            Err(e) => return Err(e),
        };
        push_lit(&mut args, "-i");
        push_lit(&mut args, input_path);
        push_lit(&mut args, "-vn");
        let fc = chars_of(format);
        if eq_str(&fc, "mp3") {
            push_lit(&mut args, "-c:a");
            push_lit(&mut args, "libmp3lame");
            push_lit(&mut args, "-q:a");
            push_lit(&mut args, "2");
        } else {
            push_lit(&mut args, "-c:a");
            push_lit(&mut args, "aac");
            push_lit(&mut args, "-b:a");
            push_lit(&mut args, "192k");
        }
        push_lit(&mut args, output_path);
        proof {
            if format@ == "mp3"@ {
                assert(strings_view(args@) =~= base + seq![
                    "-i"@,
                    input_path@,
                    "-vn"@,
                    "-c:a"@,
                    "libmp3lame"@,
                    "-q:a"@,
                    "2"@,
                    output_path@,
                ]);
            } else {
                assert(strings_view(args@) =~= base + seq![
                    "-i"@,
                    input_path@,
                    "-vn"@,
                    "-c:a"@,
                    "aac"@,
                    "-b:a"@,
                    "192k"@,
                    output_path@,
                ]);
            }
        }
        return Ok(args);
    }
    if eq_str(&id, "trim") {
        let start = match normalized_time(
            match &request.start_time {
                Some(s) => Some(s.as_str()),
                None => None,
            },
        ) {
            Some(s) => s,
            None => return Err(string_from("请填写截取开始时间。")),
        };
        match validate_time_value("开始时间", start.as_str()) {
            Ok(()) => {},
            Err(e) => return Err(e),
        }
        let ghost sv = start@;
        push_lit(&mut args, "-ss");
        push_owned(&mut args, start);
        let ghost mid = strings_view(args@);
        let end = normalized_time(
            match &request.end_time {
                Some(s) => Some(s.as_str()),
                None => None,
            },
        );
        let ghost end_spec = time_spec(opt_view(request.end_time));
        match end {
            Some(e) => {
                match validate_time_value("结束时间", e.as_str()) {
                    Ok(()) => {},
                    Err(err) => return Err(err),
                }
                let ghost ev = e@;
                push_lit(&mut args, "-to");
                push_owned(&mut args, e);
                assert(end_spec == Some(ev) && is_time_text(ev));
                assert(strings_view(args@) =~= mid + seq!["-to"@, ev]);
            },
            None => {
                assert(end_spec is None);
            },
        }
        let ghost after_end = strings_view(args@);
        push_lit(&mut args, "-i");
        push_lit(&mut args, input_path);
        push_lit(&mut args, "-c");
        push_lit(&mut args, "copy");
        push_lit(&mut args, output_path);
        assert(strings_view(args@) =~= after_end + seq![
            "-i"@,
            input_path@,
            "-c"@,
            "copy"@,
            output_path@,
        ]);
        assert(mid =~= base + seq!["-ss"@, sv]);
        proof {
            let tail = seq!["-i"@, input_path@, "-c"@, "copy"@, output_path@];
            match end_spec {
                Some(ev) => {
                    assert(strings_view(args@) =~= base + (seq!["-ss"@, sv] + seq!["-to"@, ev] + tail));
                },
                None => {
                    assert(strings_view(args@) =~= base + (seq!["-ss"@, sv] + tail));
                },
            }
        }
        return Ok(args);
    }
    if eq_str(&id, "mergeAudioVideo") {
        let secondary = match &request.secondary_input_path {
            Some(s) => s,
            None => return Err(string_from("请选择要合并的音频文件。")),
        };
        let audio_path = match validate_media_file("音频文件", secondary.as_str(), secondary_is_file) {
            Ok(p) => p,
            Err(e) => return Err(e),
        };
        let ghost av = audio_path@;
        push_lit(&mut args, "-i");
        push_lit(&mut args, input_path);
        push_lit(&mut args, "-i");
        push_owned(&mut args, audio_path);
        push_lit(&mut args, "-map");
        push_lit(&mut args, "0:v:0");
        push_lit(&mut args, "-map");
        push_lit(&mut args, "1:a:0");
        push_lit(&mut args, "-c:v");
        push_lit(&mut args, "copy");
        push_lit(&mut args, "-c:a");
        push_lit(&mut args, "aac");
        push_lit(&mut args, "-shortest");
        push_lit(&mut args, output_path);
        assert(strings_view(args@) =~= base + seq![
            "-i"@,
            input_path@,
            "-i"@,
            av,
            "-map"@,
            "0:v:0"@,
            "-map"@,
            "1:a:0"@,
            "-c:v"@,
            "copy"@,
            "-c:a"@,
            "aac"@,
            "-shortest"@,
            output_path@,
        ]);
        return Ok(args);
    }
    Err(preset_error(&id))
}

} // verus!
