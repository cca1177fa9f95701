//! Reading yt-dlp's progress output: the phase of a download, the kind of
//! stream a progress line is about, and the text fields of a progress line.
use vstd::prelude::*;
use crate::text::{
    chars_of, concat, contains, contains_str, eq_str, find, find_ch, find_char, find_str,
    has_char, has_prefix_str, is_ascii_digit, is_digit, lower, part, split_on, split_char,
    starts_with, string_of, strip_end_all, strip_end_char, to_lower, trim, trimmed,
};
use crate::tools::{first_word, first_word_of, opt_view, opt_str_view};

verus! {

/// What a download is doing.
#[derive(Debug, Clone, Copy, PartialEq, Eq, Structural)]
pub enum DownloadPhase {
    DownloadingVideo,
    DownloadingAudio,
    DownloadingMedia,
    Merging,
    Completed,
}

impl DownloadPhase {
    pub open spec fn name_spec(self) -> Seq<char> {
        match self {
            DownloadPhase::DownloadingVideo => "downloadingVideo"@,
            DownloadPhase::DownloadingAudio => "downloadingAudio"@,
            DownloadPhase::DownloadingMedia => "downloadingMedia"@,
            DownloadPhase::Merging => "merging"@,
            DownloadPhase::Completed => "completed"@,
        }
    }

    pub open spec fn label_spec(self) -> Seq<char> {
        match self {
            DownloadPhase::DownloadingVideo => "下载视频流"@,
            DownloadPhase::DownloadingAudio => "下载音频流"@,
            DownloadPhase::DownloadingMedia => "下载媒体"@,
            DownloadPhase::Merging => "合并封装中"@,
            DownloadPhase::Completed => "已完成"@,
        }
    }

    pub fn as_str(self) -> (r: &'static str)
        ensures
            r@ == self.name_spec(),
    {
        match self {
            DownloadPhase::DownloadingVideo => "downloadingVideo",
            DownloadPhase::DownloadingAudio => "downloadingAudio",
            DownloadPhase::DownloadingMedia => "downloadingMedia",
            DownloadPhase::Merging => "merging",
            DownloadPhase::Completed => "completed",
        }
    }

    pub fn label(self) -> (r: &'static str)
        ensures
            r@ == self.label_spec(),
    {
        match self {
            DownloadPhase::DownloadingVideo => "下载视频流",
            DownloadPhase::DownloadingAudio => "下载音频流",
            DownloadPhase::DownloadingMedia => "下载媒体",
            DownloadPhase::Merging => "合并封装中",
            DownloadPhase::Completed => "已完成",
        }
    }
}

/// Which stream a progress line is about.
#[derive(Debug, Clone, Copy, PartialEq, Eq, Structural)]
pub enum ProgressMediaKind {
    Video,
    Audio,
    Media,
    Unknown,
}

pub open spec fn progress_phase_spec(kind: ProgressMediaKind) -> DownloadPhase {
    match kind {
        ProgressMediaKind::Video => DownloadPhase::DownloadingVideo,
        ProgressMediaKind::Audio => DownloadPhase::DownloadingAudio,
        _ => DownloadPhase::DownloadingMedia,
    }
}

pub fn progress_phase(media_kind: ProgressMediaKind) -> (r: DownloadPhase)
    ensures
        r == progress_phase_spec(media_kind),
{
    match media_kind {
        ProgressMediaKind::Video => DownloadPhase::DownloadingVideo,
        ProgressMediaKind::Audio => DownloadPhase::DownloadingAudio,
        ProgressMediaKind::Media | ProgressMediaKind::Unknown => DownloadPhase::DownloadingMedia,
    }
}

/// The order in which phases follow each other.
pub open spec fn phase_rank_spec(phase: DownloadPhase) -> u8 {
    match phase {
        DownloadPhase::DownloadingMedia => 0,
        DownloadPhase::DownloadingVideo => 1,
        DownloadPhase::DownloadingAudio => 2,
        DownloadPhase::Merging => 3,
        DownloadPhase::Completed => 4,
    }
}

pub fn phase_rank(phase: DownloadPhase) -> (r: u8)
    ensures
        r == phase_rank_spec(phase),
{
    match phase {
        DownloadPhase::DownloadingMedia => 0,
        DownloadPhase::DownloadingVideo => 1,
        DownloadPhase::DownloadingAudio => 2,
        DownloadPhase::Merging => 3,
        DownloadPhase::Completed => 4,
    }
}

/// The phase a progress snapshot shows after a progress line about
/// `candidate`: it moves to `candidate` when the mapped progress did not go
/// down (`progress_advanced`) or when `candidate` comes later than the
/// current phase, and otherwise stays.
pub fn updated_snapshot_phase(current: DownloadPhase, candidate: DownloadPhase, progress_advanced: bool) -> (r:
    DownloadPhase)
    ensures
        r == (if progress_advanced || phase_rank_spec(candidate) > phase_rank_spec(current) {
            candidate
        } else {
            current
        }),
        !progress_advanced ==> phase_rank_spec(r) >= phase_rank_spec(current),
{
    if progress_advanced || phase_rank(candidate) > phase_rank(current) {
        candidate
    } else {
        current
    }
}

/// Distinct phases have distinct ranks.
pub proof fn lemma_phase_rank_injective(a: DownloadPhase, b: DownloadPhase)
    ensures
        phase_rank_spec(a) == phase_rank_spec(b) <==> a == b,
{
}

// ---------------------------------------------------------------------------
// ANSI escape sequences
// ---------------------------------------------------------------------------
/// A final byte of a CSI sequence: `@` through `~`.
pub open spec fn is_csi_final(c: char) -> bool {
    '@' <= c && c <= '~'
}

/// Number of characters of `t` up to and including the first CSI final
/// character, or all of `t`.
pub open spec fn csi_len(t: Seq<char>) -> nat
    decreases t.len(),
{
    if t.len() == 0 {
        0
    } else if is_csi_final(t[0]) {
        1
    } else {
        1 + csi_len(t.drop_first())
    }
}

/// `s` without its `ESC [ ... final` sequences.
pub open spec fn strip_ansi(s: Seq<char>) -> Seq<char>
    decreases s.len(),
{
    if s.len() == 0 {
        seq![]
    } else if s.len() > 1 && s[0] == '\u{1b}' && s[1] == '[' {
        let rest = s.skip(2);
        if csi_len(rest) <= rest.len() {
            strip_ansi(rest.skip(csi_len(rest) as int))
        } else {
            seq![]
        }
    } else {
        seq![s[0]] + strip_ansi(s.drop_first())
    }
}

proof fn lemma_csi_len_bound(t: Seq<char>)
    ensures
        csi_len(t) <= t.len(),
    decreases t.len(),
{
    if t.len() > 0 && !is_csi_final(t[0]) {
        lemma_csi_len_bound(t.drop_first());
    }
}

proof fn lemma_csi_len_skip(t: Seq<char>, j: int)
    requires
        0 <= j <= t.len(),
        forall|k: int| 0 <= k < j ==> !is_csi_final(#[trigger] t[k]),
    ensures
        csi_len(t) == j + csi_len(t.skip(j)),
    decreases j,
{
    if j == 0 {
        assert(t.skip(0) =~= t);
    } else {
        assert(!is_csi_final(t[0]));
        let u = t.drop_first();
        assert(u.skip(j - 1) =~= t.skip(j));
        assert forall|k: int| 0 <= k < j - 1 implies !is_csi_final(#[trigger] u[k]) by {
            assert(u[k] == t[k + 1]);
        }
        lemma_csi_len_skip(u, j - 1);
    }
}

pub fn strip_ansi_chars(s: &[char]) -> (r: Vec<char>)
    ensures
        r@ == strip_ansi(s@),
{
    let mut r: Vec<char> = Vec::new();
    let mut i: usize = 0;
    assert(s@.skip(0) =~= s@);
    while i < s.len()
        invariant
            i <= s.len(),
            strip_ansi(s@) == r@ + strip_ansi(s@.skip(i as int)),
        decreases s.len() - i,
    {
        let ghost t = s@.skip(i as int);
        if i + 1 < s.len() && s[i] == '\u{1b}' && s[i + 1] == '[' {
            let mut j = i + 2;
            while j < s.len() && !('@' <= s[j] && s[j] <= '~')
                invariant
                    i + 2 <= j <= s.len(),
                    forall|k: int| i + 2 <= k < j ==> !is_csi_final(#[trigger] s@[k]),
                decreases s.len() - j,
            {
                j = j + 1;
            }
            let ghost rest = t.skip(2);
            proof {
                assert(rest =~= s@.skip(i + 2));
                assert forall|k: int| 0 <= k < j - i - 2 implies !is_csi_final(#[trigger] rest[k]) by {
                    assert(rest[k] == s@[i + 2 + k]);
                }
                lemma_csi_len_skip(rest, j - i - 2);
                lemma_csi_len_bound(rest);
                if j < s.len() {
                    assert(rest.skip(j - i - 2) =~= s@.skip(j as int));
                    assert(csi_len(s@.skip(j as int)) == 1);
                    assert(s@.skip(j as int).skip(1) =~= s@.skip(j + 1));
                    assert(rest.skip(csi_len(rest) as int) =~= s@.skip(j + 1));
                } else {
                    assert(rest.skip(j - i - 2).len() == 0);
                    assert(rest.skip(csi_len(rest) as int) =~= s@.skip(j as int));
                }
            }
            if j < s.len() {
                i = j + 1;
            } else {
                i = j;
            }
        } else {
            r.push(s[i]);
            proof {
                assert(t.drop_first() =~= s@.skip(i + 1));
                assert(r@ + strip_ansi(s@.skip(i + 1)) =~= (r@.drop_last() + (seq![s@[i as int]]
                    + strip_ansi(t.drop_first()))));
            }
            i = i + 1;
        }
    }
    assert(strip_ansi(s@.skip(i as int)) =~= Seq::<char>::empty());
    assert(r@ + Seq::<char>::empty() =~= r@);
    r
}

pub fn strip_ansi_codes(value: &str) -> (r: String)
    ensures
        r@ == strip_ansi(value@),
{
    let s = chars_of(value);
    let r = strip_ansi_chars(&s);
    string_of(&r)
}

/// A line yt-dlp prints while it merges the streams.
pub open spec fn is_merge_line_spec(line: Seq<char>) -> bool {
    let l = trim(strip_ansi(line));
    starts_with(l, "VD_POSTPROCESS:"@) || starts_with(l, "[Merger]"@) || contains(
        l,
        "Merging formats into"@,
    )
}

pub fn is_merge_progress_line(line: &str) -> (r: bool)
    ensures
        r == is_merge_line_spec(line@),
{
    let s = chars_of(line);
    let a = strip_ansi_chars(&s);
    let l = trimmed(&a);
    has_prefix_str(&l, "VD_POSTPROCESS:") || has_prefix_str(&l, "[Merger]") || contains_str(
        &l,
        "Merging formats into",
    )
}

// ---------------------------------------------------------------------------
// Progress fields
// ---------------------------------------------------------------------------
/// A progress field that says nothing: empty, `N/A`, `NA`, `Unknown`,
/// `Unknown ...` or `-`.
pub open spec fn is_blank_progress_value(v: Seq<char>) -> bool {
    let l = lower(v);
    v.len() == 0 || l == "n/a"@ || l == "na"@ || l == "unknown"@ || starts_with(l, "unknown "@)
        || v == "-"@
}

pub open spec fn progress_value_spec(value: Seq<char>) -> Option<Seq<char>> {
    let v = trim(value);
    if is_blank_progress_value(v) {
        None
    } else {
        Some(v)
    }
}

pub fn normalize_progress_chars(value: &[char]) -> (r: Option<Vec<char>>)
    ensures
        r matches Some(v) ==> progress_value_spec(value@) == Some(v@),
        r is None ==> progress_value_spec(value@) is None,
{
    let v = trimmed(value);
    let l = to_lower(&v);
    if v.len() == 0 || eq_str(&l, "n/a") || eq_str(&l, "na") || eq_str(&l, "unknown")
        || has_prefix_str(&l, "unknown ") || eq_str(&v, "-") {
        None
    } else {
        Some(v)
    }
}

pub fn normalize_progress_value(value: &str) -> (r: Option<String>)
    ensures
        opt_view(r) == progress_value_spec(value@),
{
    let c = chars_of(value);
    match normalize_progress_chars(&c) {
        Some(v) => Some(string_of(&v)),
        None => None,
    }
}

/// The first word of a trimmed ETA field, when it says something.
pub open spec fn eta_value_spec(value: Seq<char>) -> Option<Seq<char>> {
    let v = trim(value);
    let w = match first_word(v) {
        Some(w) => w,
        None => v,
    };
    progress_value_spec(w)
}

pub fn normalize_eta_chars(value: &[char]) -> (r: Option<Vec<char>>)
    ensures
        r matches Some(v) ==> eta_value_spec(value@) == Some(v@),
        r is None ==> eta_value_spec(value@) is None,
{
    let v = trimmed(value);
    let w = match first_word_of(&v) {
        Some(w) => w,
        None => v,
    };
    normalize_progress_chars(&w)
}

pub fn normalize_eta_value(value: &str) -> (r: Option<String>)
    ensures
        opt_view(r) == eta_value_spec(value@),
{
    let c = chars_of(value);
    match normalize_eta_chars(&c) {
        Some(v) => Some(string_of(&v)),
        None => None,
    }
}

/// A codec field that names a codec.
pub open spec fn is_real_codec_spec(value: Seq<char>) -> bool {
    let l = lower(trim(value));
    l.len() != 0 && l != "none"@ && l != "null"@ && l != "unknown"@ && l != "n/a"@ && l != "na"@
}

pub fn is_real_codec_chars(value: &[char]) -> (r: bool)
    ensures
        r == is_real_codec_spec(value@),
{
    let t = trimmed(value);
    let l = to_lower(&t);
    l.len() != 0 && !eq_str(&l, "none") && !eq_str(&l, "null") && !eq_str(&l, "unknown")
        && !eq_str(&l, "n/a") && !eq_str(&l, "na")
}

pub fn is_real_codec(value: &str) -> (r: bool)
    ensures
        r == is_real_codec_spec(value@),
{
    let c = chars_of(value);
    is_real_codec_chars(&c)
}

pub open spec fn media_kind_spec(vcodec: Option<Seq<char>>, acodec: Option<Seq<char>>) -> ProgressMediaKind {
    let v = match vcodec {
        Some(c) => is_real_codec_spec(c),
        None => false,
    };
    let a = match acodec {
        Some(c) => is_real_codec_spec(c),
        None => false,
    };
    if v && !a {
        ProgressMediaKind::Video
    } else if !v && a {
        ProgressMediaKind::Audio
    } else if v && a {
        ProgressMediaKind::Media
    } else {
        ProgressMediaKind::Unknown
    }
}

pub fn progress_media_kind(vcodec: Option<&str>, acodec: Option<&str>) -> (r: ProgressMediaKind)
    ensures
        r == media_kind_spec(opt_str_view(vcodec), opt_str_view(acodec)),
{
    let has_video = match vcodec {
        Some(c) => is_real_codec(c),
        None => false,
    };
    let has_audio = match acodec {
        Some(c) => is_real_codec(c),
        None => false,
    };
    if has_video && !has_audio {
        ProgressMediaKind::Video
    } else if !has_video && has_audio {
        ProgressMediaKind::Audio
    } else if has_video && has_audio {
        ProgressMediaKind::Media
    } else {
        ProgressMediaKind::Unknown
    }
}

/// The trimmed text between the first `marker` and the next `until`.
pub open spec fn extract_after_spec(line: Seq<char>, marker: Seq<char>, until: Seq<char>) -> Option<
    Seq<char>,
> {
    match find(line, marker) {
        Some(k) => {
            let rem = line.skip((k + marker.len()) as int);
            let end = match find(rem, until) {
                Some(e) => e,
                None => rem.len(),
            };
            let v = trim(rem.take(end as int));
            if v.len() == 0 {
                None
            } else {
                Some(v)
            }
        },
        None => None,
    }
}

proof fn lemma_find_bound(s: Seq<char>, p: Seq<char>)
    ensures
        find(s, p) matches Some(k) ==> k + p.len() <= s.len(),
{
    crate::text::lemma_find(s, p);
}

pub fn extract_after_chars(line: &[char], marker: &[char], until: &[char]) -> (r: Option<Vec<char>>)
    ensures
        r matches Some(v) ==> extract_after_spec(line@, marker@, until@) == Some(v@),
        r is None ==> extract_after_spec(line@, marker@, until@) is None,
{
    proof {
        lemma_find_bound(line@, marker@);
    }
    let k = match crate::text::find_seq(line, marker) {
        Some(k) => k,
        None => return None,
    };
    assert(k + marker@.len() <= line@.len());
    if k > line.len() || marker.len() > line.len() - k {
        return None;
    }
    let start = k + marker.len();
    let rem = part(line, start, line.len());
    assert(rem@ =~= line@.skip(k + marker@.len()));
    proof {
        lemma_find_bound(rem@, until@);
    }
    let end = match crate::text::find_seq(&rem, until) {
        Some(e) => e,
        None => rem.len(),
    };
    let head = part(&rem, 0, end);
    assert(head@ =~= rem@.take(end as int));
    let v = trimmed(&head);
    if v.len() == 0 {
        None
    } else {
        Some(v)
    }
}

pub fn extract_after(line: &str, marker: &str, until: &str) -> (r: Option<String>)
    ensures
        opt_view(r) == extract_after_spec(line@, marker@, until@),
{
    let l = chars_of(line);
    let m = chars_of(marker);
    let u = chars_of(until);
    match extract_after_chars(&l, &m, &u) {
        Some(v) => Some(string_of(&v)),
        None => None,
    }
}

/// The text fields of a progress line; the percentage and the speed are
/// still text, which the caller reads as numbers.
#[derive(Debug, Clone)]
pub struct ProgressFields {
    /// The percentage as text: on a `VD_PROGRESS:` line the first field
    /// without `%` and surrounding blanks (never empty there); on a
    /// `[download]` line the digits and dots just before the first `%`, which
    /// may be empty (`[download] x%`).
    pub percent: String,
    /// The speed as yt-dlp printed it, where it says something.
    pub speed: Option<String>,
    pub eta: Option<String>,
    pub media_kind: ProgressMediaKind,
}

/// The view of progress fields.
pub open spec fn fields_view(f: ProgressFields) -> (
    Seq<char>,
    Option<Seq<char>>,
    Option<Seq<char>>,
    ProgressMediaKind,
) {
    (f.percent@, opt_view(f.speed), opt_view(f.eta), f.media_kind)
}

/// `value.trim().trim_end_matches('%').trim()`, where it is not empty.
pub open spec fn percent_text_spec(value: Seq<char>) -> Option<Seq<char>> {
    let v = trim(strip_end_all(trim(value), '%'));
    if v.len() == 0 {
        None
    } else {
        Some(v)
    }
}

/// The `i`-th field, if there is one.
pub open spec fn field_at(fields: Seq<Seq<char>>, i: int) -> Option<Seq<char>> {
    if 0 <= i < fields.len() {
        Some(fields[i])
    } else {
        None
    }
}

pub open spec fn opt_then(o: Option<Seq<char>>, f: spec_fn(Seq<char>) -> Option<Seq<char>>) -> Option<Seq<char>> {
    match o {
        Some(v) => f(v),
        None => None,
    }
}

/// The fields of the progress template
/// `VD_PROGRESS:percent|speed|eta|vcodec|acodec|format_id`.
pub open spec fn machine_fields_spec(rest: Seq<char>) -> Option<
    (Seq<char>, Option<Seq<char>>, Option<Seq<char>>, ProgressMediaKind),
> {
    let fields = split_on(rest, '|');
    match percent_text_spec(fields[0]) {
        Some(p) => Some(
            (
                p,
                opt_then(field_at(fields, 1), |v: Seq<char>| progress_value_spec(v)),
                opt_then(field_at(fields, 2), |v: Seq<char>| eta_value_spec(v)),
                media_kind_spec(
                    opt_then(field_at(fields, 3), |v: Seq<char>| progress_value_spec(v)),
                    opt_then(field_at(fields, 4), |v: Seq<char>| progress_value_spec(v)),
                ),
            ),
        ),
        None => None,
    }
}

/// Start of the run of digits and dots that ends at `end`.
pub open spec fn number_start(s: Seq<char>, end: nat) -> nat
    decreases end,
{
    if end == 0 {
        0
    } else if is_digit(s[end - 1]) || s[end - 1] == '.' {
        number_start(s, (end - 1) as nat)
    } else {
        end
    }
}

/// The text after the first `" ETA "` up to the next one.
pub open spec fn eta_piece(line: Seq<char>) -> Option<Seq<char>> {
    match find(line, " ETA "@) {
        Some(k) => {
            let rest = line.skip((k + 5) as int);
            match find(rest, " ETA "@) {
                Some(e) => Some(rest.take(e as int)),
                None => Some(rest),
            }
        },
        None => None,
    }
}

/// The fields of a progress line yt-dlp prints itself:
/// `[download]  35.2% of ~120.00MiB at 3.1MiB/s ETA 00:25`.
pub open spec fn download_fields_spec(line: Seq<char>) -> Option<
    (Seq<char>, Option<Seq<char>>, Option<Seq<char>>, ProgressMediaKind),
> {
    if !contains(line, "[download]"@) || !has_char(line, '%') {
        None
    } else {
        match find_char(line, '%') {
            Some(pi) => Some(
                (
                    line.subrange(number_start(line, pi) as int, pi as int),
                    opt_then(
                        extract_after_spec(line, " at "@, " ETA "@),
                        |v: Seq<char>| progress_value_spec(v),
                    ),
                    opt_then(eta_piece(line), |v: Seq<char>| eta_value_spec(v)),
                    ProgressMediaKind::Unknown,
                ),
            ),
            None => None,
        }
    }
}

/// The fields of any progress line, after ANSI codes are removed.
pub open spec fn progress_fields_spec(line: Seq<char>) -> Option<
    (Seq<char>, Option<Seq<char>>, Option<Seq<char>>, ProgressMediaKind),
> {
    let l = strip_ansi(line);
    let t = trim(l);
    if starts_with(t, "VD_PROGRESS:"@) {
        machine_fields_spec(t.skip(12))
    } else {
        download_fields_spec(l)
    }
}

/// Whether the number before `%` in a download line starts on a character
/// boundary: it is read from the byte just after the last character that is
/// neither a digit nor a dot, which is a boundary only where that character
/// is ASCII (a byte-indexed read would panic otherwise).
pub open spec fn progress_number_start_is_ascii(line: Seq<char>) -> bool {
    let l = strip_ansi(line);
    let t = trim(l);
    if starts_with(t, "VD_PROGRESS:"@) || !contains(l, "[download]"@) {
        true
    } else {
        match find_char(l, '%') {
            Some(pi) => {
                let ns = number_start(l, pi);
                ns == 0 || (l[ns - 1] as u32) < 128
            },
            None => true,
        }
    }
}

fn opt_string(v: Option<Vec<char>>) -> (r: Option<String>)
    ensures
        opt_view(r) == (match v {
            Some(c) => Some(c@),
            None => None::<Seq<char>>,
        }),
{
    match v {
        Some(c) => Some(string_of(&c)),
        None => None,
    }
}

fn machine_fields(rest: &[char]) -> (r: Option<ProgressFields>)
    ensures
        r matches Some(f) ==> machine_fields_spec(rest@) == Some(fields_view(f)),
        r is None ==> machine_fields_spec(rest@) is None,
{
    let fields = split_char(rest, '|');
    let ghost fs = split_on(rest@, '|');
    proof {
        lemma_split_len(rest@, '|');
    }
    let f0 = trimmed(&fields[0]);
    let f1 = strip_end_char(&f0, '%');
    let p = trimmed(&f1);
    if p.len() == 0 {
        return None;
    }
    let speed = if fields.len() > 1 {
        normalize_progress_chars(&fields[1])
    } else {
        None
    };
    let eta = if fields.len() > 2 {
        normalize_eta_chars(&fields[2])
    } else {
        None
    };
    let vcodec = if fields.len() > 3 {
        normalize_progress_chars(&fields[3])
    } else {
        None
    };
    let acodec = if fields.len() > 4 {
        normalize_progress_chars(&fields[4])
    } else {
        None
    };
    let vs = opt_string(vcodec);
    let acs = opt_string(acodec);
    let kind = progress_media_kind(
        match &vs {
            Some(v) => Some(v.as_str()),
            None => None,
        },
        match &acs {
            Some(a) => Some(a.as_str()),
            None => None,
        },
    );
    Some(ProgressFields { percent: string_of(&p), speed: opt_string(speed), eta: opt_string(eta), media_kind: kind })
}

proof fn lemma_split_len(s: Seq<char>, c: char)
    ensures
        split_on(s, c).len() >= 1,
    decreases s.len(),
{
    match find_char(s, c) {
        Some(k) => {
            if k < s.len() {
                lemma_split_len(s.skip((k + 1) as int), c);
            }
        },
        None => {},
    }
}

fn number_start_of(s: &[char], end: usize) -> (r: usize)
    requires
        end <= s.len(),
    ensures
        r == number_start(s@, end as nat),
        r <= end,
{
    let mut j = end;
    while j > 0 && (is_ascii_digit(s[j - 1]) || s[j - 1] == '.')
        invariant
            j <= end <= s.len(),
            number_start(s@, end as nat) == number_start(s@, j as nat),
        decreases j,
    {
        j = j - 1;
    }
    j
}

fn download_fields(l: &[char]) -> (r: Option<ProgressFields>)
    ensures
        r matches Some(f) ==> download_fields_spec(l@) == Some(fields_view(f)),
        r is None ==> download_fields_spec(l@) is None,
{
    if !contains_str(l, "[download]") || !crate::text::contains_char(l, '%') {
        return None;
    }
    let pi = match find_ch(l, '%') {
        Some(pi) => pi,
        None => return None,
    };
    let ns = number_start_of(l, pi);
    let number = part(l, ns, pi);
    let at = chars_of(" at ");
    let eta_marker = chars_of(" ETA ");
    let speed = match extract_after_chars(l, &at, &eta_marker) {
        Some(v) => normalize_progress_chars(&v),
        None => None,
    };
    proof {
        lemma_find_bound(l@, " ETA "@);
    }
    let eta = match find_str(l, " ETA ") {
        Some(k) => {
            proof {
                crate::text::lemma_find(l@, " ETA "@);
                assert(eta_marker@ == " ETA "@);
                assert(eta_marker@.len() == 5) by {
                    reveal_strlit(" ETA ");
                }
            }
            let rest = part(l, k + 5, l.len());
            assert(rest@ =~= l@.skip(k + 5));
            let piece = match crate::text::find_seq(&rest, &eta_marker) {
                Some(e) => {
                    proof {
                        lemma_find_bound(rest@, " ETA "@);
                    }
                    part(&rest, 0, e)
                },
                None => rest.clone(),
            };
            proof {
                if let Some(e) = find(rest@, " ETA "@) {
                    assert(piece@ =~= rest@.take(e as int));
                }
            }
            normalize_eta_chars(&piece)
        },
        None => None,
    };
    Some(
        ProgressFields {
            percent: string_of(&number),
            speed: opt_string(speed),
            eta: opt_string(eta),
            media_kind: ProgressMediaKind::Unknown,
        },
    )
}

/// Whether reading the number of this progress line stays on character
/// boundaries (see `progress_number_start_is_ascii`).
pub fn progress_line_is_readable(line: &str) -> (r: bool)
    ensures
        r == progress_number_start_is_ascii(line@),
{
    let s = chars_of(line);
    let l = strip_ansi_chars(&s);
    let t = trimmed(&l);
    if has_prefix_str(&t, "VD_PROGRESS:") || !contains_str(&l, "[download]") {
        return true;
    }
    match find_ch(&l, '%') {
        Some(pi) => {
            let ns = number_start_of(&l, pi);
            ns == 0 || (l[ns - 1] as u32) < 128
        },
        None => true,
    }
}

/// The text fields of a progress line, or `None` where the line is not one.
pub fn parse_progress_fields(line: &str) -> (r: Option<ProgressFields>)
    requires
        progress_number_start_is_ascii(line@),
    ensures
        r matches Some(f) ==> progress_fields_spec(line@) == Some(fields_view(f)),
        r is None ==> progress_fields_spec(line@) is None,
{
    let s = chars_of(line);
    let l = strip_ansi_chars(&s);
    let t = trimmed(&l);
    if has_prefix_str(&t, "VD_PROGRESS:") {
        proof {
            assert("VD_PROGRESS:"@.len() == 12) by {
                reveal_strlit("VD_PROGRESS:");
            }
        }
        let rest = part(&t, 12, t.len());
        assert(rest@ =~= t@.skip(12));
        machine_fields(&rest)
    } else {
        download_fields(&l)
    }
}

} // verus!
