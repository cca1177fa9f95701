//! The formats that yt-dlp reports for a video: their resolution, codec and
//! display label, the list of choices offered to the user, and the label of
//! the best one.
use vstd::prelude::*;
use crate::text::{
    chars_of, contains, contains_str, decimal, digits_to_u64, digits_value, all_digits,
    eq_str, find_char, find_ch, has_char, has_prefix_str, is_alnum, is_ascii_alphanumeric,
    is_ascii_digit, is_digit, is_whitespace, is_ws, lower, parse_u64, parse_u64_chars, part,
    push_all, push_str, seq_eq, starts_with, string_of, string_from, to_lower, to_upper, trim,
    trimmed, upper, u64_to_chars,
};
use crate::tools::{opt_view, opt_str_view};

verus! {

/// One value of a JSON object as the format logic reads it.
#[derive(Debug, Clone)]
pub enum Field {
    /// The key is absent.
    Missing,
    /// A JSON string.
    Text(String),
    /// A JSON number that is a non-negative integer fitting in `u64`.
    Unsigned(u64),
    /// Any other JSON value (null, a boolean, another number, an array or
    /// an object).
    Other,
}

/// A non-empty JSON string.
pub open spec fn text_of(f: Field) -> Option<Seq<char>> {
    match f {
        Field::Text(s) => if s@.len() > 0 {
            Some(s@)
        } else {
            None
        },
        _ => None,
    }
}

/// A number, or a string that parses as one.
pub open spec fn number_of(f: Field) -> Option<u64> {
    match f {
        Field::Unsigned(n) => Some(n),
        Field::Text(s) => parse_u64(s@),
        _ => None,
    }
}

/// A codec name other than `none` (in any case).
pub open spec fn codec_of(f: Field) -> Option<Seq<char>> {
    match text_of(f) {
        Some(v) => if lower(v) == "none"@ {
            None
        } else {
            Some(v)
        },
        None => None,
    }
}

pub fn string_field(f: &Field) -> (r: Option<String>)
    ensures
        opt_view(r) == text_of(*f),
{
    match f {
        Field::Text(s) => {
            let c = chars_of(s.as_str());
            if c.len() > 0 {
                Some(s.clone())
            } else {
                None
            }
        },
        _ => None,
    }
}

pub fn u64_field(f: &Field) -> (r: Option<u64>)
    ensures
        r == number_of(*f),
{
    match f {
        Field::Unsigned(n) => Some(*n),
        Field::Text(s) => {
            let c = chars_of(s.as_str());
            parse_u64_chars(&c)
        },
        _ => None,
    }
}

pub fn codec_field(f: &Field) -> (r: Option<String>)
    ensures
        opt_view(r) == codec_of(*f),
{
    match string_field(f) {
        Some(v) => {
            let c = chars_of(v.as_str());
            let l = to_lower(&c);
            if eq_str(&l, "none") {
                None
            } else {
                Some(v)
            }
        },
        None => None,
    }
}

/// The keys of a yt-dlp format object that the format logic reads.
#[derive(Debug, Clone)]
pub struct FormatJson {
    pub format_id: Field,
    pub ext: Field,
    pub width: Field,
    pub height: Field,
    pub resolution: Field,
    pub format_note: Field,
    pub vcodec: Field,
    pub acodec: Field,
    pub filesize: Field,
    pub filesize_approx: Field,
}

impl FormatJson {
    /// An object with none of the keys.
    pub fn empty() -> (r: Self)
        ensures
            r.format_id is Missing && r.ext is Missing && r.width is Missing && r.height is Missing
                && r.resolution is Missing && r.format_note is Missing && r.vcodec is Missing
                && r.acodec is Missing && r.filesize is Missing && r.filesize_approx is Missing,
    {
        FormatJson {
            format_id: Field::Missing,
            ext: Field::Missing,
            width: Field::Missing,
            height: Field::Missing,
            resolution: Field::Missing,
            format_note: Field::Missing,
            vcodec: Field::Missing,
            acodec: Field::Missing,
            filesize: Field::Missing,
            filesize_approx: Field::Missing,
        }
    }
}

/// A probed video: its own format keys and its format lists, each `None`
/// where the key is absent or not an array.
#[derive(Debug, Clone)]
pub struct MediaJson {
    pub top: FormatJson,
    pub requested_formats: Option<Vec<FormatJson>>,
    pub formats: Option<Vec<FormatJson>>,
}

/// A choice offered to the user.
#[derive(Debug, Clone)]
pub struct FormatOption {
    pub id: String,
    pub label: String,
    pub selector: String,
    pub ext: Option<String>,
    pub resolution: Option<String>,
    pub vcodec: Option<String>,
    pub acodec: Option<String>,
    pub filesize: Option<u64>,
}

// ---------------------------------------------------------------------------
// Codec names
// ---------------------------------------------------------------------------
/// The short name of a video codec: a family name for the common codecs,
/// else the upper-cased part before the first dot, else the name itself.
pub open spec fn display_video_codec_spec(value: Option<Seq<char>>) -> Option<Seq<char>> {
    match value {
        None => None,
        Some(raw) => {
            let v = trim(raw);
            let l = lower(v);
            if v.len() == 0 || l == "none"@ {
                None
            } else if starts_with(l, "av01"@) {
                Some("AV1"@)
            } else if starts_with(l, "avc1"@) || starts_with(l, "avc3"@) || l == "h264"@ {
                Some("H.264"@)
            } else if starts_with(l, "hev1"@) || starts_with(l, "hvc1"@) || l == "hevc"@ || l
                == "h265"@ {
                Some("H.265"@)
            } else if starts_with(l, "vp09"@) || l == "vp9"@ {
                Some("VP9"@)
            } else if starts_with(l, "vp08"@) || l == "vp8"@ {
                Some("VP8"@)
            } else {
                match find_char(v, '.') {
                    Some(k) => if k > 0 {
                        Some(upper(v.take(k as int)))
                    } else {
                        Some(v)
                    },
                    None => Some(v),
                }
            }
        },
    }
}

pub fn display_video_codec(value: Option<&str>) -> (r: Option<String>)
    ensures
        opt_view(r) == display_video_codec_spec(opt_str_view(value)),
{
    let raw = match value {
        Some(v) => chars_of(v),
        None => return None,
    };
    let v = trimmed(&raw);
    let l = to_lower(&v);
    if v.len() == 0 || eq_str(&l, "none") {
        return None;
    }
    if has_prefix_str(&l, "av01") {
        return Some(string_from("AV1"));
    }
    if has_prefix_str(&l, "avc1") || has_prefix_str(&l, "avc3") || eq_str(&l, "h264") {
        return Some(string_from("H.264"));
    }
    if has_prefix_str(&l, "hev1") || has_prefix_str(&l, "hvc1") || eq_str(&l, "hevc") || eq_str(
        &l,
        "h265",
    ) {
        return Some(string_from("H.265"));
    }
    if has_prefix_str(&l, "vp09") || eq_str(&l, "vp9") {
        return Some(string_from("VP9"));
    }
    if has_prefix_str(&l, "vp08") || eq_str(&l, "vp8") {
        return Some(string_from("VP8"));
    }
    match find_ch(&v, '.') {
        Some(k) => {
            if k > 0 {
                let head = part(&v, 0, k);
                assert(head@ =~= v@.take(k as int));
                let u = to_upper(&head);
                Some(string_of(&u))
            } else {
                Some(string_of(&v))
            }
        },
        None => Some(string_of(&v)),
    }
}

// ---------------------------------------------------------------------------
// Resolutions in text
// ---------------------------------------------------------------------------
/// `a * b`, or `u64::MAX` where it does not fit.
pub open spec fn sat_mul(a: u64, b: u64) -> u64 {
    if a * b > u64::MAX {
        u64::MAX
    } else {
        (a * b) as u64
    }
}

pub fn saturating_mul(a: u64, b: u64) -> (r: u64)
    ensures
        r == sat_mul(a, b),
{
    match a.checked_mul(b) {
        Some(v) => v,
        None => u64::MAX,
    }
}

/// Start of the run of digits that ends at `e`.
pub open spec fn digit_run_start(s: Seq<char>, e: nat) -> nat
    decreases e,
{
    if e > 0 && e <= s.len() && is_digit(s[e - 1]) {
        digit_run_start(s, (e - 1) as nat)
    } else {
        e
    }
}

/// End of the run of digits that starts at `i`.
pub open spec fn digit_run_end(s: Seq<char>, i: nat) -> nat
    decreases s.len() - i,
{
    if i < s.len() && is_digit(s[i as int]) {
        digit_run_end(s, i + 1)
    } else {
        i
    }
}

/// Start of the run of whitespace that ends at `e`.
pub open spec fn ws_run_start(s: Seq<char>, e: nat) -> nat
    decreases e,
{
    if e > 0 && e <= s.len() && is_ws(s[e - 1]) {
        ws_run_start(s, (e - 1) as nat)
    } else {
        e
    }
}

/// End of the run of whitespace that starts at `i`.
pub open spec fn ws_run_end(s: Seq<char>, i: nat) -> nat
    decreases s.len() - i,
{
    if i < s.len() && is_ws(s[i as int]) {
        ws_run_end(s, i + 1)
    } else {
        i
    }
}

pub open spec fn is_dim_sep(c: char) -> bool {
    c == 'x' || c == 'X' || c == '×'
}

/// The first `W x H` in `s` from separator position `i` on with both sides
/// positive, as width, height and their saturated product; `None` also where
/// a side does not fit in `u64`.
pub open spec fn dimension_from(s: Seq<char>, i: nat) -> Option<(u64, u64, u64)>
    decreases s.len() - i,
{
    if i >= s.len() {
        None
    } else if !is_dim_sep(s[i as int]) {
        dimension_from(s, i + 1)
    } else {
        let le = ws_run_start(s, i);
        let ls = digit_run_start(s, le);
        let rs = ws_run_end(s, i + 1);
        let re = digit_run_end(s, rs);
        if ls == le || rs == re {
            dimension_from(s, i + 1)
        } else {
            let w = digits_value(s.subrange(ls as int, le as int));
            let h = digits_value(s.subrange(rs as int, re as int));
            if w > u64::MAX || h > u64::MAX {
                None
            } else if w > 0 && h > 0 {
                Some((w as u64, h as u64, sat_mul(w as u64, h as u64)))
            } else {
                dimension_from(s, i + 1)
            }
        }
    }
}

pub open spec fn dimension_score_spec(value: Seq<char>) -> Option<(u64, u64, u64)> {
    dimension_from(value, 0)
}

proof fn lemma_digit_run_start(s: Seq<char>, e: nat)
    requires
        e <= s.len(),
    ensures
        digit_run_start(s, e) <= e,
        forall|k: int| digit_run_start(s, e) <= k < e ==> is_digit(#[trigger] s[k]),
    decreases e,
{
    if e > 0 && is_digit(s[e - 1]) {
        lemma_digit_run_start(s, (e - 1) as nat);
    }
}

proof fn lemma_digit_run_end(s: Seq<char>, i: nat)
    requires
        i <= s.len(),
    ensures
        i <= digit_run_end(s, i) <= s.len(),
        forall|k: int| i <= k < digit_run_end(s, i) ==> is_digit(#[trigger] s[k]),
    decreases s.len() - i,
{
    if i < s.len() && is_digit(s[i as int]) {
        lemma_digit_run_end(s, i + 1);
    }
}

fn is_run_char(c: char, digits: bool) -> (r: bool)
    ensures
        r == (if digits {
            is_digit(c)
        } else {
            is_ws(c)
        }),
{
    if digits {
        is_ascii_digit(c)
    } else {
        is_whitespace(c)
    }
}

fn run_start(s: &[char], e: usize, digits: bool) -> (r: usize)
    requires
        e <= s.len(),
    ensures
        digits ==> r == digit_run_start(s@, e as nat),
        !digits ==> r == ws_run_start(s@, e as nat),
        r <= e,
{
    let mut j = e;
    while j > 0 && is_run_char(s[j - 1], digits)
        invariant
            j <= e <= s.len(),
            digits ==> digit_run_start(s@, e as nat) == digit_run_start(s@, j as nat),
            !digits ==> ws_run_start(s@, e as nat) == ws_run_start(s@, j as nat),
        decreases j,
    {
        j = j - 1;
    }
    j
}

fn run_end(s: &[char], i: usize, digits: bool) -> (r: usize)
    requires
        i <= s.len(),
    ensures
        digits ==> r == digit_run_end(s@, i as nat),
        !digits ==> r == ws_run_end(s@, i as nat),
        i <= r <= s.len(),
{
    let mut j = i;
    while j < s.len() && is_run_char(s[j], digits)
        invariant
            i <= j <= s.len(),
            digits ==> digit_run_end(s@, i as nat) == digit_run_end(s@, j as nat),
            !digits ==> ws_run_end(s@, i as nat) == ws_run_end(s@, j as nat),
        decreases s.len() - j,
    {
        j = j + 1;
    }
    j
}

proof fn lemma_run_digits(s: Seq<char>, a: nat, b: nat)
    requires
        a <= b <= s.len(),
        forall|k: int| a <= k < b ==> is_digit(#[trigger] s[k]),
    ensures
        all_digits(s.subrange(a as int, b as int)),
{
    assert forall|k: int| 0 <= k < b - a implies is_digit(#[trigger] s.subrange(a as int, b as int)[k]) by {
        assert(s.subrange(a as int, b as int)[k] == s[a + k]);
    }
}

fn dimension_score_chars(s: &[char]) -> (r: Option<(u64, u64, u64)>)
    ensures
        r == dimension_score_spec(s@),
{
    let mut i: usize = 0;
    while i < s.len()
        invariant
            i <= s.len(),
            dimension_score_spec(s@) == dimension_from(s@, i as nat),
        decreases s.len() - i,
    {
        let c = s[i];
        if c == 'x' || c == 'X' || c == '×' {
            let le = run_start(s, i, false);
            let ls = run_start(s, le, true);
            let rs = run_end(s, i + 1, false);
            let re = run_end(s, rs, true);
            if ls != le && rs != re {
                proof {
                    lemma_digit_run_start(s@, le as nat);
                    lemma_digit_run_end(s@, rs as nat);
                    lemma_run_digits(s@, ls as nat, le as nat);
                    lemma_run_digits(s@, rs as nat, re as nat);
                }
                let w = match digits_to_u64(s, ls, le) {
                    Some(w) => w,
                    None => return None,
                };
                let h = match digits_to_u64(s, rs, re) {
                    Some(h) => h,
                    None => return None,
                };
                if w > 0 && h > 0 {
                    return Some((w, h, saturating_mul(w, h)));
                }
            }
        }
        i = i + 1;
    }
    None
}

pub fn parse_dimension_score(value: &str) -> (r: Option<(u64, u64, u64)>)
    ensures
        r == dimension_score_spec(value@),
{
    let s = chars_of(value);
    dimension_score_chars(&s)
}

pub open spec fn is_p(c: char) -> bool {
    c == 'p' || c == 'P'
}

/// The first positive `NNNp` height in `s` from position `i` on; `None` also
/// where a number does not fit in `u64`.
pub open spec fn height_from(s: Seq<char>, i: nat) -> Option<u64>
    decreases s.len() - i,
{
    if i >= s.len() {
        None
    } else if !is_p(s[i as int]) {
        height_from(s, i + 1)
    } else {
        let e = ws_run_start(s, i);
        let st = digit_run_start(s, e);
        if st == e {
            height_from(s, i + 1)
        } else {
            let h = digits_value(s.subrange(st as int, e as int));
            if h > u64::MAX {
                None
            } else if h > 0 {
                Some(h as u64)
            } else {
                height_from(s, i + 1)
            }
        }
    }
}

pub open spec fn progressive_height_spec(value: Seq<char>) -> Option<u64> {
    height_from(value, 0)
}

fn progressive_height_chars(s: &[char]) -> (r: Option<u64>)
    ensures
        r == progressive_height_spec(s@),
{
    let mut i: usize = 0;
    while i < s.len()
        invariant
            i <= s.len(),
            progressive_height_spec(s@) == height_from(s@, i as nat),
        decreases s.len() - i,
    {
        let c = s[i];
        if c == 'p' || c == 'P' {
            let e = run_start(s, i, false);
            let st = run_start(s, e, true);
            if st != e {
                proof {
                    lemma_digit_run_start(s@, e as nat);
                    lemma_run_digits(s@, st as nat, e as nat);
                }
                let h = match digits_to_u64(s, st, e) {
                    Some(h) => h,
                    None => return None,
                };
                if h > 0 {
                    return Some(h);
                }
            }
        }
        i = i + 1;
    }
    None
}

pub fn parse_progressive_height(value: &str) -> (r: Option<u64>)
    ensures
        r == progressive_height_spec(value@),
{
    let s = chars_of(value);
    progressive_height_chars(&s)
}

/// The pieces of `s` between characters that are not ASCII letters or
/// digits: `s.split(|c| !c.is_ascii_alphanumeric())`.
pub open spec fn alnum_pieces(s: Seq<char>) -> Seq<Seq<char>>
    decreases s.len(),
{
    let k = first_non_alnum(s, 0);
    if k >= s.len() {
        seq![s]
    } else {
        seq![s.take(k as int)] + alnum_pieces(s.skip((k + 1) as int))
    }
}

/// Index of the first character at or after `i` that is not an ASCII
/// letter or digit, or `s.len()`.
pub open spec fn first_non_alnum(s: Seq<char>, i: nat) -> nat
    decreases s.len() - i,
{
    if i < s.len() && is_alnum(s[i as int]) {
        first_non_alnum(s, i + 1)
    } else {
        i
    }
}

pub open spec fn quality_token_spec(text: Seq<char>, token: Seq<char>) -> bool {
    exists|i: int| 0 <= i < alnum_pieces(text).len() && alnum_pieces(text)[i] == token
}

proof fn lemma_first_non_alnum(s: Seq<char>, i: nat)
    requires
        i <= s.len(),
    ensures
        i <= first_non_alnum(s, i) <= s.len(),
    decreases s.len() - i,
{
    if i < s.len() && is_alnum(s[i as int]) {
        lemma_first_non_alnum(s, i + 1);
    }
}

fn quality_token_in(text: &[char], token: &[char]) -> (r: bool)
    ensures
        r == quality_token_spec(text@, token@),
    decreases text.len(),
{
    let mut k: usize = 0;
    while k < text.len() && is_ascii_alphanumeric(text[k])
        invariant
            k <= text.len(),
            first_non_alnum(text@, 0) == first_non_alnum(text@, k as nat),
        decreases text.len() - k,
    {
        k = k + 1;
    }
    let ghost ps = alnum_pieces(text@);
    if k >= text.len() {
        assert(ps =~= seq![text@]);
        let r = seq_eq(text, token);
        proof {
            if r {
                assert(ps[0] == token@);
            }
        }
        return r;
    }
    let head = part(text, 0, k);
    let tail = part(text, k + 1, text.len());
    assert(head@ =~= text@.take(k as int));
    assert(tail@ =~= text@.skip((k + 1) as int));
    let ghost rest = alnum_pieces(tail@);
    assert(ps =~= seq![head@] + rest);
    if seq_eq(&head, token) {
        assert(ps[0] == token@);
        return true;
    }
    let r = quality_token_in(&tail, token);
    proof {
        if r {
            let j = choose|j: int| 0 <= j < rest.len() && rest[j] == token@;
            assert(ps[j + 1] == token@);
        } else {
            assert forall|j: int| 0 <= j < ps.len() implies ps[j] != token@ by {
                if j > 0 {
                    assert(ps[j] == rest[j - 1]);
                }
            }
        }
    }
    r
}

pub fn contains_quality_token(text: &str, token: &str) -> (r: bool)
    ensures
        r == quality_token_spec(text@, token@),
{
    let t = chars_of(text);
    let k = chars_of(token);
    quality_token_in(&t, &k)
}

/// A resolution score (pixels) read from text: a `W x H` dimension, a
/// `NNNp` height at 16:9, or an `8k`/`4k`/`uhd`/`2k`/`qhd` quality name.
pub open spec fn resolution_score_spec(value: Seq<char>) -> Option<u64> {
    match dimension_score_spec(value) {
        Some(d) => Some(d.2),
        None => match progressive_height_spec(value) {
            Some(h) => {
                let w = (sat_mul(h, 16) / 9) as u64;
                Some(sat_mul(w, h))
            },
            None => {
                let t = lower(value);
                if quality_token_spec(t, "8k"@) {
                    Some(33177600)
                } else if quality_token_spec(t, "4k"@) || contains(t, "uhd"@) {
                    Some(8294400)
                } else if quality_token_spec(t, "2k"@) || contains(t, "qhd"@) {
                    Some(3686400)
                } else {
                    None
                }
            },
        },
    }
}

fn resolution_score_chars(v: &[char]) -> (r: Option<u64>)
    ensures
        r == resolution_score_spec(v@),
{
    if let Some((_, _, score)) = dimension_score_chars(v) {
        return Some(score);
    }
    if let Some(height) = progressive_height_chars(v) {
        let width = saturating_mul(height, 16) / 9;
        return Some(saturating_mul(width, height));
    }
    let text = to_lower(v);
    let k8 = chars_of("8k");
    let k4 = chars_of("4k");
    let k2 = chars_of("2k");
    if quality_token_in(&text, &k8) {
        return Some(7680 * 4320);
    }
    if quality_token_in(&text, &k4) || contains_str(&text, "uhd") {
        return Some(3840 * 2160);
    }
    if quality_token_in(&text, &k2) || contains_str(&text, "qhd") {
        return Some(2560 * 1440);
    }
    None
}

pub fn resolution_score_from_text(value: &str) -> (r: Option<u64>)
    ensures
        r == resolution_score_spec(value@),
{
    let v = chars_of(value);
    resolution_score_chars(&v)
}

// ---------------------------------------------------------------------------
// Formats
// ---------------------------------------------------------------------------
/// `"{w}x{h}"`.
pub open spec fn dims_label(w: u64, h: u64) -> Seq<char> {
    decimal(w as nat) + "x"@ + decimal(h as nat)
}

/// The resolution a format states: its positive width and height, else a
/// dimension read from its `resolution` text.
pub open spec fn actual_resolution_label_spec(f: FormatJson) -> Option<Seq<char>> {
    match (number_of(f.width), number_of(f.height)) {
        (Some(w), Some(h)) if w > 0 && h > 0 => Some(dims_label(w, h)),
        _ => match text_of(f.resolution) {
            Some(r) => match dimension_score_spec(r) {
                Some(d) => Some(dims_label(d.0, d.1)),
                None => None,
            },
            None => None,
        },
    }
}

fn dims_label_string(w: u64, h: u64) -> (r: String)
    ensures
        r@ == dims_label(w, h),
{
    let mut out = u64_to_chars(w);
    push_str(&mut out, "x");
    let hd = u64_to_chars(h);
    push_all(&mut out, &hd);
    string_of(&out)
}

pub fn actual_resolution_label(format: &FormatJson) -> (r: Option<String>)
    ensures
        opt_view(r) == actual_resolution_label_spec(*format),
{
    if let (Some(w), Some(h)) = (u64_field(&format.width), u64_field(&format.height)) {
        if w > 0 && h > 0 {
            return Some(dims_label_string(w, h));
        }
    }
    match string_field(&format.resolution) {
        Some(r) => {
            let c = chars_of(r.as_str());
            match dimension_score_chars(&c) {
                Some((w, h, _)) => Some(dims_label_string(w, h)),
                None => None,
            }
        },
        None => None,
    }
}

/// The larger of two optional scores.
pub open spec fn max_opt(a: Option<u64>, b: Option<u64>) -> Option<u64> {
    match (a, b) {
        (Some(x), Some(y)) => Some(if x >= y {
            x
        } else {
            y
        }),
        (Some(x), None) => Some(x),
        (None, y) => y,
    }
}

pub open spec fn score_of_text(t: Option<Seq<char>>) -> Option<u64> {
    match t {
        Some(v) => resolution_score_spec(v),
        None => None,
    }
}

/// The number of pixels of a format, for ordering: width times height where
/// both are positive, else the best score read from its `resolution`, its
/// `format_note` and its height as `NNNp`, else 0.
pub open spec fn format_score_spec(f: FormatJson) -> u64 {
    match (number_of(f.width), number_of(f.height)) {
        (Some(w), Some(h)) if w > 0 && h > 0 => sat_mul(w, h),
        _ => {
            let a = score_of_text(text_of(f.resolution));
            let b = score_of_text(text_of(f.format_note));
            let c = match number_of(f.height) {
                Some(h) => resolution_score_spec(decimal(h as nat) + "p"@),
                None => None,
            };
            match max_opt(max_opt(a, b), c) {
                Some(s) => s,
                None => 0,
            }
        },
    }
}

fn score_of_field(f: &Field) -> (r: Option<u64>)
    ensures
        r == score_of_text(text_of(*f)),
{
    match string_field(f) {
        Some(v) => {
            let c = chars_of(v.as_str());
            resolution_score_chars(&c)
        },
        None => None,
    }
}

fn max_option(a: Option<u64>, b: Option<u64>) -> (r: Option<u64>)
    ensures
        r == max_opt(a, b),
{
    match (a, b) {
        (Some(x), Some(y)) => Some(if x >= y {
            x
        } else {
            y
        }),
        (Some(x), None) => Some(x),
        (None, y) => y,
    }
}

pub fn format_score(format: &FormatJson) -> (r: u64)
    ensures
        r == format_score_spec(*format),
{
    if let (Some(w), Some(h)) = (u64_field(&format.width), u64_field(&format.height)) {
        if w > 0 && h > 0 {
            return saturating_mul(w, h);
        }
    }
    let a = score_of_field(&format.resolution);
    let b = score_of_field(&format.format_note);
    let c = match u64_field(&format.height) {
        Some(h) => {
            let mut t = u64_to_chars(h);
            push_str(&mut t, "p");
            resolution_score_chars(&t)
        },
        None => None,
    };
    match max_option(max_option(a, b), c) {
        Some(s) => s,
        None => 0,
    }
}

/// A format that carries a video stream.
pub open spec fn has_real_video_spec(f: FormatJson) -> bool {
    codec_of(f.vcodec) is Some
}

pub fn has_real_video(format: &FormatJson) -> (r: bool)
    ensures
        r == has_real_video_spec(*format),
{
    codec_field(&format.vcodec).is_some()
}

/// Label parts joined by `" · "`.
pub open spec fn join_dot(parts: Seq<Seq<char>>) -> Seq<char>
    decreases parts.len(),
{
    if parts.len() == 0 {
        seq![]
    } else if parts.len() == 1 {
        parts[0]
    } else {
        join_dot(parts.drop_last()) + " · "@ + parts.last()
    }
}

pub open spec fn unstated_resolution() -> Seq<char> {
    "未返回明确分辨率"@
}

/// The present parts among `[first, second, third]` that `keep` accepts.
pub open spec fn kept_parts(
    first: Seq<char>,
    second: Option<Seq<char>>,
    third: Option<Seq<char>>,
    keep: spec_fn(Seq<char>) -> bool,
) -> Seq<Seq<char>> {
    let a = if keep(first) {
        seq![first]
    } else {
        seq![]
    };
    let b = match second {
        Some(v) => if keep(v) {
            a.push(v)
        } else {
            a
        },
        None => a,
    };
    match third {
        Some(v) => if keep(v) {
            b.push(v)
        } else {
            b
        },
        None => b,
    }
}

/// The label of a format: resolution, extension and short codec name.
pub open spec fn format_label_spec(f: FormatJson) -> Option<Seq<char>> {
    let res = match actual_resolution_label_spec(f) {
        Some(r) => r,
        None => unstated_resolution(),
    };
    let parts = kept_parts(
        res,
        text_of(f.ext),
        display_video_codec_spec(codec_of(f.vcodec)),
        |v: Seq<char>| trim(v).len() > 0,
    );
    if parts.len() == 0 {
        None
    } else {
        Some(join_dot(parts))
    }
}

/// Joins `parts` by `" · "`.
fn join_parts(parts: &Vec<Vec<char>>) -> (r: Vec<char>)
    ensures
        r@ == join_dot(parts@.map_values(|p: Vec<char>| p@)),
{
    let ghost v = parts@.map_values(|p: Vec<char>| p@);
    let mut out: Vec<char> = Vec::new();
    let mut i: usize = 0;
    while i < parts.len()
        invariant
            i <= parts@.len(),
            v == parts@.map_values(|p: Vec<char>| p@),
            out@ == join_dot(v.take(i as int)),
        decreases parts@.len() - i,
    {
        assert(v.take(i + 1).drop_last() =~= v.take(i as int));
        if i > 0 {
            push_str(&mut out, " · ");
        } else {
            assert(v.take(0) =~= Seq::<Seq<char>>::empty());
            assert(out@ =~= Seq::<char>::empty());
        }
        push_all(&mut out, &parts[i]);
        proof {
            if i == 0 {
                assert(v.take(1) =~= seq![v[0]]);
                assert(out@ =~= v[0]);
            }
        }
        i = i + 1;
    }
    assert(v.take(parts@.len() as int) =~= v);
    out
}

fn keep_nonblank(v: &Vec<char>) -> (r: bool)
    ensures
        r == (trim(v@).len() > 0),
{
    trimmed(v).len() > 0
}

fn keep_not_none(v: &Vec<char>) -> (r: bool)
    ensures
        r == (lower(v@) != "none"@),
{
    let l = to_lower(v);
    !eq_str(&l, "none")
}

fn opt_chars(o: &Option<String>) -> (r: Option<Vec<char>>)
    ensures
        (match r {
            Some(c) => Some(c@),
            None => None::<Seq<char>>,
        }) == opt_view(*o),
{
    match o {
        Some(s) => Some(chars_of(s.as_str())),
        None => None,
    }
}

pub fn format_label_from_json(format: &FormatJson) -> (r: Option<String>)
    ensures
        opt_view(r) == format_label_spec(*format),
{
    let res = match actual_resolution_label(format) {
        Some(r) => chars_of(r.as_str()),
        None => chars_of("未返回明确分辨率"),
    };
    let ext = opt_chars(&string_field(&format.ext));
    let vcodec = codec_field(&format.vcodec);
    let codec = opt_chars(
        &display_video_codec(
            match &vcodec {
                Some(v) => Some(v.as_str()),
                None => None,
            },
        ),
    );
    let mut parts: Vec<Vec<char>> = Vec::new();
    let ghost keep = |v: Seq<char>| trim(v).len() > 0;
    if keep_nonblank(&res) {
        parts.push(res.clone());
    }
    match &ext {
        Some(e) => if keep_nonblank(e) {
            parts.push(e.clone());
        },
        None => {},
    }
    match &codec {
        Some(c) => if keep_nonblank(c) {
            parts.push(c.clone());
        },
        None => {},
    }
    let ghost expected = format_label_spec(*format);
    proof {
        let want = kept_parts(
            res@,
            text_of(format.ext),
            display_video_codec_spec(codec_of(format.vcodec)),
            keep,
        );
        assert(parts@.map_values(|p: Vec<char>| p@) =~= want);
    }
    if parts.len() == 0 {
        None
    } else {
        let j = join_parts(&parts);
        Some(string_of(&j))
    }
}

/// `filesize`, or `filesize_approx` where `filesize` is absent, as a number.
pub open spec fn filesize_spec(f: FormatJson) -> Option<u64> {
    let v = match f.filesize {
        Field::Missing => f.filesize_approx,
        other => other,
    };
    match v {
        Field::Unsigned(n) => Some(n),
        _ => None,
    }
}

pub open spec fn default_video_label() -> Seq<char> {
    "指定视频流 + 最佳音频"@
}

/// The option that a format offers.
pub open spec fn format_option_spec(f: FormatJson) -> Option<
    (Seq<char>, Seq<char>, Seq<char>, Option<Seq<char>>, Option<Seq<char>>, Option<Seq<char>>, Option<Seq<char>>, Option<u64>),
> {
    match text_of(f.format_id) {
        None => None,
        Some(id) => {
            let res = actual_resolution_label_spec(f);
            let display = match res {
                Some(r) => r,
                None => unstated_resolution(),
            };
            let parts = kept_parts(
                display,
                text_of(f.ext),
                display_video_codec_spec(text_of(f.vcodec)),
                |v: Seq<char>| lower(v) != "none"@,
            );
            let label = if parts.len() == 0 {
                default_video_label()
            } else {
                join_dot(parts)
            };
            Some(
                (
                    id,
                    label,
                    id + "+ba/b"@,
                    text_of(f.ext),
                    res,
                    text_of(f.vcodec),
                    text_of(f.acodec),
                    filesize_spec(f),
                ),
            )
        },
    }
}

/// The view of an option.
pub open spec fn option_view(o: FormatOption) -> (
    Seq<char>,
    Seq<char>,
    Seq<char>,
    Option<Seq<char>>,
    Option<Seq<char>>,
    Option<Seq<char>>,
    Option<Seq<char>>,
    Option<u64>,
) {
    (
        o.id@,
        o.label@,
        o.selector@,
        opt_view(o.ext),
        opt_view(o.resolution),
        opt_view(o.vcodec),
        opt_view(o.acodec),
        o.filesize,
    )
}

fn filesize_of(format: &FormatJson) -> (r: Option<u64>)
    ensures
        r == filesize_spec(*format),
{
    let v = match &format.filesize {
        Field::Missing => &format.filesize_approx,
        other => other,
    };
    match v {
        Field::Unsigned(n) => Some(*n),
        _ => None,
    }
}

pub fn format_from_json(format: &FormatJson) -> (r: Option<FormatOption>)
    ensures
        r matches Some(o) ==> format_option_spec(*format) == Some(option_view(o)),
        r is None ==> format_option_spec(*format) is None,
{
    let id = match string_field(&format.format_id) {
        Some(id) => id,
        None => return None,
    };
    let ext = string_field(&format.ext);
    let resolution = actual_resolution_label(format);
    let vcodec = string_field(&format.vcodec);
    let acodec = string_field(&format.acodec);
    let filesize = filesize_of(format);
    let display = match &resolution {
        Some(r) => chars_of(r.as_str()),
        None => chars_of("未返回明确分辨率"),
    };
    let ext_c = opt_chars(&ext);
    let codec = opt_chars(
        &display_video_codec(
            match &vcodec {
                Some(v) => Some(v.as_str()),
                None => None,
            },
        ),
    );
    let ghost keep = |v: Seq<char>| lower(v) != "none"@;
    let mut parts: Vec<Vec<char>> = Vec::new();
    if keep_not_none(&display) {
        parts.push(display.clone());
    }
    match &ext_c {
        Some(e) => if keep_not_none(e) {
            parts.push(e.clone());
        },
        None => {},
    }
    match &codec {
        Some(c) => if keep_not_none(c) {
            parts.push(c.clone());
        },
        None => {},
    }
    proof {
        let want = kept_parts(
            display@,
            text_of(format.ext),
            display_video_codec_spec(text_of(format.vcodec)),
            keep,
        );
        assert(parts@.map_values(|p: Vec<char>| p@) =~= want);
    }
    let label = if parts.len() == 0 {
        string_from("指定视频流 + 最佳音频")
    } else {
        let j = join_parts(&parts);
        string_of(&j)
    };
    let mut sel = chars_of(id.as_str());
    push_str(&mut sel, "+ba/b");
    let selector = string_of(&sel);
    Some(
        FormatOption {
            id,
            label,
            selector,
            ext,
            resolution,
            vcodec,
            acodec,
            filesize,
        },
    )
}

/// The label of the first option that stands for one real video format:
/// not one of the fixed choices and not audio.
pub open spec fn is_specific_option(o: (
    Seq<char>,
    Seq<char>,
    Seq<char>,
    Option<Seq<char>>,
    Option<Seq<char>>,
    Option<Seq<char>>,
    Option<Seq<char>>,
    Option<u64>,
)) -> bool {
    o.0 != "best"@ && o.0 != "best-mp4"@ && o.0 != "audio"@ && o.4 != Some("audio"@)
}

pub open spec fn best_label_from(opts: Seq<FormatOption>, i: nat) -> Option<Seq<char>>
    decreases opts.len() - i,
{
    if i >= opts.len() {
        None
    } else if is_specific_option(option_view(opts[i as int])) {
        Some(opts[i as int].label@)
    } else {
        best_label_from(opts, i + 1)
    }
}

pub fn best_format_label(formats: &[FormatOption]) -> (r: Option<String>)
    ensures
        opt_view(r) == best_label_from(formats@, 0),
{
    let mut i: usize = 0;
    while i < formats.len()
        invariant
            i <= formats@.len(),
            best_label_from(formats@, 0) == best_label_from(formats@, i as nat),
        decreases formats@.len() - i,
    {
        let f = &formats[i];
        let id = chars_of(f.id.as_str());
        let is_audio_res = match &f.resolution {
            Some(r) => {
                let rc = chars_of(r.as_str());
                eq_str(&rc, "audio")
            },
            None => false,
        };
        if !eq_str(&id, "best") && !eq_str(&id, "best-mp4") && !eq_str(&id, "audio")
            && !is_audio_res {
            return Some(f.label.clone());
        }
        i = i + 1;
    }
    None
}

/// `http://` thumbnails are fetched over `https://`.
pub open spec fn thumbnail_url_spec(url: Seq<char>) -> Seq<char> {
    if starts_with(url, "http://"@) {
        "https://"@ + url.skip(7)
    } else {
        url
    }
}

pub fn normalize_thumbnail_url(url: String) -> (r: String)
    ensures
        r@ == thumbnail_url_spec(url@),
{
    let c = chars_of(url.as_str());
    if has_prefix_str(&c, "http://") {
        proof {
            assert("http://"@.len() == 7) by {
                reveal_strlit("http://");
            }
        }
        let rest = part(&c, 7, c.len());
        let mut out = chars_of("https://");
        push_all(&mut out, &rest);
        assert(rest@ =~= url@.skip(7));
        string_of(&out)
    } else {
        url
    }
}


// ---------------------------------------------------------------------------
// The list of choices
// ---------------------------------------------------------------------------
/// The view of an option as a tuple.
pub type OptionView = (
    Seq<char>,
    Seq<char>,
    Seq<char>,
    Option<Seq<char>>,
    Option<Seq<char>>,
    Option<Seq<char>>,
    Option<Seq<char>>,
    Option<u64>,
);

/// The three choices that are always offered: best quality, MP4 first, and
/// audio only.
pub open spec fn fixed_options() -> Seq<OptionView> {
    seq![
        ("best"@, "最佳画质 + 最佳音频"@, "bv*+ba/b"@, Some("mp4"@), Some("自动"@), None, None, None),
        (
            "best-mp4"@,
            "优先 MP4"@,
            "bv*[ext=mp4]+ba[ext=m4a]/b[ext=mp4]/b"@,
            Some("mp4"@),
            Some("自动"@),
            None,
            None,
            None,
        ),
        ("audio"@, "仅音频"@, "ba"@, None, Some("audio"@), None, None, None),
    ]
}

/// Positions, in order, of the formats among the first `n` that carry video.
pub open spec fn video_positions(fs: Seq<FormatJson>, n: nat) -> Seq<nat>
    decreases n,
{
    if n == 0 || n > fs.len() {
        seq![]
    } else {
        let p = video_positions(fs, (n - 1) as nat);
        if has_real_video_spec(fs[n - 1]) {
            p.push((n - 1) as nat)
        } else {
            p
        }
    }
}

pub open spec fn score_at(fs: Seq<FormatJson>, i: nat) -> u64 {
    format_score_spec(fs[i as int])
}

/// Puts `x` after every position whose score is at least its own.
pub open spec fn insert_by_score(fs: Seq<FormatJson>, s: Seq<nat>, x: nat) -> Seq<nat>
    decreases s.len(),
{
    if s.len() == 0 {
        seq![x]
    } else if score_at(fs, s[0]) < score_at(fs, x) {
        seq![x] + s
    } else {
        seq![s[0]] + insert_by_score(fs, s.drop_first(), x)
    }
}

/// `s` ordered by descending score, positions of equal score in their order
/// in `s` (a stable sort).
pub open spec fn sort_by_score(fs: Seq<FormatJson>, s: Seq<nat>) -> Seq<nat>
    decreases s.len(),
{
    if s.len() == 0 {
        seq![]
    } else {
        insert_by_score(fs, sort_by_score(fs, s.drop_last()), s.last())
    }
}

/// The options of the formats at the positions `order`, skipping those
/// without an id.
pub open spec fn listed_options(fs: Seq<FormatJson>, order: Seq<nat>) -> Seq<OptionView>
    decreases order.len(),
{
    if order.len() == 0 {
        seq![]
    } else {
        let prev = listed_options(fs, order.drop_last());
        match format_option_spec(fs[order.last() as int]) {
            Some(o) => prev.push(o),
            None => prev,
        }
    }
}

/// The first `n` elements, or all of them.
pub open spec fn take_up_to<A>(s: Seq<A>, n: nat) -> Seq<A> {
    if s.len() <= n {
        s
    } else {
        s.take(n as int)
    }
}

/// The choices offered for a probed video: the fixed ones, then up to
/// twelve of its video formats from the highest score down.
pub open spec fn format_options_spec(json: MediaJson) -> Seq<OptionView> {
    match json.formats {
        Some(v) => {
            let fs = v@;
            fixed_options() + take_up_to(
                listed_options(fs, sort_by_score(fs, video_positions(fs, fs.len()))),
                12,
            )
        },
        None => fixed_options(),
    }
}

/// Index at which `insert_by_score` puts `x`.
pub open spec fn insert_point(fs: Seq<FormatJson>, s: Seq<nat>, x: nat, p: int) -> bool {
    &&& 0 <= p <= s.len()
    &&& forall|t: int| 0 <= t < p ==> score_at(fs, #[trigger] s[t]) >= score_at(fs, x)
    &&& p < s.len() ==> score_at(fs, s[p]) < score_at(fs, x)
}

proof fn lemma_insert_by_score(fs: Seq<FormatJson>, s: Seq<nat>, x: nat, p: int)
    requires
        insert_point(fs, s, x, p),
    ensures
        insert_by_score(fs, s, x) == s.insert(p, x),
    decreases s.len(),
{
    if s.len() == 0 {
        assert(s.insert(p, x) =~= seq![x]);
    } else if score_at(fs, s[0]) < score_at(fs, x) {
        assert(p == 0);
        assert(s.insert(p, x) =~= seq![x] + s);
    } else {
        assert(p > 0);
        let t = s.drop_first();
        assert(insert_point(fs, t, x, p - 1)) by {
            assert forall|k: int| 0 <= k < p - 1 implies score_at(fs, #[trigger] t[k]) >= score_at(fs, x) by {
                assert(t[k] == s[k + 1]);
            }
        }
        lemma_insert_by_score(fs, t, x, p - 1);
        assert(s.insert(p, x) =~= seq![s[0]] + t.insert(p - 1, x));
    }
}

fn option_of(id: &str, label: &str, selector: &str, ext: Option<&str>, resolution: &str) -> (r: FormatOption)
    ensures
        option_view(r) == (
            id@,
            label@,
            selector@,
            opt_str_view(ext),
            Some(resolution@),
            None::<Seq<char>>,
            None::<Seq<char>>,
            None::<u64>,
        ),
{
    FormatOption {
        id: string_from(id),
        label: string_from(label),
        selector: string_from(selector),
        ext: match ext {
            Some(e) => Some(string_from(e)),
            None => None,
        },
        resolution: Some(string_from(resolution)),
        vcodec: None,
        acodec: None,
        filesize: None,
    }
}

pub fn build_format_options(json: &MediaJson) -> (r: Vec<FormatOption>)
    ensures
        r@.map_values(|o: FormatOption| option_view(o)) == format_options_spec(*json),
{
    let mut options: Vec<FormatOption> = Vec::new();
    options.push(option_of("best", "最佳画质 + 最佳音频", "bv*+ba/b", Some("mp4"), "自动"));
    options.push(
        option_of(
            "best-mp4",
            "优先 MP4",
            "bv*[ext=mp4]+ba[ext=m4a]/b[ext=mp4]/b",
            Some("mp4"),
            "自动",
        ),
    );
    options.push(option_of("audio", "仅音频", "ba", None, "audio"));
    assert(options@.map_values(|o: FormatOption| option_view(o)) =~= fixed_options());
    let formats = match &json.formats {
        Some(f) => f,
        None => return options,
    };
    let ghost fs = formats@;
    // positions of the video formats, with their scores
    let mut vids: Vec<usize> = Vec::new();
    let mut scores: Vec<u64> = Vec::new();
    let mut n: usize = 0;
    while n < formats.len()
        invariant
            n <= formats@.len(),
            fs == formats@,
            vids@.len() == scores@.len(),
            vids@.map_values(|v: usize| v as nat) == video_positions(fs, n as nat),
            forall|t: int| 0 <= t < vids@.len() ==> vids@[t] < n,
            forall|t: int| 0 <= t < vids@.len() ==> #[trigger] scores@[t] == score_at(fs, vids@[t] as nat),
        decreases formats@.len() - n,
    {
        if has_real_video(&formats[n]) {
            vids.push(n);
            scores.push(format_score(&formats[n]));
        }
        proof {
            let p = video_positions(fs, n as nat);
            assert(video_positions(fs, (n + 1) as nat) == (if has_real_video_spec(fs[n as int]) {
                p.push(n as nat)
            } else {
                p
            }));
        }
        assert(vids@.map_values(|v: usize| v as nat) =~= video_positions(fs, (n + 1) as nat));
        n = n + 1;
    }
    let ghost vp = video_positions(fs, fs.len());
    // stable insertion sort of the video positions by descending score
    let mut order: Vec<usize> = Vec::new();
    let mut order_scores: Vec<u64> = Vec::new();
    let mut k: usize = 0;
    while k < vids.len()
        invariant
            k <= vids@.len() == scores@.len(),
            fs == formats@,
            vids@.map_values(|v: usize| v as nat) == vp,
            forall|t: int| 0 <= t < vids@.len() ==> vids@[t] < fs.len(),
            forall|t: int| 0 <= t < vids@.len() ==> #[trigger] scores@[t] == score_at(fs, vids@[t] as nat),
            order@.len() == order_scores@.len(),
            order@.map_values(|v: usize| v as nat) == sort_by_score(fs, vp.take(k as int)),
            forall|t: int| 0 <= t < order@.len() ==> order@[t] < fs.len(),
            forall|t: int| 0 <= t < order@.len() ==> #[trigger] order_scores@[t] == score_at(fs, order@[t] as nat),
        decreases vids@.len() - k,
    {
        let x = vids[k];
        let xs = scores[k];
        let mut p: usize = 0;
        while p < order.len() && order_scores[p] >= xs
            invariant
                p <= order@.len() == order_scores@.len(),
                forall|t: int| 0 <= t < order@.len() ==> #[trigger] order_scores@[t] == score_at(fs, order@[t] as nat),
                xs == score_at(fs, x as nat),
                forall|t: int| 0 <= t < p ==> score_at(fs, #[trigger] order@[t] as nat) >= score_at(fs, x as nat),
            decreases order@.len() - p,
        {
            p = p + 1;
        }
        let ghost before = order@.map_values(|v: usize| v as nat);
        proof {
            assert(insert_point(fs, before, x as nat, p as int)) by {
                assert forall|t: int| 0 <= t < p implies score_at(fs, #[trigger] before[t]) >= score_at(fs, x as nat) by {
                    assert(before[t] == order@[t] as nat);
                }
                if p < before.len() {
                    assert(before[p as int] == order@[p as int] as nat);
                }
            }
            lemma_insert_by_score(fs, before, x as nat, p as int);
            assert(vp.take(k + 1).drop_last() =~= vp.take(k as int));
            assert(vp.take(k + 1).last() == x as nat);
        }
        order.insert(p, x);
        order_scores.insert(p, xs);
        assert(order@.map_values(|v: usize| v as nat) =~= before.insert(p as int, x as nat));
        k = k + 1;
    }
    assert(vp.take(vids@.len() as int) =~= vp);
    let ghost sorted = sort_by_score(fs, vp);
    // the options of the sorted formats, at most twelve
    let mut listed: usize = 0;
    let mut t: usize = 0;
    let ghost full = listed_options(fs, sorted);
    while t < order.len() && listed < 12
        invariant
            t <= order@.len(),
            fs == formats@,
            order@.map_values(|v: usize| v as nat) == sorted,
            forall|q: int| 0 <= q < order@.len() ==> order@[q] < fs.len(),
            listed <= 12,
            listed == listed_options(fs, sorted.take(t as int)).len(),
            options@.len() == 3 + listed,
            options@.map_values(|o: FormatOption| option_view(o)) == fixed_options() + listed_options(
                fs,
                sorted.take(t as int),
            ),
        decreases order@.len() - t,
    {
        let idx = order[t];
        let ghost prev = listed_options(fs, sorted.take(t as int));
        assert(sorted.take(t + 1).drop_last() =~= sorted.take(t as int));
        assert(sorted.take(t + 1).last() == idx as nat);
        let ghost before_opts = options@;
        assert(listed_options(fs, sorted.take(t + 1)) == (match format_option_spec(fs[idx as int]) {
            Some(o) => prev.push(o),
            None => prev,
        }));
        match format_from_json(&formats[idx]) {
            Some(o) => {
                options.push(o);
                listed = listed + 1;
                assert(options@ == before_opts.push(o));
                assert(options@.map_values(|o: FormatOption| option_view(o)) =~= before_opts.map_values(|o: FormatOption| option_view(o)).push(option_view(o)));
            },
            None => {},
        }
        assert(options@.map_values(|o: FormatOption| option_view(o)) =~= fixed_options()
            + listed_options(fs, sorted.take(t + 1)));
        t = t + 1;
    }
    proof {
        lemma_listed_prefix(fs, sorted, t as nat);
        if t == order@.len() {
            assert(sorted.take(t as int) =~= sorted);
        }
    }
    options
}

/// Listing a longer prefix only appends; once twelve are listed, the first
/// twelve stay.
proof fn lemma_listed_prefix(fs: Seq<FormatJson>, order: Seq<nat>, t: nat)
    requires
        t <= order.len(),
    ensures
        listed_options(fs, order.take(t as int)).len() <= listed_options(fs, order).len(),
        listed_options(fs, order).take(listed_options(fs, order.take(t as int)).len() as int)
            == listed_options(fs, order.take(t as int)),
    decreases order.len() - t,
{
    if t < order.len() {
        lemma_listed_prefix(fs, order, t + 1);
        assert(order.take((t + 1) as int).drop_last() =~= order.take(t as int));
        let a = listed_options(fs, order.take(t as int));
        let b = listed_options(fs, order.take((t + 1) as int));
        assert(b.take(a.len() as int) =~= a);
        assert(listed_options(fs, order).take(a.len() as int) =~= listed_options(fs, order).take(b.len() as int).take(a.len() as int));
    } else {
        assert(order.take(t as int) =~= order);
    }
}


// ---------------------------------------------------------------------------
// The label of the best format
// ---------------------------------------------------------------------------
/// Position of the first format with video from `i` on.
pub open spec fn first_video_from(fs: Seq<FormatJson>, i: nat) -> Option<nat>
    decreases fs.len() - i,
{
    if i >= fs.len() {
        None
    } else if has_real_video_spec(fs[i as int]) {
        Some(i)
    } else {
        first_video_from(fs, i + 1)
    }
}

/// Position of the format with video of the highest score among the first
/// `n`; of several with that score, the last.
pub open spec fn best_video_among(fs: Seq<FormatJson>, n: nat) -> Option<nat>
    decreases n,
{
    if n == 0 || n > fs.len() {
        None
    } else {
        let prev = best_video_among(fs, (n - 1) as nat);
        if has_real_video_spec(fs[n - 1]) {
            match prev {
                Some(p) => if score_at(fs, (n - 1) as nat) >= score_at(fs, p) {
                    Some((n - 1) as nat)
                } else {
                    prev
                },
                None => Some((n - 1) as nat),
            }
        } else {
            prev
        }
    }
}

pub open spec fn label_at(fs: Seq<FormatJson>, pos: Option<nat>) -> Option<Seq<char>> {
    match pos {
        Some(p) => format_label_spec(fs[p as int]),
        None => None,
    }
}

/// The label of the best format of a probed video: the first requested
/// format with video, else the video itself, else its best-scored format
/// with video, else the first specific option offered.
pub open spec fn best_label_spec(json: MediaJson, options: Seq<FormatOption>) -> Option<Seq<char>> {
    let a = match json.requested_formats {
        Some(v) => label_at(v@, first_video_from(v@, 0)),
        None => None,
    };
    let b = if has_real_video_spec(json.top) {
        format_label_spec(json.top)
    } else {
        None
    };
    let c = match json.formats {
        Some(v) => label_at(v@, best_video_among(v@, v@.len())),
        None => None,
    };
    if a is Some {
        a
    } else if b is Some {
        b
    } else if c is Some {
        c
    } else {
        best_label_from(options, 0)
    }
}

fn first_video(fs: &Vec<FormatJson>) -> (r: Option<usize>)
    ensures
        (match r {
            Some(p) => Some(p as nat),
            None => None::<nat>,
        }) == first_video_from(fs@, 0),
        r matches Some(p) ==> p < fs@.len(),
{
    let mut i: usize = 0;
    while i < fs.len()
        invariant
            i <= fs@.len(),
            first_video_from(fs@, 0) == first_video_from(fs@, i as nat),
        decreases fs@.len() - i,
    {
        if has_real_video(&fs[i]) {
            return Some(i);
        }
        i = i + 1;
    }
    None
}

fn best_video(fs: &Vec<FormatJson>) -> (r: Option<usize>)
    ensures
        (match r {
            Some(p) => Some(p as nat),
            None => None::<nat>,
        }) == best_video_among(fs@, fs@.len()),
        r matches Some(p) ==> p < fs@.len(),
{
    let mut best: Option<usize> = None;
    let mut best_score: u64 = 0;
    let mut n: usize = 0;
    while n < fs.len()
        invariant
            n <= fs@.len(),
            (match best {
                Some(p) => Some(p as nat),
                None => None::<nat>,
            }) == best_video_among(fs@, n as nat),
            best matches Some(p) ==> p < n && best_score == score_at(fs@, p as nat),
        decreases fs@.len() - n,
    {
        if has_real_video(&fs[n]) {
            let sc = format_score(&fs[n]);
            match best {
                Some(_) => {
                    if sc >= best_score {
                        best = Some(n);
                        best_score = sc;
                    }
                },
                None => {
                    best = Some(n);
                    best_score = sc;
                },
            }
        }
        n = n + 1;
    }
    best
}

pub fn best_format_label_from_json(json: &MediaJson, formats: &[FormatOption]) -> (r: Option<
    String,
>)
    ensures
        opt_view(r) == best_label_spec(*json, formats@),
{
    if let Some(requested) = &json.requested_formats {
        if let Some(p) = first_video(requested) {
            if let Some(label) = format_label_from_json(&requested[p]) {
                return Some(label);
            }
        }
    }
    if has_real_video(&json.top) {
        if let Some(label) = format_label_from_json(&json.top) {
            return Some(label);
        }
    }
    if let Some(items) = &json.formats {
        if let Some(p) = best_video(items) {
            if let Some(label) = format_label_from_json(&items[p]) {
                return Some(label);
            }
        }
    }
    best_format_label(formats)
}


/// The thumbnail of a video: its `thumbnail`, else the first `url` among its
/// `thumbnails`, fetched over `https://`.
pub open spec fn first_url_from(items: Seq<Field>, i: nat) -> Option<Seq<char>>
    decreases items.len() - i,
{
    if i >= items.len() {
        None
    } else {
        match text_of(items[i as int]) {
            Some(u) => Some(u),
            None => first_url_from(items, i + 1),
        }
    }
}

pub open spec fn thumbnail_spec(thumbnail: Field, thumbnail_urls: Option<Vec<Field>>) -> Option<Seq<char>> {
    let raw = match text_of(thumbnail) {
        Some(t) => Some(t),
        None => match thumbnail_urls {
            Some(v) => first_url_from(v@, 0),
            None => None,
        },
    };
    match raw {
        Some(u) => Some(thumbnail_url_spec(u)),
        None => None,
    }
}

/// `thumbnail_urls` holds the `url` of each item of `thumbnails`, where that
/// key is an array.
pub fn thumbnail_url(thumbnail: &Field, thumbnail_urls: &Option<Vec<Field>>) -> (r: Option<String>)
    ensures
        opt_view(r) == thumbnail_spec(*thumbnail, *thumbnail_urls),
{
    let raw = match string_field(thumbnail) {
        Some(t) => Some(t),
        None => match thumbnail_urls {
            Some(v) => {
                let mut found: Option<String> = None;
                let mut i: usize = 0;
                while i < v.len()
                    invariant
                        i <= v@.len(),
                        found is None,
                        text_of(*thumbnail) is None,
                        *thumbnail_urls == Some(*v),
                        first_url_from(v@, 0) == first_url_from(v@, i as nat),
                    decreases v@.len() - i,
                {
                    match string_field(&v[i]) {
                        Some(u) => {
                            return Some(normalize_thumbnail_url(u));
                        },
                        None => {},
                    }
                    i = i + 1;
                }
                found
            },
            None => None,
        },
    };
    match raw {
        Some(u) => Some(normalize_thumbnail_url(u)),
        None => None,
    }
}

} // verus!
