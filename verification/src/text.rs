//! Character-sequence primitives: whitespace trimming, ASCII case folding,
//! prefix and substring search, splitting and decimal numbers.
//!
//! Every public string function of the library works on the `Seq<char>`
//! view of its arguments; the executable helpers here work on `[char]`.
use vstd::prelude::*;

verus! {

/// `String::push` appends one character at the end of the string: its
/// characters afterwards are the former ones followed by `ch`.
pub assume_specification[ String::push ](s: &mut String, ch: char)
    ensures
        final(s)@ == old(s)@.push(ch),
;

// ---------------------------------------------------------------------------
// Character classes
// ---------------------------------------------------------------------------
/// Unicode `White_Space`, as `char::is_whitespace` decides it.
pub open spec fn is_ws(c: char) -> bool {
    ||| ('\u{9}' <= c && c <= '\u{d}')
    ||| c == ' '
    ||| c == '\u{85}'
    ||| c == '\u{a0}'
    ||| c == '\u{1680}'
    ||| ('\u{2000}' <= c && c <= '\u{200a}')
    ||| c == '\u{2028}'
    ||| c == '\u{2029}'
    ||| c == '\u{202f}'
    ||| c == '\u{205f}'
    ||| c == '\u{3000}'
}

pub fn is_whitespace(c: char) -> (r: bool)
    ensures
        r == is_ws(c),
{
    ('\u{9}' <= c && c <= '\u{d}') || c == ' ' || c == '\u{85}' || c == '\u{a0}' || c == '\u{1680}'
        || ('\u{2000}' <= c && c <= '\u{200a}') || c == '\u{2028}' || c == '\u{2029}' || c
        == '\u{202f}' || c == '\u{205f}' || c == '\u{3000}'
}

pub open spec fn is_digit(c: char) -> bool {
    '0' <= c && c <= '9'
}

pub open spec fn is_upper(c: char) -> bool {
    'A' <= c && c <= 'Z'
}

pub open spec fn is_lower(c: char) -> bool {
    'a' <= c && c <= 'z'
}

pub open spec fn is_alnum(c: char) -> bool {
    is_digit(c) || is_upper(c) || is_lower(c)
}

pub fn is_ascii_digit(c: char) -> (r: bool)
    ensures
        r == is_digit(c),
{
    '0' <= c && c <= '9'
}

pub fn is_ascii_alphanumeric(c: char) -> (r: bool)
    ensures
        r == is_alnum(c),
{
    ('0' <= c && c <= '9') || ('A' <= c && c <= 'Z') || ('a' <= c && c <= 'z')
}

pub fn is_ascii_uppercase(c: char) -> (r: bool)
    ensures
        r == is_upper(c),
{
    'A' <= c && c <= 'Z'
}

/// `char::to_ascii_lowercase`.
pub open spec fn lower_char(c: char) -> char {
    if is_upper(c) {
        ((c as u32) + 32) as char
    } else {
        c
    }
}

/// `char::to_ascii_uppercase`.
pub open spec fn upper_char(c: char) -> char {
    if is_lower(c) {
        ((c as u32) - 32) as char
    } else {
        c
    }
}

pub fn to_lower_char(c: char) -> (r: char)
    ensures
        r == lower_char(c),
{
    if 'A' <= c && c <= 'Z' {
        let v: u8 = (c as u8) + 32;
        v as char
    } else {
        c
    }
}

pub fn to_upper_char(c: char) -> (r: char)
    ensures
        r == upper_char(c),
{
    if 'a' <= c && c <= 'z' {
        let v: u8 = (c as u8) - 32;
        v as char
    } else {
        c
    }
}

/// `str::to_ascii_lowercase`.
pub open spec fn lower(s: Seq<char>) -> Seq<char> {
    Seq::new(s.len(), |i: int| lower_char(s[i]))
}

/// `str::to_ascii_uppercase`.
pub open spec fn upper(s: Seq<char>) -> Seq<char> {
    Seq::new(s.len(), |i: int| upper_char(s[i]))
}

pub fn to_lower(s: &[char]) -> (r: Vec<char>)
    ensures
        r@ == lower(s@),
{
    let mut r: Vec<char> = Vec::new();
    let mut i: usize = 0;
    while i < s.len()
        invariant
            i <= s.len(),
            r@ =~= lower(s@).take(i as int),
        decreases s.len() - i,
    {
        r.push(to_lower_char(s[i]));
        i = i + 1;
    }
    r
}

pub fn to_upper(s: &[char]) -> (r: Vec<char>)
    ensures
        r@ == upper(s@),
{
    let mut r: Vec<char> = Vec::new();
    let mut i: usize = 0;
    while i < s.len()
        invariant
            i <= s.len(),
            r@ =~= upper(s@).take(i as int),
        decreases s.len() - i,
    {
        r.push(to_upper_char(s[i]));
        i = i + 1;
    }
    r
}

// ---------------------------------------------------------------------------
// Conversions between `str`/`String` and `[char]`
// ---------------------------------------------------------------------------
/// The characters of `s`, in order.
pub fn chars_of(s: &str) -> (out: Vec<char>)
    ensures
        out@ == s@,
{
    let mut out: Vec<char> = Vec::new();
    for c in it: s.chars()
        invariant
            out@ == it.seq().take(it.index() as int),
    {
        out.push(c);
    }
    out
}

/// A `String` holding exactly the characters of `cs`.
pub fn string_of(cs: &[char]) -> (out: String)
    ensures
        out@ == cs@,
{
    let mut out = String::new();
    let mut i: usize = 0;
    while i < cs.len()
        invariant
            i <= cs.len(),
            out@ == cs@.take(i as int),
        decreases cs.len() - i,
    {
        out.push(cs[i]);
        i = i + 1;
        assert(out@ =~= cs@.take(i as int));
    }
    assert(cs@.take(cs.len() as int) =~= cs@);
    out
}

/// A `String` holding the characters of a literal.
pub fn string_from(s: &str) -> (out: String)
    ensures
        out@ == s@,
{
    s.to_owned()
}

/// The characters `s[from..to]`.
pub fn part(s: &[char], from: usize, to: usize) -> (r: Vec<char>)
    requires
        from <= to <= s.len(),
    ensures
        r@ == s@.subrange(from as int, to as int),
{
    let mut r: Vec<char> = Vec::new();
    let mut i: usize = from;
    while i < to
        invariant
            from <= i <= to <= s.len(),
            r@ =~= s@.subrange(from as int, i as int),
        decreases to - i,
    {
        r.push(s[i]);
        i = i + 1;
    }
    r
}

/// `a ++ b`.
pub fn concat(a: &[char], b: &[char]) -> (r: Vec<char>)
    ensures
        r@ == a@ + b@,
{
    let mut r: Vec<char> = Vec::new();
    let mut i: usize = 0;
    while i < a.len()
        invariant
            i <= a.len(),
            r@ =~= a@.take(i as int),
        decreases a.len() - i,
    {
        r.push(a[i]);
        i = i + 1;
    }
    let mut j: usize = 0;
    while j < b.len()
        invariant
            j <= b.len(),
            a.len() == i,
            r@ =~= a@ + b@.take(j as int),
        decreases b.len() - j,
    {
        r.push(b[j]);
        j = j + 1;
    }
    assert(b@.take(b.len() as int) =~= b@);
    r
}

/// Appends the characters of `b` to `r`.
pub fn push_all(r: &mut Vec<char>, b: &[char])
    ensures
        final(r)@ == old(r)@ + b@,
{
    let mut j: usize = 0;
    while j < b.len()
        invariant
            j <= b.len(),
            r@ =~= old(r)@ + b@.take(j as int),
        decreases b.len() - j,
    {
        r.push(b[j]);
        j = j + 1;
    }
    assert(b@.take(b.len() as int) =~= b@);
}

/// Appends the characters of a literal to `r`.
pub fn push_str(r: &mut Vec<char>, b: &str)
    ensures
        final(r)@ == old(r)@ + b@,
{
    let cs = chars_of(b);
    push_all(r, &cs);
}

/// `a == b` on character sequences.
pub fn seq_eq(a: &[char], b: &[char]) -> (r: bool)
    ensures
        r == (a@ == b@),
{
    if a.len() != b.len() {
        return false;
    }
    let mut i: usize = 0;
    while i < a.len()
        invariant
            i <= a.len() == b.len(),
            forall|k: int| 0 <= k < i ==> a@[k] == b@[k],
        decreases a.len() - i,
    {
        if a[i] != b[i] {
            return false;
        }
        i = i + 1;
    }
    assert(a@ =~= b@);
    true
}

/// `a == lit` for a literal.
pub fn eq_str(a: &[char], lit: &str) -> (r: bool)
    ensures
        r == (a@ == lit@),
{
    let b = chars_of(lit);
    seq_eq(a, &b)
}

// ---------------------------------------------------------------------------
// Trimming
// ---------------------------------------------------------------------------
/// `str::trim_start`.
pub open spec fn trim_start(s: Seq<char>) -> Seq<char>
    decreases s.len(),
{
    if s.len() > 0 && is_ws(s[0]) {
        trim_start(s.drop_first())
    } else {
        s
    }
}

/// `str::trim_end`.
pub open spec fn trim_end(s: Seq<char>) -> Seq<char>
    decreases s.len(),
{
    if s.len() > 0 && is_ws(s.last()) {
        trim_end(s.drop_last())
    } else {
        s
    }
}

/// `str::trim`.
pub open spec fn trim(s: Seq<char>) -> Seq<char> {
    trim_end(trim_start(s))
}

/// `str::trim_start_matches(c)` for a single character.
pub open spec fn strip_start_all(s: Seq<char>, c: char) -> Seq<char>
    decreases s.len(),
{
    if s.len() > 0 && s[0] == c {
        strip_start_all(s.drop_first(), c)
    } else {
        s
    }
}

/// `str::trim_end_matches(c)` for a single character.
pub open spec fn strip_end_all(s: Seq<char>, c: char) -> Seq<char>
    decreases s.len(),
{
    if s.len() > 0 && s.last() == c {
        strip_end_all(s.drop_last(), c)
    } else {
        s
    }
}

/// `str::trim_matches(c)` for a single character.
pub open spec fn strip_all(s: Seq<char>, c: char) -> Seq<char> {
    strip_end_all(strip_start_all(s, c), c)
}

proof fn lemma_skip_step(s: Seq<char>, i: int)
    requires
        0 <= i < s.len(),
    ensures
        s.skip(i).drop_first() == s.skip(i + 1),
        s.skip(i)[0] == s[i],
{
    assert(s.skip(i).drop_first() =~= s.skip(i + 1));
}

proof fn lemma_take_step(s: Seq<char>, j: int)
    requires
        0 < j <= s.len(),
    ensures
        s.take(j).drop_last() == s.take(j - 1),
        s.take(j).last() == s[j - 1],
{
    assert(s.take(j).drop_last() =~= s.take(j - 1));
}

/// Index of the first character of `s[from..]` that is not whitespace,
/// or `s.len()`; `trim_start(s[from..])` starts there.
pub fn skip_ws(s: &[char], from: usize) -> (i: usize)
    requires
        from <= s.len(),
    ensures
        from <= i <= s.len(),
        trim_start(s@.skip(from as int)) == s@.skip(i as int),
        forall|k: int| from <= k < i ==> is_ws(#[trigger] s@[k]),
        i < s.len() ==> !is_ws(s@[i as int]),
{
    let mut i = from;
    while i < s.len() && is_whitespace(s[i])
        invariant
            from <= i <= s.len(),
            trim_start(s@.skip(from as int)) == trim_start(s@.skip(i as int)),
            forall|k: int| from <= k < i ==> is_ws(#[trigger] s@[k]),
        decreases s.len() - i,
    {
        proof {
            lemma_skip_step(s@, i as int);
        }
        i = i + 1;
    }
    proof {
        if i == s.len() {
            assert(s@.skip(i as int).len() == 0);
        } else {
            lemma_skip_step(s@, i as int);
        }
    }
    i
}

/// End (exclusive) of `trim_end(s[from..to])`.
pub fn back_ws(s: &[char], from: usize, to: usize) -> (j: usize)
    requires
        from <= to <= s.len(),
    ensures
        from <= j <= to,
        trim_end(s@.subrange(from as int, to as int)) == s@.subrange(from as int, j as int),
        forall|k: int| j <= k < to ==> is_ws(#[trigger] s@[k]),
        j > from ==> !is_ws(s@[j - 1]),
{
    let mut j = to;
    while j > from && is_whitespace(s[j - 1])
        invariant
            from <= j <= to <= s.len(),
            trim_end(s@.subrange(from as int, to as int)) == trim_end(
                s@.subrange(from as int, j as int),
            ),
            forall|k: int| j <= k < to ==> is_ws(#[trigger] s@[k]),
        decreases j,
    {
        proof {
            let t = s@.subrange(from as int, j as int);
            assert(t.drop_last() =~= s@.subrange(from as int, j - 1));
        }
        j = j - 1;
    }
    j
}

/// Bounds `(a, b)` with `s[a..b] == trim(s)`.
pub fn trim_bounds(s: &[char]) -> (r: (usize, usize))
    ensures
        r.0 <= r.1 <= s.len(),
        s@.subrange(r.0 as int, r.1 as int) == trim(s@),
{
    let a = skip_ws(s, 0);
    assert(s@.skip(0) =~= s@);
    let b = back_ws(s, a, s.len());
    assert(s@.skip(a as int) =~= s@.subrange(a as int, s.len() as int));
    (a, b)
}

/// `trim(s)`.
pub fn trimmed(s: &[char]) -> (r: Vec<char>)
    ensures
        r@ == trim(s@),
{
    let (a, b) = trim_bounds(s);
    part(s, a, b)
}

/// `trim_start_matches(c)`.
pub fn strip_start_char(s: &[char], c: char) -> (r: Vec<char>)
    ensures
        r@ == strip_start_all(s@, c),
{
    let mut i: usize = 0;
    assert(s@.skip(0) =~= s@);
    while i < s.len() && s[i] == c
        invariant
            i <= s.len(),
            strip_start_all(s@, c) == strip_start_all(s@.skip(i as int), c),
        decreases s.len() - i,
    {
        proof {
            lemma_skip_step(s@, i as int);
        }
        i = i + 1;
    }
    proof {
        if i < s.len() {
            lemma_skip_step(s@, i as int);
        }
    }
    assert(s@.skip(i as int) =~= s@.subrange(i as int, s.len() as int));
    part(s, i, s.len())
}

/// `trim_end_matches(c)`.
pub fn strip_end_char(s: &[char], c: char) -> (r: Vec<char>)
    ensures
        r@ == strip_end_all(s@, c),
{
    let mut j: usize = s.len();
    assert(s@.take(s.len() as int) =~= s@);
    while j > 0 && s[j - 1] == c
        invariant
            j <= s.len(),
            strip_end_all(s@, c) == strip_end_all(s@.take(j as int), c),
        decreases j,
    {
        proof {
            lemma_take_step(s@, j as int);
        }
        j = j - 1;
    }
    proof {
        if j > 0 {
            lemma_take_step(s@, j as int);
        }
    }
    assert(s@.take(j as int) =~= s@.subrange(0, j as int));
    part(s, 0, j)
}

/// `trim_matches(c)`.
pub fn strip_char(s: &[char], c: char) -> (r: Vec<char>)
    ensures
        r@ == strip_all(s@, c),
{
    let a = strip_start_char(s, c);
    strip_end_char(&a, c)
}

// ---------------------------------------------------------------------------
// Prefixes, suffixes and substrings
// ---------------------------------------------------------------------------
pub open spec fn starts_with(s: Seq<char>, p: Seq<char>) -> bool {
    p.len() <= s.len() && s.take(p.len() as int) == p
}

pub open spec fn ends_with(s: Seq<char>, p: Seq<char>) -> bool {
    p.len() <= s.len() && s.skip(s.len() - p.len()) == p
}

/// `p` occurs in `s` at index `i`.
pub open spec fn matches_at(s: Seq<char>, p: Seq<char>, i: int) -> bool {
    0 <= i && i + p.len() <= s.len() && s.subrange(i, i + p.len()) == p
}

/// `str::contains` with a string pattern.
pub open spec fn contains(s: Seq<char>, p: Seq<char>) -> bool {
    exists|i: int| matches_at(s, p, i)
}

/// `str::contains` with a character pattern.
pub open spec fn has_char(s: Seq<char>, c: char) -> bool {
    exists|i: int| 0 <= i < s.len() && s[i] == c
}

/// First index `>= i` at which `p` occurs in `s`.
pub open spec fn find_from(s: Seq<char>, p: Seq<char>, i: nat) -> Option<nat>
    decreases s.len() + 1 - i,
{
    if i + p.len() > s.len() {
        None
    } else if matches_at(s, p, i as int) {
        Some(i)
    } else {
        find_from(s, p, i + 1)
    }
}

/// `str::find` with a string pattern.
pub open spec fn find(s: Seq<char>, p: Seq<char>) -> Option<nat> {
    find_from(s, p, 0)
}

/// Last index `< i` (as a start) at which `p` occurs in `s`;
/// candidates are `i - 1, i - 2, ..., 0`.
pub open spec fn rfind_before(s: Seq<char>, p: Seq<char>, i: nat) -> Option<nat>
    decreases i,
{
    if i == 0 {
        None
    } else if matches_at(s, p, i - 1) {
        Some((i - 1) as nat)
    } else {
        rfind_before(s, p, (i - 1) as nat)
    }
}

/// `str::rfind` with a string pattern.
pub open spec fn rfind(s: Seq<char>, p: Seq<char>) -> Option<nat> {
    if p.len() > s.len() {
        None
    } else {
        rfind_before(s, p, (s.len() - p.len() + 1) as nat)
    }
}

pub proof fn lemma_find_from(s: Seq<char>, p: Seq<char>, i: nat)
    ensures
        find_from(s, p, i) matches Some(k) ==> i <= k && matches_at(s, p, k as int) && forall|
            j: int,
        | i <= j < k ==> !matches_at(s, p, j),
        find_from(s, p, i) is None ==> forall|j: int| i <= j ==> !matches_at(s, p, j),
    decreases s.len() + 1 - i,
{
    if i + p.len() > s.len() {
    } else if matches_at(s, p, i as int) {
    } else {
        lemma_find_from(s, p, i + 1);
    }
}

pub proof fn lemma_find(s: Seq<char>, p: Seq<char>)
    ensures
        find(s, p) matches Some(k) ==> matches_at(s, p, k as int) && forall|j: int|
            0 <= j < k ==> !matches_at(s, p, j),
        find(s, p) is None <==> !contains(s, p),
{
    lemma_find_from(s, p, 0);
    if let Some(k) = find(s, p) {
        assert(matches_at(s, p, k as int));
    }
}

pub proof fn lemma_rfind_before(s: Seq<char>, p: Seq<char>, i: nat)
    ensures
        rfind_before(s, p, i) matches Some(k) ==> k < i && matches_at(s, p, k as int) && forall|
            j: int,
        | k < j < i ==> !matches_at(s, p, j),
        rfind_before(s, p, i) is None ==> forall|j: int| 0 <= j < i ==> !matches_at(s, p, j),
    decreases i,
{
    if i > 0 {
        lemma_rfind_before(s, p, (i - 1) as nat);
    }
}

pub proof fn lemma_rfind(s: Seq<char>, p: Seq<char>)
    ensures
        rfind(s, p) matches Some(k) ==> matches_at(s, p, k as int) && forall|j: int|
            k < j ==> !matches_at(s, p, j),
        rfind(s, p) is None <==> !contains(s, p),
{
    if p.len() <= s.len() {
        lemma_rfind_before(s, p, (s.len() - p.len() + 1) as nat);
    }
    if let Some(k) = rfind(s, p) {
        assert(matches_at(s, p, k as int));
    }
}

/// Whether `p` occurs in `s` at index `i`.
pub fn match_at(s: &[char], p: &[char], i: usize) -> (r: bool)
    ensures
        r == matches_at(s@, p@, i as int),
{
    if i > s.len() || p.len() > s.len() - i {
        return false;
    }
    let mut k: usize = 0;
    while k < p.len()
        invariant
            i + p.len() <= s.len(),
            k <= p.len(),
            forall|t: int| 0 <= t < k ==> s@[i + t] == p@[t],
        decreases p.len() - k,
    {
        if s[i + k] != p[k] {
            assert(s@.subrange(i as int, i + p.len())[k as int] != p@[k as int]);
            return false;
        }
        k = k + 1;
    }
    assert(s@.subrange(i as int, i + p.len()) =~= p@);
    true
}

/// `str::starts_with`.
pub fn has_prefix(s: &[char], p: &[char]) -> (r: bool)
    ensures
        r == starts_with(s@, p@),
{
    let r = match_at(s, p, 0);
    proof {
        if p@.len() <= s@.len() {
            assert(s@.subrange(0, p@.len() as int) =~= s@.take(p@.len() as int));
        }
    }
    r
}

/// `str::starts_with` with a literal.
pub fn has_prefix_str(s: &[char], p: &str) -> (r: bool)
    ensures
        r == starts_with(s@, p@),
{
    let pc = chars_of(p);
    has_prefix(s, &pc)
}

/// `str::ends_with`.
pub fn has_suffix(s: &[char], p: &[char]) -> (r: bool)
    ensures
        r == ends_with(s@, p@),
{
    if p.len() > s.len() {
        return false;
    }
    let r = match_at(s, p, s.len() - p.len());
    assert(s@.subrange(s.len() - p.len(), s.len() as int) =~= s@.skip(s.len() - p.len()));
    r
}

/// `str::ends_with` with a literal.
pub fn has_suffix_str(s: &[char], p: &str) -> (r: bool)
    ensures
        r == ends_with(s@, p@),
{
    let pc = chars_of(p);
    has_suffix(s, &pc)
}

/// `str::find`.
pub fn find_seq(s: &[char], p: &[char]) -> (r: Option<usize>)
    ensures
        r matches Some(k) ==> find(s@, p@) == Some(k as nat),
        r is None ==> find(s@, p@) is None,
{
    if p.len() > s.len() {
        return None;
    }
    if p.len() == 0 {
        assert(matches_at(s@, p@, 0)) by {
            assert(s@.subrange(0, 0) =~= p@);
        }
        return Some(0);
    }
    let mut i: usize = 0;
    while i <= s.len() - p.len()
        invariant
            0 < p.len() <= s.len(),
            i <= s.len() - p.len() + 1,
            find(s@, p@) == find_from(s@, p@, i as nat),
        decreases s.len() - p.len() + 1 - i,
    {
        if match_at(s, p, i) {
            return Some(i);
        }
        i = i + 1;
    }
    None
}

/// `str::find` with a literal.
pub fn find_str(s: &[char], p: &str) -> (r: Option<usize>)
    ensures
        r matches Some(k) ==> find(s@, p@) == Some(k as nat),
        r is None ==> find(s@, p@) is None,
{
    let pc = chars_of(p);
    find_seq(s, &pc)
}

/// `str::rfind`.
pub fn rfind_seq(s: &[char], p: &[char]) -> (r: Option<usize>)
    ensures
        r matches Some(k) ==> rfind(s@, p@) == Some(k as nat),
        r is None ==> rfind(s@, p@) is None,
{
    if p.len() > s.len() {
        return None;
    }
    if p.len() == 0 {
        assert(matches_at(s@, p@, s.len() as int)) by {
            assert(s@.subrange(s.len() as int, s.len() as int) =~= p@);
        }
        return Some(s.len());
    }
    let mut i: usize = s.len() - p.len() + 1;
    while i > 0
        invariant
            p.len() <= s.len(),
            i <= s.len() - p.len() + 1,
            rfind(s@, p@) == rfind_before(s@, p@, i as nat),
        decreases i,
    {
        if match_at(s, p, i - 1) {
            return Some(i - 1);
        }
        i = i - 1;
    }
    None
}

/// `str::contains`.
pub fn contains_seq(s: &[char], p: &[char]) -> (r: bool)
    ensures
        r == contains(s@, p@),
{
    proof {
        lemma_find(s@, p@);
    }
    find_seq(s, p).is_some()
}

/// `str::contains` with a literal.
pub fn contains_str(s: &[char], p: &str) -> (r: bool)
    ensures
        r == contains(s@, p@),
{
    let pc = chars_of(p);
    contains_seq(s, &pc)
}

/// `str::contains` with a character.
pub fn contains_char(s: &[char], c: char) -> (r: bool)
    ensures
        r == has_char(s@, c),
{
    let mut i: usize = 0;
    while i < s.len()
        invariant
            i <= s.len(),
            forall|k: int| 0 <= k < i ==> s@[k] != c,
        decreases s.len() - i,
    {
        if s[i] == c {
            return true;
        }
        i = i + 1;
    }
    false
}

/// First index of character `c` in `s`.
pub open spec fn find_char(s: Seq<char>, c: char) -> Option<nat> {
    find(s, seq![c])
}

pub proof fn lemma_matches_single(s: Seq<char>, c: char, i: int)
    ensures
        matches_at(s, seq![c], i) <==> (0 <= i < s.len() && s[i] == c),
{
    if 0 <= i < s.len() {
        if s[i] == c {
            assert(s.subrange(i, i + 1) =~= seq![c]);
        } else {
            assert(s.subrange(i, i + 1)[0] != seq![c][0]);
        }
    }
}

/// `str::find` with a character.
pub fn find_ch(s: &[char], c: char) -> (r: Option<usize>)
    ensures
        r matches Some(k) ==> find_char(s@, c) == Some(k as nat) && k < s.len() && s@[k as int]
            == c && forall|j: int| 0 <= j < k ==> s@[j] != c,
        r is None ==> find_char(s@, c) is None && !has_char(s@, c),
{
    let p = vec![c];
    assert(p@ =~= seq![c]);
    let r = find_seq(s, &p);
    proof {
        lemma_find(s@, seq![c]);
        assert forall|j: int| 0 <= j < s.len() implies (matches_at(s@, seq![c], j) <==> s@[j]
            == c) by {
            lemma_matches_single(s@, c, j);
        }
        if let Some(k) = r {
            lemma_matches_single(s@, c, k as int);
        }
    }
    r
}

// ---------------------------------------------------------------------------
// Splitting
// ---------------------------------------------------------------------------
/// `str::split(c)` for a single character.
pub open spec fn split_on(s: Seq<char>, c: char) -> Seq<Seq<char>>
    decreases s.len(),
{
    match find_char(s, c) {
        Some(k) => {
            if k < s.len() {
                seq![s.take(k as int)] + split_on(s.skip((k + 1) as int), c)
            } else {
                seq![s]
            }
        },
        None => seq![s],
    }
}

/// `str::split(c)`.
pub fn split_char(s: &[char], c: char) -> (r: Vec<Vec<char>>)
    ensures
        r@.len() == split_on(s@, c).len(),
        forall|i: int| 0 <= i < r@.len() ==> #[trigger] r@[i]@ == split_on(s@, c)[i],
    decreases s.len(),
{
    match find_ch(s, c) {
        Some(k) => {
            let head = part(s, 0, k);
            let tail = part(s, k + 1, s.len());
            let rest = split_char(&tail, c);
            let mut r: Vec<Vec<char>> = Vec::new();
            r.push(head);
            let mut i: usize = 0;
            assert(tail@ =~= s@.skip(k + 1));
            assert(head@ =~= s@.take(k as int));
            while i < rest.len()
                invariant
                    i <= rest.len(),
                    r@.len() == i + 1,
                    r@[0]@ == s@.take(k as int),
                    forall|t: int| 1 <= t < r@.len() ==> #[trigger] r@[t]@ == rest@[t - 1]@,
                decreases rest.len() - i,
            {
                r.push(rest[i].clone());
                i = i + 1;
            }
            r
        },
        None => {
            let mut r: Vec<Vec<char>> = Vec::new();
            r.push(part(s, 0, s.len()));
            assert(s@.subrange(0, s.len() as int) =~= s@);
            r
        },
    }
}

// ---------------------------------------------------------------------------
// Decimal numbers
// ---------------------------------------------------------------------------
pub open spec fn digit_val(c: char) -> nat {
    (c as u32 - '0' as u32) as nat
}

pub open spec fn all_digits(s: Seq<char>) -> bool {
    forall|i: int| 0 <= i < s.len() ==> is_digit(#[trigger] s[i])
}

/// The value of a string of decimal digits.
pub open spec fn digits_value(s: Seq<char>) -> nat
    decreases s.len(),
{
    if s.len() == 0 {
        0
    } else {
        digits_value(s.drop_last()) * 10 + digit_val(s.last())
    }
}

/// `str::parse::<u64>()`: an optional `+`, then one or more digits, and a
/// value that fits.
pub open spec fn parse_u64(s: Seq<char>) -> Option<u64> {
    let d = if s.len() > 0 && s[0] == '+' {
        s.drop_first()
    } else {
        s
    };
    if d.len() > 0 && all_digits(d) && digits_value(d) <= u64::MAX {
        Some(digits_value(d) as u64)
    } else {
        None
    }
}

pub proof fn lemma_digits_value_push(s: Seq<char>, c: char)
    ensures
        digits_value(s.push(c)) == digits_value(s) * 10 + digit_val(c),
{
    assert(s.push(c).drop_last() =~= s);
}

/// Value of the digit string `s[from..to]`, or `None` where it exceeds
/// `u64::MAX`.
pub fn digits_to_u64(s: &[char], from: usize, to: usize) -> (r: Option<u64>)
    requires
        from <= to <= s.len(),
        all_digits(s@.subrange(from as int, to as int)),
    ensures
        r matches Some(v) ==> v as nat == digits_value(s@.subrange(from as int, to as int)),
        r is None ==> digits_value(s@.subrange(from as int, to as int)) > u64::MAX,
{
    let mut acc: u64 = 0;
    let mut i = from;
    while i < to
        invariant
            from <= i <= to <= s.len(),
            all_digits(s@.subrange(from as int, to as int)),
            acc as nat == digits_value(s@.subrange(from as int, i as int)),
        decreases to - i,
    {
        let c = s[i];
        assert(s@.subrange(from as int, to as int)[i - from] == c);
        let d: u64 = (c as u32 - '0' as u32) as u64;
        proof {
            assert(s@.subrange(from as int, i + 1) =~= s@.subrange(from as int, i as int).push(
                c,
            ));
            lemma_digits_value_push(s@.subrange(from as int, i as int), c);
        }
        if acc > (u64::MAX - d) / 10 {
            proof {
                lemma_digits_value_grows(s@, from as int, i + 1, to as int);
                assert(acc * 10 + d > u64::MAX) by (nonlinear_arith)
                    requires
                        acc > (u64::MAX - d) / 10,
                        d <= 9,
                ;
            }
            return None;
        }
        proof {
            assert(acc * 10 + d <= u64::MAX) by (nonlinear_arith)
                requires
                    acc <= (u64::MAX - d) / 10,
                    d <= 9,
            ;
        }
        acc = acc * 10 + d;
        i = i + 1;
    }
    Some(acc)
}

/// A digit string never has a smaller value than any of its prefixes.
pub proof fn lemma_digits_value_grows(s: Seq<char>, from: int, mid: int, to: int)
    requires
        0 <= from <= mid <= to <= s.len(),
    ensures
        digits_value(s.subrange(from, mid)) <= digits_value(s.subrange(from, to)),
    decreases to - mid,
{
    if mid < to {
        lemma_digits_value_grows(s, from, mid, to - 1);
        assert(s.subrange(from, to).drop_last() =~= s.subrange(from, to - 1));
        let v = digits_value(s.subrange(from, to - 1));
        assert(v <= v * 10 + digit_val(s.subrange(from, to).last())) by (nonlinear_arith);
    }
}

/// `str::parse::<u64>()`.
pub fn parse_u64_chars(s: &[char]) -> (r: Option<u64>)
    ensures
        r == parse_u64(s@),
{
    let from: usize = if s.len() > 0 && s[0] == '+' {
        1
    } else {
        0
    };
    let ghost d = s@.subrange(from as int, s.len() as int);
    proof {
        if from == 1 {
            assert(d =~= s@.drop_first());
        } else {
            assert(d =~= s@);
        }
    }
    if from == s.len() {
        return None;
    }
    let mut i = from;
    while i < s.len()
        invariant
            from <= i <= s.len(),
            d == s@.subrange(from as int, s.len() as int),
            d.len() > 0,
            parse_u64(s@) == (if all_digits(d) && digits_value(d) <= u64::MAX {
                Some(digits_value(d) as u64)
            } else {
                None::<u64>
            }),
            forall|k: int| from <= k < i ==> is_digit(#[trigger] s@[k]),
        decreases s.len() - i,
    {
        if !is_ascii_digit(s[i]) {
            assert(d[i - from] == s@[i as int]);
            assert(!all_digits(d));
            return None;
        }
        i = i + 1;
    }
    assert(all_digits(d)) by {
        assert forall|k: int| 0 <= k < d.len() implies is_digit(#[trigger] d[k]) by {
            assert(d[k] == s@[from + k]);
        }
    }
    digits_to_u64(s, from, s.len())
}

/// Decimal representation of `n` (no sign, no leading zeros).
pub open spec fn decimal(n: nat) -> Seq<char>
    decreases n,
{
    if n < 10 {
        seq![(n + '0' as nat) as char]
    } else {
        decimal(n / 10).push(((n % 10) + '0' as nat) as char)
    }
}

fn digit_char(d: u64) -> (c: char)
    requires
        d < 10,
    ensures
        c == (d + '0' as nat) as char,
{
    let v: u8 = d as u8 + 48;
    v as char
}

/// `u64::to_string`.
pub fn u64_to_chars(n: u64) -> (r: Vec<char>)
    ensures
        r@ == decimal(n as nat),
    decreases n,
{
    if n < 10 {
        let mut r: Vec<char> = Vec::new();
        r.push(digit_char(n));
        assert(r@ =~= decimal(n as nat));
        r
    } else {
        let mut r = u64_to_chars(n / 10);
        r.push(digit_char(n % 10));
        r
    }
}

/// `u64::to_string` into a `String`.
pub fn u64_to_string(n: u64) -> (r: String)
    ensures
        r@ == decimal(n as nat),
{
    let cs = u64_to_chars(n);
    string_of(&cs)
}

} // verus!
