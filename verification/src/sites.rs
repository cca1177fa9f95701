//! Video addresses, sites and titles: checking an address, reading its
//! origin and host, turning playlist entries into addresses, and choosing
//! the title and site shown for a download.
use vstd::prelude::*;
use crate::text::{
    all_digits, chars_of, concat, contains, contains_str, eq_str, find, find_ch, find_char,
    find_str, has_prefix_str, is_alnum, is_ascii_alphanumeric, is_ascii_digit, is_ascii_uppercase,
    is_digit, is_upper, lower, part, push_all, push_str, rfind, rfind_seq, split_char, split_on,
    starts_with, string_from, string_of, to_lower, trim, trimmed, decimal, u64_to_chars,
};
use crate::tools::{opt_view, opt_str_view};
use crate::ffmpeg::{file_stem_spec, file_stem_of};
use crate::formats::{Field, text_of, string_field};

verus! {

/// An address yt-dlp is given starts with `http://` or `https://`.
pub open spec fn is_web_url(url: Seq<char>) -> bool {
    starts_with(url, "http://"@) || starts_with(url, "https://"@)
}

pub fn validate_url(url: &str) -> (r: Result<(), String>)
    ensures
        r is Ok <==> is_web_url(url@),
        r matches Err(e) ==> e@ == "请输入 http:// 或 https:// 开头的视频地址。"@,
{
    let u = chars_of(url);
    if has_prefix_str(&u, "http://") || has_prefix_str(&u, "https://") {
        Ok(())
    } else {
        Err(string_from("请输入 http:// 或 https:// 开头的视频地址。"))
    }
}

/// Scheme and host of an address: everything before the first `/` after
/// `://`.
pub open spec fn url_origin_spec(url: Seq<char>) -> Option<Seq<char>> {
    match find(url, "://"@) {
        Some(k) => {
            let after = k + 3;
            let host_end = match find_char(url.skip(after as int), '/') {
                Some(i) => after + i,
                None => url.len(),
            };
            Some(url.take(host_end as int))
        },
        None => None,
    }
}

spec fn matches_at_three(s: Seq<char>, k: int) -> bool {
    crate::text::matches_at(s, "://"@, k) && k + 3 <= s.len()
}

pub fn url_origin(url: &str) -> (r: Option<String>)
    ensures
        opt_view(r) == url_origin_spec(url@),
{
    let u = chars_of(url);
    proof {
        crate::text::lemma_find(u@, "://"@);
        assert("://"@.len() == 3) by {
            reveal_strlit("://");
        }
    }
    let k = match find_str(&u, "://") {
        Some(k) => k,
        None => return None,
    };
    assert(matches_at_three(u@, k as int));
    assert(k + 3 <= u.len());
    let after = k + 3;
    let rest = part(&u, after, u.len());
    assert(rest@ =~= u@.skip(after as int));
    let host_end = match find_ch(&rest, '/') {
        Some(i) => after + i,
        None => u.len(),
    };
    let o = part(&u, 0, host_end);
    assert(o@ =~= u@.take(host_end as int));
    Some(string_of(&o))
}

/// A site the app names as an example, with a sample address.
#[derive(Debug, Clone)]
pub struct SupportedSiteExample {
    pub name: String,
    pub url: String,
}

/// The example sites: name, sample address, and the word an extractor name
/// must contain.
pub open spec fn site_candidates() -> Seq<(Seq<char>, Seq<char>, Seq<char>)> {
    seq![
        ("Bilibili"@, "https://www.bilibili.com/video/BV1xx411c7mD/"@, "bilibili"@),
        ("YouTube"@, "https://www.youtube.com/watch?v=dQw4w9WgXcQ"@, "youtube"@),
        ("Vimeo"@, "https://vimeo.com/76979871"@, "vimeo"@),
        ("TikTok"@, "https://www.tiktok.com/@example/video/0000000000000000000"@, "tiktok"@),
        ("X / Twitter"@, "https://x.com/example/status/0000000000000000000"@, "twitter"@),
        ("Instagram"@, "https://www.instagram.com/p/C0000000000/"@, "instagram"@),
        ("Twitch"@, "https://www.twitch.tv/videos/0000000000"@, "twitch"@),
        ("Youku"@, "https://v.youku.com/v_show/id_XNDAw0000000.html"@, "youku"@),
        ("Douyin"@, "https://www.douyin.com/video/0000000000000000000"@, "douyin"@),
        (
            "Xiaohongshu"@,
            "https://www.xiaohongshu.com/explore/000000000000000000000000"@,
            "xiaohongshu"@,
        ),
    ]
}

/// Some extractor name, lower-cased, contains `needle`.
pub open spec fn some_extractor_has(extractors: Seq<Seq<char>>, needle: Seq<char>) -> bool {
    exists|i: int| 0 <= i < extractors.len() && contains(lower(extractors[i]), needle)
}

/// The candidates among the first `n` that some extractor matches.
pub open spec fn matched_sites(extractors: Seq<Seq<char>>, n: nat) -> Seq<(Seq<char>, Seq<char>)>
    decreases n,
{
    if n == 0 || n > site_candidates().len() {
        seq![]
    } else {
        let prev = matched_sites(extractors, (n - 1) as nat);
        let c = site_candidates()[n - 1];
        if some_extractor_has(extractors, c.2) {
            prev.push((c.0, c.1))
        } else {
            prev
        }
    }
}

/// Up to six example sites, in the fixed order, that the installed yt-dlp
/// has an extractor for.
pub open spec fn site_examples_spec(extractors: Seq<Seq<char>>) -> Seq<(Seq<char>, Seq<char>)> {
    crate::formats::take_up_to(matched_sites(extractors, 10), 6)
}

fn any_extractor_has(lowered: &Vec<Vec<char>>, needle: &str, ghost_src: Ghost<Seq<Seq<char>>>) -> (r: bool)
    requires
        lowered@.len() == ghost_src@.len(),
        forall|i: int| 0 <= i < lowered@.len() ==> #[trigger] lowered@[i]@ == lower(ghost_src@[i]),
    ensures
        r == some_extractor_has(ghost_src@, needle@),
{
    let mut i: usize = 0;
    while i < lowered.len()
        invariant
            i <= lowered@.len() == ghost_src@.len(),
            forall|k: int| 0 <= k < lowered@.len() ==> #[trigger] lowered@[k]@ == lower(ghost_src@[k]),
            forall|k: int| 0 <= k < i ==> !contains(lower(ghost_src@[k]), needle@),
        decreases lowered@.len() - i,
    {
        if contains_str(&lowered[i], needle) {
            return true;
        }
        i = i + 1;
    }
    false
}

pub open spec fn examples_view(v: Seq<SupportedSiteExample>) -> Seq<(Seq<char>, Seq<char>)> {
    v.map_values(|e: SupportedSiteExample| (e.name@, e.url@))
}

pub fn supported_site_examples(extractors: &[String]) -> (r: Vec<SupportedSiteExample>)
    ensures
        examples_view(r@) == site_examples_spec(extractors@.map_values(|s: String| s@)),
{
    let ghost src = extractors@.map_values(|s: String| s@);
    let mut lowered: Vec<Vec<char>> = Vec::new();
    let mut i: usize = 0;
    while i < extractors.len()
        invariant
            i <= extractors@.len(),
            src == extractors@.map_values(|s: String| s@),
            lowered@.len() == i,
            forall|k: int| 0 <= k < i ==> #[trigger] lowered@[k]@ == lower(src[k]),
        decreases extractors@.len() - i,
    {
        let c = chars_of(extractors[i].as_str());
        lowered.push(crate::text::to_lower(&c));
        i = i + 1;
    }
    let names: [&str; 10] = [
        "Bilibili",
        "YouTube",
        "Vimeo",
        "TikTok",
        "X / Twitter",
        "Instagram",
        "Twitch",
        "Youku",
        "Douyin",
        "Xiaohongshu",
    ];
    let urls: [&str; 10] = [
        "https://www.bilibili.com/video/BV1xx411c7mD/",
        "https://www.youtube.com/watch?v=dQw4w9WgXcQ",
        "https://vimeo.com/76979871",
        "https://www.tiktok.com/@example/video/0000000000000000000",
        "https://x.com/example/status/0000000000000000000",
        "https://www.instagram.com/p/C0000000000/",
        "https://www.twitch.tv/videos/0000000000",
        "https://v.youku.com/v_show/id_XNDAw0000000.html",
        "https://www.douyin.com/video/0000000000000000000",
        "https://www.xiaohongshu.com/explore/000000000000000000000000",
    ];
    let needles: [&str; 10] = [
        "bilibili",
        "youtube",
        "vimeo",
        "tiktok",
        "twitter",
        "instagram",
        "twitch",
        "youku",
        "douyin",
        "xiaohongshu",
    ];
    assert(forall|k: int| 0 <= k < 10 ==> (#[trigger] names@[k])@ == site_candidates()[k].0);
    assert(forall|k: int| 0 <= k < 10 ==> (#[trigger] urls@[k])@ == site_candidates()[k].1);
    assert(forall|k: int| 0 <= k < 10 ==> (#[trigger] needles@[k])@ == site_candidates()[k].2);
    let mut out: Vec<SupportedSiteExample> = Vec::new();
    let mut n: usize = 0;
    while n < 10 && out.len() < 6
        invariant
            n <= 10,
            out@.len() <= 6,
            lowered@.len() == src.len(),
            forall|k: int| 0 <= k < lowered@.len() ==> #[trigger] lowered@[k]@ == lower(src[k]),
            forall|k: int| 0 <= k < 10 ==> (#[trigger] names@[k])@ == site_candidates()[k].0,
            forall|k: int| 0 <= k < 10 ==> (#[trigger] urls@[k])@ == site_candidates()[k].1,
            forall|k: int| 0 <= k < 10 ==> (#[trigger] needles@[k])@ == site_candidates()[k].2,
            examples_view(out@) == matched_sites(src, n as nat),
        decreases 10 - n,
    {
        let ghost prev = examples_view(out@);
        if any_extractor_has(&lowered, needles[n], Ghost(src)) {
            out.push(SupportedSiteExample { name: string_from(names[n]), url: string_from(urls[n]) });
            assert(examples_view(out@) =~= prev.push((names@[n as int]@, urls@[n as int]@)));
        }
        n = n + 1;
    }
    proof {
        lemma_matched_sites_prefix(src, n as nat);
        if out@.len() < 6 {
            assert(n == 10);
        }
    }
    out
}

proof fn lemma_matched_sites_prefix(ex: Seq<Seq<char>>, n: nat)
    requires
        n <= 10,
    ensures
        matched_sites(ex, n).len() <= matched_sites(ex, 10).len(),
        matched_sites(ex, 10).take(matched_sites(ex, n).len() as int) == matched_sites(ex, n),
    decreases 10 - n,
{
    if n < 10 {
        lemma_matched_sites_prefix(ex, n + 1);
        let a = matched_sites(ex, n);
        let b = matched_sites(ex, n + 1);
        assert(b.take(a.len() as int) =~= a);
        assert(matched_sites(ex, 10).take(a.len() as int) =~= matched_sites(ex, 10).take(
            b.len() as int,
        ).take(a.len() as int));
    }
}

// ---------------------------------------------------------------------------
// Sites and titles
// ---------------------------------------------------------------------------
/// A trimmed text, where it is not blank.
pub open spec fn clean_text_spec(value: Seq<char>) -> Option<Seq<char>> {
    if trim(value).len() == 0 {
        None
    } else {
        Some(trim(value))
    }
}

pub fn clean_text(value: &str) -> (r: Option<String>)
    ensures
        opt_view(r) == clean_text_spec(value@),
{
    let c = chars_of(value);
    let t = trimmed(&c);
    if t.len() == 0 {
        None
    } else {
        Some(string_of(&t))
    }
}

fn clean_chars(value: &[char]) -> (r: Option<Vec<char>>)
    ensures
        r matches Some(v) ==> clean_text_spec(value@) == Some(v@),
        r is None ==> clean_text_spec(value@) is None,
{
    let t = trimmed(value);
    if t.len() == 0 {
        None
    } else {
        Some(t)
    }
}

/// A Bilibili video id: `av` and digits, or `BV` and letters and digits, in
/// any case.
pub open spec fn is_bilibili_id_spec(value: Seq<char>) -> bool {
    let l = lower(trim(value));
    if starts_with(l, "av"@) && all_digits(l.skip(2)) {
        l.len() > 2
    } else {
        starts_with(l, "bv"@) && l.len() > 2 && forall|i: int|
            2 <= i < l.len() ==> is_alnum(#[trigger] l[i])
    }
}

pub fn is_bilibili_video_id(value: &str) -> (r: bool)
    ensures
        r == is_bilibili_id_spec(value@),
{
    let c = chars_of(value);
    let t = trimmed(&c);
    let l = to_lower(&t);
    if has_prefix_str(&l, "av") {
        let mut i: usize = 2;
        let mut digits = true;
        proof {
            assert("av"@.len() == 2) by {
                reveal_strlit("av");
            }
        }
        while i < l.len()
            invariant
                2 <= i <= l@.len(),
                digits == (forall|k: int| 2 <= k < i ==> is_digit(#[trigger] l@[k])),
            decreases l@.len() - i,
        {
            if !is_ascii_digit(l[i]) {
                digits = false;
            }
            i = i + 1;
        }
        proof {
            assert(digits == all_digits(l@.skip(2))) by {
                if digits {
                    assert forall|k: int| 0 <= k < l@.skip(2).len() implies is_digit(#[trigger] l@.skip(2)[k]) by {
                        assert(l@.skip(2)[k] == l@[k + 2]);
                    }
                } else {
                    let k = choose|k: int| 2 <= k < l@.len() && !is_digit(#[trigger] l@[k]);
                    assert(l@.skip(2)[k - 2] == l@[k]);
                }
            }
        }
        if digits {
            return l.len() > 2;
        }
    }
    if !has_prefix_str(&l, "bv") || l.len() <= 2 {
        return false;
    }
    let mut j: usize = 2;
    while j < l.len()
        invariant
            2 <= j <= l@.len(),
            l@ == lower(trim(value@)),
            starts_with(l@, "bv"@),
            !(starts_with(l@, "av"@) && all_digits(l@.skip(2))),
            forall|k: int| 2 <= k < j ==> is_alnum(#[trigger] l@[k]),
        decreases l@.len() - j,
    {
        if !is_ascii_alphanumeric(l[j]) {
            return false;
        }
        j = j + 1;
    }
    true
}

/// Text that stands for no real title or site: blank, `undefined`, `null`,
/// `unknown`, `untitled`, `untitled video` (in any case), or a Bilibili id.
pub open spec fn is_placeholder_spec(value: Seq<char>) -> bool {
    let n = lower(trim(value));
    n.len() == 0 || n == "undefined"@ || n == "null"@ || n == "unknown"@ || n == "untitled"@ || n
        == "untitled video"@ || is_bilibili_id_spec(trim(value))
}

pub fn is_placeholder_text(value: &str) -> (r: bool)
    ensures
        r == is_placeholder_spec(value@),
{
    let c = chars_of(value);
    let t = trimmed(&c);
    let n = to_lower(&t);
    if n.len() == 0 || eq_str(&n, "undefined") || eq_str(&n, "null") || eq_str(&n, "unknown")
        || eq_str(&n, "untitled") || eq_str(&n, "untitled video") {
        return true;
    }
    let ts = string_of(&t);
    is_bilibili_video_id(ts.as_str())
}

/// An id-like text: 8 to 24 characters, all ASCII letters, digits, `_` or
/// `-`, with a digit and an upper-case letter among them.
pub open spec fn is_opaque_id_spec(value: Seq<char>) -> bool {
    let v = trim(value);
    8 <= v.len() <= 24 && (forall|i: int|
        0 <= i < v.len() ==> is_alnum(#[trigger] v[i]) || v[i] == '_' || v[i] == '-') && (exists|
        i: int,
    | 0 <= i < v.len() && is_digit(#[trigger] v[i])) && (exists|i: int|
        0 <= i < v.len() && is_upper(#[trigger] v[i]))
}

pub fn is_opaque_id_text(value: &str) -> (r: bool)
    ensures
        r == is_opaque_id_spec(value@),
{
    let c = chars_of(value);
    let v = trimmed(&c);
    if v.len() < 8 || v.len() > 24 {
        return false;
    }
    let mut i: usize = 0;
    let mut ok = true;
    let mut digit = false;
    let mut upper = false;
    while i < v.len()
        invariant
            i <= v@.len(),
            ok == (forall|k: int| 0 <= k < i ==> is_alnum(#[trigger] v@[k]) || v@[k] == '_' || v@[k] == '-'),
            digit == (exists|k: int| 0 <= k < i && is_digit(#[trigger] v@[k])),
            upper == (exists|k: int| 0 <= k < i && is_upper(#[trigger] v@[k])),
        decreases v@.len() - i,
    {
        let ch = v[i];
        if !(is_ascii_alphanumeric(ch) || ch == '_' || ch == '-') {
            ok = false;
        }
        if is_ascii_digit(ch) {
            digit = true;
        }
        if is_ascii_uppercase(ch) {
            upper = true;
        }
        i = i + 1;
    }
    ok && digit && upper
}

/// The title a saved file's name gives: its stem, cut before the last
/// `-BV` where there is one.
pub open spec fn title_from_output_path_spec(path: Seq<char>) -> Option<Seq<char>> {
    match file_stem_spec(path) {
        Some(stem) => match clean_text_spec(stem) {
            Some(s) => match rfind(s, "-BV"@) {
                Some(k) => clean_text_spec(s.take(k as int)),
                None => Some(s),
            },
            None => None,
        },
        None => None,
    }
}

pub fn title_from_output_path(output_path: &str) -> (r: Option<String>)
    ensures
        opt_view(r) == title_from_output_path_spec(output_path@),
{
    let p = chars_of(output_path);
    let stem = match file_stem_of(&p) {
        Some(s) => s,
        None => return None,
    };
    let s = match clean_chars(&stem) {
        Some(s) => s,
        None => return None,
    };
    let bv = chars_of("-BV");
    proof {
        crate::text::lemma_rfind(s@, "-BV"@);
    }
    match rfind_seq(&s, &bv) {
        Some(k) => {
            let head = part(&s, 0, k);
            assert(head@ =~= s@.take(k as int));
            match clean_chars(&head) {
                Some(t) => Some(string_of(&t)),
                None => None,
            }
        },
        None => Some(string_of(&s)),
    }
}

/// The last non-blank `/`-piece of an address, up to its query, trimmed;
/// `待解析视频` where there is none.
pub open spec fn last_nonblank_piece(ps: Seq<Seq<char>>, n: nat) -> Option<Seq<char>>
    decreases n,
{
    if n == 0 || n > ps.len() {
        None
    } else if trim(ps[n - 1]).len() > 0 {
        Some(ps[n - 1])
    } else {
        last_nonblank_piece(ps, (n - 1) as nat)
    }
}

pub open spec fn before_query(s: Seq<char>) -> Seq<char> {
    split_on(s, '?')[0]
}

pub open spec fn title_from_url_spec(url: Seq<char>) -> Seq<char> {
    let ps = split_on(url, '/');
    match last_nonblank_piece(ps, ps.len()) {
        Some(p) => match clean_text_spec(before_query(p)) {
            Some(t) => t,
            None => "待解析视频"@,
        },
        None => "待解析视频"@,
    }
}

proof fn lemma_split_first(s: Seq<char>, c: char)
    ensures
        split_on(s, c).len() >= 1,
        split_on(s, c)[0] == (match find_char(s, c) {
            Some(k) => if k < s.len() {
                s.take(k as int)
            } else {
                s
            },
            None => s,
        }),
{
    reveal_with_fuel(split_on, 1);
}

fn before_query_chars(s: &[char]) -> (r: Vec<char>)
    ensures
        r@ == before_query(s@),
{
    proof {
        lemma_split_first(s@, '?');
    }
    match find_ch(s, '?') {
        Some(k) => {
            let h = part(s, 0, k);
            assert(h@ =~= s@.take(k as int));
            h
        },
        None => part(s, 0, s.len()),
    }
}

pub fn title_from_url(url: &str) -> (r: String)
    ensures
        r@ == title_from_url_spec(url@),
{
    let u = chars_of(url);
    let ps = split_char(&u, '/');
    let ghost sp = split_on(url@, '/');
    let mut n: usize = ps.len();
    while n > 0
        invariant
            n <= ps@.len() == sp.len(),
            sp == split_on(url@, '/'),
            forall|t: int| 0 <= t < ps@.len() ==> #[trigger] ps@[t]@ == sp[t],
            last_nonblank_piece(sp, sp.len()) == last_nonblank_piece(sp, n as nat),
        decreases n,
    {
        let p = &ps[n - 1];
        assert(p@ == sp[n - 1]);
        if trimmed(p).len() > 0 {
            assert(last_nonblank_piece(sp, n as nat) == Some(sp[n - 1]));
            let q = before_query_chars(p);
            assert(q@ == before_query(sp[n - 1]));
            let c = clean_chars(&q);
            let out = match c {
                Some(t) => string_of(&t),
                None => string_from("待解析视频"),
            };
            assert(out@ == title_from_url_spec(url@));
            return out;
        }
        n = n - 1;
    }
    string_from("待解析视频")
}

/// The host of an address, without `www.`; `未知站点` where it is blank.
pub open spec fn site_from_url_spec(url: Seq<char>) -> Seq<char> {
    let without = if starts_with(url, "https://"@) {
        url.skip(8)
    } else if starts_with(url, "http://"@) {
        url.skip(7)
    } else {
        url
    };
    let host = trim(split_on(without, '/')[0]);
    let h = if starts_with(host, "www."@) {
        host.skip(4)
    } else {
        host
    };
    if h.len() == 0 {
        "未知站点"@
    } else {
        h
    }
}

pub fn site_from_url(url: &str) -> (r: String)
    ensures
        r@ == site_from_url_spec(url@),
{
    proof {
        assert("https://"@.len() == 8) by {
            reveal_strlit("https://");
        }
        assert("http://"@.len() == 7) by {
            reveal_strlit("http://");
        }
        assert("www."@.len() == 4) by {
            reveal_strlit("www.");
        }
    }
    let u = chars_of(url);
    let without = if has_prefix_str(&u, "https://") {
        part(&u, 8, u.len())
    } else if has_prefix_str(&u, "http://") {
        part(&u, 7, u.len())
    } else {
        part(&u, 0, u.len())
    };
    proof {
        if starts_with(url@, "https://"@) {
            assert(without@ =~= url@.skip(8));
        } else if starts_with(url@, "http://"@) {
            assert(without@ =~= url@.skip(7));
        } else {
            assert(without@ =~= url@);
        }
        lemma_split_first(without@, '/');
    }
    let first = match find_ch(&without, '/') {
        Some(k) => {
            let h = part(&without, 0, k);
            assert(h@ =~= without@.take(k as int));
            h
        },
        None => without.clone(),
    };
    let host = trimmed(&first);
    let h = if has_prefix_str(&host, "www.") {
        let r = part(&host, 4, host.len());
        assert(r@ =~= host@.skip(4));
        r
    } else {
        host
    };
    if h.len() == 0 {
        string_from("未知站点")
    } else {
        string_of(&h)
    }
}

/// The title shown for a download: the given title where it is a real one,
/// else the title of the saved file, else one read from the address.
pub open spec fn display_title_spec(title: Option<Seq<char>>, url: Seq<char>, output_path: Option<
    Seq<char>,
>) -> Seq<char> {
    let given = match title {
        Some(t) => match clean_text_spec(t) {
            Some(c) => if !is_placeholder_spec(c) {
                Some(c)
            } else {
                None
            },
            None => None,
        },
        None => None,
    };
    match given {
        Some(g) => g,
        None => match output_path {
            Some(p) => match title_from_output_path_spec(p) {
                Some(t) => t,
                None => title_from_url_spec(url),
            },
            None => title_from_url_spec(url),
        },
    }
}

pub fn display_title(title: Option<&str>, url: &str, output_path: Option<&str>) -> (r: String)
    ensures
        r@ == display_title_spec(opt_str_view(title), url@, opt_str_view(output_path)),
{
    if let Some(t) = title {
        if let Some(c) = clean_text(t) {
            if !is_placeholder_text(c.as_str()) {
                return c;
            }
        }
    }
    if let Some(p) = output_path {
        if let Some(t) = title_from_output_path(p) {
            return t;
        }
    }
    title_from_url(url)
}

/// The site shown for a download: the given site where it is a real one,
/// else the host of the address.
pub open spec fn display_site_spec(site: Option<Seq<char>>, url: Seq<char>) -> Seq<char> {
    match site {
        Some(s) => match clean_text_spec(s) {
            Some(c) => if !is_placeholder_spec(c) {
                c
            } else {
                site_from_url_spec(url)
            },
            None => site_from_url_spec(url),
        },
        None => site_from_url_spec(url),
    }
}

pub fn display_site(site: Option<&str>, url: &str) -> (r: String)
    ensures
        r@ == display_site_spec(opt_str_view(site), url@),
{
    if let Some(s) = site {
        if let Some(c) = clean_text(s) {
            if !is_placeholder_text(c.as_str()) {
                return c;
            }
        }
    }
    site_from_url(url)
}

/// The characters of a task id kept in a cache directory name.
pub open spec fn is_cache_char(c: char) -> bool {
    is_alnum(c) || c == '-' || c == '_'
}

pub open spec fn keep_cache_chars(s: Seq<char>) -> Seq<char>
    decreases s.len(),
{
    if s.len() == 0 {
        seq![]
    } else {
        let rest = keep_cache_chars(s.drop_last());
        if is_cache_char(s.last()) {
            rest.push(s.last())
        } else {
            rest
        }
    }
}

/// A task id as a directory name: only ASCII letters, digits, `-` and `_`,
/// and `unknown-task` where none is left.
pub open spec fn sanitize_spec(value: Seq<char>) -> Seq<char> {
    if keep_cache_chars(value).len() == 0 {
        "unknown-task"@
    } else {
        keep_cache_chars(value)
    }
}

pub fn sanitize_cache_component(value: &str) -> (r: String)
    ensures
        r@ == sanitize_spec(value@),
{
    let c = chars_of(value);
    let mut out: Vec<char> = Vec::new();
    let mut i: usize = 0;
    while i < c.len()
        invariant
            i <= c@.len(),
            out@ == keep_cache_chars(c@.take(i as int)),
        decreases c@.len() - i,
    {
        assert(c@.take(i + 1).drop_last() =~= c@.take(i as int));
        let ch = c[i];
        if is_ascii_alphanumeric(ch) || ch == '-' || ch == '_' {
            out.push(ch);
        }
        i = i + 1;
    }
    assert(c@.take(c@.len() as int) =~= c@);
    if out.len() == 0 {
        string_from("unknown-task")
    } else {
        string_of(&out)
    }
}

fn u128_to_chars(n: u128) -> (r: Vec<char>)
    ensures
        r@ == decimal(n as nat),
    decreases n,
{
    if n < 10 {
        let r = u64_to_chars(n as u64);
        r
    } else {
        let mut r = u128_to_chars(n / 10);
        let d = u64_to_chars((n % 10) as u64);
        assert(d@ == decimal((n % 10) as nat));
        assert(d@ == seq![(((n % 10) as nat) + '0' as nat) as char]);
        push_all(&mut r, &d);
        assert(r@ =~= decimal(n as nat));
        r
    }
}

/// `task-{nanos}-{count}`: an id from a clock reading and a counter.
pub open spec fn task_id_spec(nanos: u128, count: u64) -> Seq<char> {
    "task-"@ + decimal(nanos as nat) + "-"@ + decimal(count as nat)
}

pub fn uuid_like_id(nanos: u128, count: u64) -> (r: String)
    ensures
        r@ == task_id_spec(nanos, count),
{
    let mut out = chars_of("task-");
    let a = u128_to_chars(nanos);
    push_all(&mut out, &a);
    push_str(&mut out, "-");
    let b = u64_to_chars(count);
    push_all(&mut out, &b);
    string_of(&out)
}

// ---------------------------------------------------------------------------
// Playlist entries
// ---------------------------------------------------------------------------
/// The keys of a playlist entry that its address is read from.
#[derive(Debug, Clone)]
pub struct EntryJson {
    pub webpage_url: Field,
    pub original_url: Field,
    pub url: Field,
    pub ie_key: Field,
    pub extractor_key: Field,
    pub extractor: Field,
}

pub open spec fn first_text(a: Field, b: Field, c: Field) -> Option<Seq<char>> {
    match text_of(a) {
        Some(v) => Some(v),
        None => match text_of(b) {
            Some(v) => Some(v),
            None => text_of(c),
        },
    }
}

/// The address of a playlist entry, made absolute: kept where it already
/// is, given `https:` where it starts with `//`, the playlist's origin where
/// it starts with `/`, and a YouTube or Bilibili watch address where it is
/// a bare id of those sites.
pub open spec fn entry_url_spec(raw: Seq<char>, entry: EntryJson, source: Seq<char>) -> Option<Seq<char>> {
    let r = trim(raw);
    if r.len() == 0 {
        None
    } else if starts_with(r, "http://"@) || starts_with(r, "https://"@) {
        Some(r)
    } else if starts_with(r, "//"@) {
        Some("https:"@ + r)
    } else if starts_with(r, "/"@) {
        match url_origin_spec(source) {
            Some(o) => Some(o + r),
            None => None,
        }
    } else {
        let extractor = lower(
            match first_text(entry.ie_key, entry.extractor_key, entry.extractor) {
                Some(v) => v,
                None => seq![],
            },
        );
        let sl = lower(source);
        if contains(extractor, "youtube"@) || contains(sl, "youtube.com"@) || contains(
            sl,
            "youtu.be"@,
        ) {
            if starts_with(r, "watch?"@) || starts_with(r, "shorts/"@) || starts_with(r, "live/"@) {
                match url_origin_spec(source) {
                    Some(o) => Some(o + "/"@ + r),
                    None => None,
                }
            } else {
                Some("https://www.youtube.com/watch?v="@ + r)
            }
        } else if (contains(extractor, "bilibili"@) || contains(sl, "bilibili.com"@)) && (
        starts_with(r, "BV"@) || starts_with(r, "av"@)) {
            Some("https://www.bilibili.com/video/"@ + r)
        } else {
            None
        }
    }
}

fn first_text_of(a: &Field, b: &Field, c: &Field) -> (r: Option<String>)
    ensures
        opt_view(r) == first_text(*a, *b, *c),
{
    match string_field(a) {
        Some(v) => Some(v),
        None => match string_field(b) {
            Some(v) => Some(v),
            None => string_field(c),
        },
    }
}

fn with_prefix(prefix: &str, rest: &[char]) -> (r: String)
    ensures
        r@ == prefix@ + rest@,
{
    let mut out = chars_of(prefix);
    push_all(&mut out, rest);
    string_of(&out)
}

pub fn normalize_playlist_entry_url(raw_url: &str, entry: &EntryJson, source_url: &str) -> (r:
    Option<String>)
    ensures
        opt_view(r) == entry_url_spec(raw_url@, *entry, source_url@),
{
    let rc = chars_of(raw_url);
    let r = trimmed(&rc);
    if r.len() == 0 {
        return None;
    }
    if has_prefix_str(&r, "http://") || has_prefix_str(&r, "https://") {
        return Some(string_of(&r));
    }
    if has_prefix_str(&r, "//") {
        return Some(with_prefix("https:", &r));
    }
    if has_prefix_str(&r, "/") {
        return match url_origin(source_url) {
            Some(o) => Some(with_prefix(o.as_str(), &r)),
            None => None,
        };
    }
    let ex = match first_text_of(&entry.ie_key, &entry.extractor_key, &entry.extractor) {
        Some(v) => chars_of(v.as_str()),
        None => Vec::new(),
    };
    let extractor = to_lower(&ex);
    let sc = chars_of(source_url);
    let sl = to_lower(&sc);
    if contains_str(&extractor, "youtube") || contains_str(&sl, "youtube.com") || contains_str(
        &sl,
        "youtu.be",
    ) {
        if has_prefix_str(&r, "watch?") || has_prefix_str(&r, "shorts/") || has_prefix_str(
            &r,
            "live/",
        ) {
            return match url_origin(source_url) {
                Some(o) => {
                    let mut out = chars_of(o.as_str());
                    push_str(&mut out, "/");
                    push_all(&mut out, &r);
                    Some(string_of(&out))
                },
                None => None,
            };
        }
        return Some(with_prefix("https://www.youtube.com/watch?v=", &r));
    }
    if (contains_str(&extractor, "bilibili") || contains_str(&sl, "bilibili.com")) && (
    has_prefix_str(&r, "BV") || has_prefix_str(&r, "av")) {
        return Some(with_prefix("https://www.bilibili.com/video/", &r));
    }
    None
}

/// The address of a playlist entry: its `webpage_url`, `original_url` or
/// `url`, made absolute.
pub open spec fn playlist_entry_url_spec(entry: EntryJson, source: Seq<char>) -> Option<Seq<char>> {
    match first_text(entry.webpage_url, entry.original_url, entry.url) {
        Some(raw) => entry_url_spec(raw, entry, source),
        None => None,
    }
}

pub fn playlist_entry_url(entry: &EntryJson, source_url: &str) -> (r: Option<String>)
    ensures
        opt_view(r) == playlist_entry_url_spec(*entry, source_url@),
{
    match first_text_of(&entry.webpage_url, &entry.original_url, &entry.url) {
        Some(raw) => normalize_playlist_entry_url(raw.as_str(), entry, source_url),
        None => None,
    }
}

/// The title of a playlist item: its own title unless that is a
/// placeholder or an id, else the playlist's title where it is not blank.
pub open spec fn playlist_item_title_spec(entry_title: Option<Seq<char>>, playlist_title: Option<Seq<char>>) -> Option<
    Seq<char>,
> {
    match entry_title {
        Some(t) if !is_placeholder_spec(t) && !is_opaque_id_spec(t) => Some(t),
        _ => match playlist_title {
            Some(p) => clean_text_spec(p),
            None => None,
        },
    }
}

pub fn playlist_item_title(entry_title: Option<String>, playlist_title: Option<&str>) -> (r: Option<String>)
    ensures
        opt_view(r) == playlist_item_title_spec(opt_view(entry_title), opt_str_view(playlist_title)),
{
    match entry_title {
        Some(t) => {
            if !is_placeholder_text(t.as_str()) && !is_opaque_id_text(t.as_str()) {
                return Some(t);
            }
        },
        None => {},
    }
    match playlist_title {
        Some(p) => clean_text(p),
        None => None,
    }
}

// ---------------------------------------------------------------------------
// Playlists in the download queue
// ---------------------------------------------------------------------------
/// A playlist entry as the queue reads it: the keys of its address, its
/// title and its `playlist_index` and `playlist_autonumber`.
#[derive(Debug, Clone)]
pub struct QueueEntry {
    pub entry: EntryJson,
    pub title: Option<String>,
    pub playlist_index: Option<usize>,
    pub playlist_autonumber: Option<usize>,
}

/// A playlist entry that became a queue item: its position among the
/// entries, its address, title and number in the playlist.
#[derive(Debug, Clone)]
pub struct PlaylistItem {
    pub position: usize,
    pub url: String,
    pub title: Option<String>,
    pub playlist_index: usize,
}

pub open spec fn item_view(i: PlaylistItem) -> (nat, Seq<char>, Option<Seq<char>>, nat) {
    (i.position as nat, i.url@, opt_view(i.title), i.playlist_index as nat)
}

pub open spec fn items_view(v: Seq<PlaylistItem>) -> Seq<(nat, Seq<char>, Option<Seq<char>>, nat)> {
    v.map_values(|i: PlaylistItem| item_view(i))
}

/// The number of the entry at `position`: its `playlist_index`, else its
/// `playlist_autonumber`, else its position counted from 1.
pub open spec fn entry_number(e: QueueEntry, position: nat) -> nat {
    match e.playlist_index {
        Some(i) => i as nat,
        None => match e.playlist_autonumber {
            Some(a) => a as nat,
            None => position + 1,
        },
    }
}

/// The queue items of the first `n` entries: those whose address can be
/// made absolute, in order.
pub open spec fn playlist_items_spec(
    entries: Seq<QueueEntry>,
    n: nat,
    source: Seq<char>,
    playlist_title: Option<Seq<char>>,
) -> Seq<(nat, Seq<char>, Option<Seq<char>>, nat)>
    decreases n,
{
    if n == 0 || n > entries.len() {
        seq![]
    } else {
        let k = (n - 1) as nat;
        let prev = playlist_items_spec(entries, k, source, playlist_title);
        let e = entries[k as int];
        match playlist_entry_url_spec(e.entry, source) {
            Some(u) => prev.push(
                (k, u, playlist_item_title_spec(opt_view(e.title), playlist_title), entry_number(e, k)),
            ),
            None => prev,
        }
    }
}

pub open spec fn no_usable_entries_message() -> Seq<char> {
    "已检测到播放列表条目，但 yt-dlp 未返回可下载的子项链接。请升级 yt-dlp 后重试。"@
}

/// What a parsed address becomes in the queue: its playlist's items where
/// it has entries with usable addresses (`Ok(Some(..))`), an error where it
/// has entries and none is usable, and otherwise one item of its own
/// (`Ok(None)`).
pub open spec fn playlist_expansion_spec(
    entries: Option<Seq<QueueEntry>>,
    source: Seq<char>,
    playlist_title: Option<Seq<char>>,
) -> Result<Option<Seq<(nat, Seq<char>, Option<Seq<char>>, nat)>>, Seq<char>> {
    match entries {
        None => Ok(None),
        Some(es) => {
            let items = playlist_items_spec(es, es.len(), source, playlist_title);
            if items.len() > 0 {
                Ok(Some(items))
            } else if es.len() > 0 {
                Err(no_usable_entries_message())
            } else {
                Ok(None)
            }
        },
    }
}

pub open spec fn expansion_view(r: Result<Option<Vec<PlaylistItem>>, String>) -> Result<
    Option<Seq<(nat, Seq<char>, Option<Seq<char>>, nat)>>,
    Seq<char>,
> {
    match r {
        Ok(Some(v)) => Ok(Some(items_view(v@))),
        Ok(None) => Ok(None),
        Err(e) => Err(e@),
    }
}

fn copy_title(t: &Option<String>) -> (r: Option<String>)
    ensures
        opt_view(r) == opt_view(*t),
{
    match t {
        Some(v) => Some(v.clone()),
        None => None,
    }
}

pub fn expand_playlist(entries: &Option<Vec<QueueEntry>>, source_url: &str, playlist_title: Option<&str>) -> (r:
    Result<Option<Vec<PlaylistItem>>, String>)
    ensures
        expansion_view(r) == playlist_expansion_spec(
            match entries {
                Some(v) => Some(v@),
                None => None,
            },
            source_url@,
            opt_str_view(playlist_title),
        ),
{
    let es = match entries {
        Some(v) => v,
        None => return Ok(None),
    };
    let ghost ptitle = opt_str_view(playlist_title);
    let mut items: Vec<PlaylistItem> = Vec::new();
    let mut k: usize = 0;
    while k < es.len()
        invariant
            k <= es@.len(),
            ptitle == opt_str_view(playlist_title),
            items_view(items@) == playlist_items_spec(es@, k as nat, source_url@, ptitle),
        decreases es@.len() - k,
    {
        let e = &es[k];
        match playlist_entry_url(&e.entry, source_url) {
            Some(u) => {
                let title = playlist_item_title(copy_title(&e.title), playlist_title);
                let number = match e.playlist_index {
                    Some(i) => i,
                    None => match e.playlist_autonumber {
                        Some(a) => a,
                        None => k + 1,
                    },
                };
                let ghost before = items_view(items@);
                let item = PlaylistItem { position: k, url: u, title, playlist_index: number };
                assert(item_view(item) == (
                    k as nat,
                    item.url@,
                    playlist_item_title_spec(opt_view(e.title), ptitle),
                    entry_number(*e, k as nat),
                ));
                items.push(item);
                assert(items_view(items@) =~= before.push(item_view(item)));
            },
            None => {},
        }
        k = k + 1;
    }
    if items.len() > 0 {
        Ok(Some(items))
    } else if es.len() > 0 {
        Err(string_from("已检测到播放列表条目，但 yt-dlp 未返回可下载的子项链接。请升级 yt-dlp 后重试。"))
    } else {
        Ok(None)
    }
}

} // verus!
