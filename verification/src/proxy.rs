//! Proxy settings for yt-dlp: the user's mode, a manual proxy address, and
//! the macOS system proxy as `scutil --proxy` prints it.
use vstd::prelude::*;
use crate::text::{
    chars_of, eq_str, find_ch, find_char, has_char, has_prefix_str, is_digit, lower, part,
    parse_u64, parse_u64_chars, push_all, push_str, split_char, split_on, starts_with,
    string_of, strip_all, strip_char, to_lower, trim, trimmed, decimal, u64_to_chars,
    contains_char,
};
use crate::tools::{ToolSettings, opt_view};

verus! {

/// How yt-dlp is told about a proxy.
#[derive(Debug, Clone, Copy, PartialEq, Eq, Structural)]
pub enum ProxyMode {
    Auto,
    Manual,
    Off,
}

impl ProxyMode {
    pub open spec fn name_spec(self) -> Seq<char> {
        match self {
            ProxyMode::Auto => "auto"@,
            ProxyMode::Manual => "manual"@,
            ProxyMode::Off => "off"@,
        }
    }

    pub fn as_str(self) -> (r: &'static str)
        ensures
            r@ == self.name_spec(),
    {
        match self {
            ProxyMode::Auto => "auto",
            ProxyMode::Manual => "manual",
            ProxyMode::Off => "off",
        }
    }
}

/// The proxy that yt-dlp will be given, and where it came from.
#[derive(Debug, Clone)]
pub struct ProxyStatus {
    pub mode: String,
    pub effective_proxy: Option<String>,
    pub source: Option<String>,
    pub message: Option<String>,
}

/// The view of a status: its four fields as character sequences.
pub open spec fn status_view(s: ProxyStatus) -> (
    Seq<char>,
    Option<Seq<char>>,
    Option<Seq<char>>,
    Option<Seq<char>>,
) {
    (s.mode@, opt_view(s.effective_proxy), opt_view(s.source), opt_view(s.message))
}

/// The mode a saved setting stands for; anything unrecognised is `Auto`.
pub open spec fn proxy_mode_spec(value: Option<Seq<char>>) -> ProxyMode {
    let v = lower(
        trim(
            match value {
                Some(v) => v,
                None => "auto"@,
            },
        ),
    );
    if v == "manual"@ {
        ProxyMode::Manual
    } else if v == "off"@ || v == "none"@ || v == "disabled"@ {
        ProxyMode::Off
    } else {
        ProxyMode::Auto
    }
}

pub fn normalize_proxy_mode(value: Option<&str>) -> (r: ProxyMode)
    ensures
        r == proxy_mode_spec(crate::tools::opt_str_view(value)),
{
    let raw = match value {
        Some(v) => chars_of(v),
        None => chars_of("auto"),
    };
    let t = trimmed(&raw);
    let v = to_lower(&t);
    if eq_str(&v, "manual") {
        ProxyMode::Manual
    } else if eq_str(&v, "off") || eq_str(&v, "none") || eq_str(&v, "disabled") {
        ProxyMode::Off
    } else {
        ProxyMode::Auto
    }
}

/// The schemes a manual proxy may use, compared without regard to case.
pub open spec fn is_supported_proxy_url(value: Seq<char>) -> bool {
    let l = lower(value);
    starts_with(l, "http://"@) || starts_with(l, "https://"@) || starts_with(l, "socks5://"@)
        || starts_with(l, "socks5h://"@)
}

pub open spec fn unsupported_proxy_message() -> Seq<char> {
    "代理地址仅支持 http://、https://、socks5:// 或 socks5h://。"@
}

pub open spec fn missing_proxy_message() -> Seq<char> {
    "请填写手动代理地址。"@
}

pub fn validate_proxy_url(value: &str) -> (r: Result<(), String>)
    ensures
        r is Ok <==> is_supported_proxy_url(value@),
        r matches Err(e) ==> e@ == unsupported_proxy_message(),
{
    let v = chars_of(value);
    let l = to_lower(&v);
    if has_prefix_str(&l, "http://") || has_prefix_str(&l, "https://") || has_prefix_str(
        &l,
        "socks5://",
    ) || has_prefix_str(&l, "socks5h://") {
        Ok(())
    } else {
        Err(crate::text::string_from("代理地址仅支持 http://、https://、socks5:// 或 socks5h://。"))
    }
}

/// The manual proxy address to store: only in manual mode, trimmed, and
/// required to be present and of a supported scheme.
pub open spec fn proxy_url_spec(value: Option<Seq<char>>, mode: ProxyMode) -> Result<
    Option<Seq<char>>,
    Seq<char>,
> {
    if mode != ProxyMode::Manual {
        Ok(None)
    } else {
        match value {
            Some(v) if trim(v).len() > 0 => {
                if is_supported_proxy_url(trim(v)) {
                    Ok(Some(trim(v)))
                } else {
                    Err(unsupported_proxy_message())
                }
            },
            _ => Err(missing_proxy_message()),
        }
    }
}

pub open spec fn result_opt_view(r: Result<Option<String>, String>) -> Result<
    Option<Seq<char>>,
    Seq<char>,
> {
    match r {
        Ok(o) => Ok(opt_view(o)),
        Err(e) => Err(e@),
    }
}

pub fn normalize_proxy_url(value: Option<&str>, mode: ProxyMode) -> (r: Result<
    Option<String>,
    String,
>)
    ensures
        result_opt_view(r) == proxy_url_spec(crate::tools::opt_str_view(value), mode),
{
    if mode != ProxyMode::Manual {
        return Ok(None);
    }
    match value {
        Some(v) => {
            let c = chars_of(v);
            let t = trimmed(&c);
            if t.len() == 0 {
                return Err(crate::text::string_from("请填写手动代理地址。"));
            }
            let ts = string_of(&t);
            match validate_proxy_url(ts.as_str()) {
                Ok(()) => Ok(Some(ts)),
                Err(e) => Err(e),
            }
        },
        None => Err(crate::text::string_from("请填写手动代理地址。")),
    }
}

/// The status in manual and off modes.
pub open spec fn fixed_proxy_status(settings: ToolSettings) -> (
    Seq<char>,
    Option<Seq<char>>,
    Option<Seq<char>>,
    Option<Seq<char>>,
) {
    let mode = proxy_mode_spec(opt_view(settings.proxy_mode));
    match mode {
        ProxyMode::Manual => match proxy_url_spec(opt_view(settings.proxy_url), mode) {
            Ok(Some(p)) => ("manual"@, Some(p), Some("manual"@), Some("手动指定代理"@)),
            Ok(None) => ("manual"@, None, Some("manual"@), Some(missing_proxy_message())),
            Err(e) => ("manual"@, None, Some("manual"@), Some(e)),
        },
        _ => ("off"@, None, Some("off"@), Some("不使用代理"@)),
    }
}

fn some_string(s: &str) -> (r: Option<String>)
    ensures
        r matches Some(v) && v@ == s@,
{
    Some(s.to_owned())
}

/// The proxy status of the saved settings. In automatic mode the status is
/// whatever `auto_proxy_status` reports about the system proxy.
pub fn proxy_status<F: Fn() -> ProxyStatus>(settings: &ToolSettings, auto_proxy_status: F) -> (r:
    ProxyStatus)
    requires
        call_requires(auto_proxy_status, ()),
    ensures
        proxy_mode_spec(opt_view(settings.proxy_mode)) == ProxyMode::Auto ==> call_ensures(
            auto_proxy_status,
            (),
            r,
        ),
        proxy_mode_spec(opt_view(settings.proxy_mode)) != ProxyMode::Auto ==> status_view(r)
            == fixed_proxy_status(*settings),
{
    let mode_text = match &settings.proxy_mode {
        Some(m) => Some(m.as_str()),
        None => None,
    };
    let mode = normalize_proxy_mode(mode_text);
    let url_text = match &settings.proxy_url {
        Some(u) => Some(u.as_str()),
        None => None,
    };
    match mode {
        ProxyMode::Manual => match normalize_proxy_url(url_text, mode) {
            Ok(Some(proxy)) => ProxyStatus {
                mode: crate::text::string_from("manual"),
                effective_proxy: Some(proxy),
                source: some_string("manual"),
                message: some_string("手动指定代理"),
            },
            Ok(None) => ProxyStatus {
                mode: crate::text::string_from("manual"),
                effective_proxy: None,
                source: some_string("manual"),
                message: some_string("请填写手动代理地址。"),
            },
            Err(error) => ProxyStatus {
                mode: crate::text::string_from("manual"),
                effective_proxy: None,
                source: some_string("manual"),
                message: Some(error),
            },
        },
        ProxyMode::Off => ProxyStatus {
            mode: crate::text::string_from("off"),
            effective_proxy: None,
            source: some_string("off"),
            message: some_string("不使用代理"),
        },
        ProxyMode::Auto => auto_proxy_status(),
    }
}

// ---------------------------------------------------------------------------
// `scutil --proxy`
// ---------------------------------------------------------------------------
/// Drops one trailing carriage return.
pub open spec fn strip_cr(l: Seq<char>) -> Seq<char> {
    if l.len() > 0 && l.last() == '\r' {
        l.drop_last()
    } else {
        l
    }
}

/// `str::lines`: pieces between line feeds, each without a trailing carriage
/// return, and no empty piece after a final line feed.
pub open spec fn lines_spec(s: Seq<char>) -> Seq<Seq<char>> {
    let p = split_on(s, '\n');
    let body = p.take(p.len() - 1).map_values(|l: Seq<char>| strip_cr(l));
    if p.len() == 0 || p.last().len() == 0 {
        body
    } else {
        body.push(p.last())
    }
}

/// `line.split_once(':')` with both sides cleaned: the key trimmed, the value
/// trimmed and then stripped of double and then single quotes.
pub open spec fn scutil_line_entry(line: Seq<char>) -> Option<(Seq<char>, Seq<char>)> {
    match find_char(line, ':') {
        Some(k) => {
            let key = trim(line.take(k as int));
            let value = strip_all(strip_all(trim(line.skip((k + 1) as int)), '"'), '\'');
            if key.len() == 0 {
                None
            } else {
                Some((key, value))
            }
        },
        None => None,
    }
}

/// The entries of the lines of `s`, in order, before later keys replace
/// earlier ones.
pub open spec fn entries_of_lines(lines: Seq<Seq<char>>) -> Seq<(Seq<char>, Seq<char>)>
    decreases lines.len(),
{
    if lines.len() == 0 {
        seq![]
    } else {
        let rest = entries_of_lines(lines.drop_last());
        match scutil_line_entry(lines.last()) {
            Some(e) => rest.push(e),
            None => rest,
        }
    }
}

pub open spec fn scutil_pairs(output: Seq<char>) -> Seq<(Seq<char>, Seq<char>)> {
    entries_of_lines(lines_spec(output))
}

/// The value of the last pair with key `key`: what a map built from the
/// pairs in order holds for it.
pub open spec fn last_value(pairs: Seq<(Seq<char>, Seq<char>)>, key: Seq<char>) -> Option<
    Seq<char>,
>
    decreases pairs.len(),
{
    if pairs.len() == 0 {
        None
    } else if pairs.last().0 == key {
        Some(pairs.last().1)
    } else {
        last_value(pairs.drop_last(), key)
    }
}

pub open spec fn entries_view(entries: Seq<(String, String)>) -> Seq<(Seq<char>, Seq<char>)> {
    entries.map_values(|e: (String, String)| (e.0@, e.1@))
}

/// No key occurs twice.
pub open spec fn keys_unique(pairs: Seq<(Seq<char>, Seq<char>)>) -> bool {
    forall|i: int, j: int| 0 <= i < j < pairs.len() ==> pairs[i].0 != pairs[j].0
}

/// `str::lines`.
pub fn lines_of(s: &[char]) -> (r: Vec<Vec<char>>)
    ensures
        r@.len() == lines_spec(s@).len(),
        forall|i: int| 0 <= i < r@.len() ==> #[trigger] r@[i]@ == lines_spec(s@)[i],
{
    let pieces = split_char(s, '\n');
    let ghost p = split_on(s@, '\n');
    proof {
        lemma_split_nonempty(s@, '\n');
    }
    let n = pieces.len();
    let mut r: Vec<Vec<char>> = Vec::new();
    let mut i: usize = 0;
    while i + 1 < n
        invariant
            n == pieces@.len() == p.len(),
            n >= 1,
            i + 1 <= n,
            r@.len() == i,
            forall|t: int| 0 <= t < pieces@.len() ==> #[trigger] pieces@[t]@ == p[t],
            forall|t: int| 0 <= t < i ==> #[trigger] r@[t]@ == strip_cr(p[t]),
        decreases n - i,
    {
        let piece = &pieces[i];
        let l = if piece.len() > 0 && piece[piece.len() - 1] == '\r' {
            part(piece, 0, piece.len() - 1)
        } else {
            part(piece, 0, piece.len())
        };
        proof {
            assert(piece@ == p[i as int]);
            if piece@.len() > 0 && piece@.last() == '\r' {
                assert(l@ =~= piece@.drop_last());
            } else {
                assert(l@ =~= piece@);
            }
        }
        r.push(l);
        i = i + 1;
    }
    let last = &pieces[n - 1];
    let ghost body = p.take(p.len() - 1).map_values(|l: Seq<char>| strip_cr(l));
    assert(body.len() == i);
    if last.len() > 0 {
        r.push(part(last, 0, last.len()));
        assert(last@.subrange(0, last@.len() as int) =~= last@);
    }
    proof {
        assert(last@ == p.last());
        assert forall|t: int| 0 <= t < r@.len() implies #[trigger] r@[t]@ == lines_spec(s@)[t] by {
            if t < i {
                assert(body[t] == strip_cr(p[t]));
            }
        }
    }
    r
}

proof fn lemma_split_nonempty(s: Seq<char>, c: char)
    ensures
        split_on(s, c).len() >= 1,
    decreases s.len(),
{
    match find_char(s, c) {
        Some(k) => {
            if k < s.len() {
                lemma_split_nonempty(s.skip((k + 1) as int), c);
            }
        },
        None => {},
    }
}

/// One line of `scutil --proxy` as a key and a value.
pub fn scutil_entry_of_line(line: &[char]) -> (r: Option<(Vec<char>, Vec<char>)>)
    ensures
        r matches Some(e) ==> scutil_line_entry(line@) == Some((e.0@, e.1@)),
        r is None ==> scutil_line_entry(line@) is None,
{
    match find_ch(line, ':') {
        Some(k) => {
            let head = part(line, 0, k);
            let key = trimmed(&head);
            let tail = part(line, k + 1, line.len());
            let v1 = trimmed(&tail);
            let v2 = strip_char(&v1, '"');
            let value = strip_char(&v2, '\'');
            proof {
                assert(head@ =~= line@.take(k as int));
                assert(tail@ =~= line@.skip((k + 1) as int));
            }
            if key.len() == 0 {
                None
            } else {
                Some((key, value))
            }
        },
        None => None,
    }
}

proof fn lemma_last_value_push(
    pairs: Seq<(Seq<char>, Seq<char>)>,
    e: (Seq<char>, Seq<char>),
    key: Seq<char>,
)
    ensures
        last_value(pairs.push(e), key) == (if e.0 == key {
            Some(e.1)
        } else {
            last_value(pairs, key)
        }),
{
    assert(pairs.push(e).drop_last() =~= pairs);
}

/// With unique keys, the only pair with key `key`.
proof fn lemma_last_value_unique(pairs: Seq<(Seq<char>, Seq<char>)>, i: int)
    requires
        keys_unique(pairs),
        0 <= i < pairs.len(),
    ensures
        last_value(pairs, pairs[i].0) == Some(pairs[i].1),
    decreases pairs.len(),
{
    if i < pairs.len() - 1 {
        assert(pairs.last().0 != pairs[i].0);
        assert(keys_unique(pairs.drop_last()));
        lemma_last_value_unique(pairs.drop_last(), i);
    }
}

proof fn lemma_last_value_absent(pairs: Seq<(Seq<char>, Seq<char>)>, key: Seq<char>)
    requires
        forall|i: int| 0 <= i < pairs.len() ==> pairs[i].0 != key,
    ensures
        last_value(pairs, key) is None,
    decreases pairs.len(),
{
    if pairs.len() > 0 {
        lemma_last_value_absent(pairs.drop_last(), key);
    }
}

/// The entries that `scutil --proxy` prints: one per key, holding the value
/// of the last line with that key.
pub fn parse_scutil_proxy_entries(output: &str) -> (r: Vec<(String, String)>)
    ensures
        keys_unique(entries_view(r@)),
        forall|key: Seq<char>|
            #![trigger last_value(scutil_pairs(output@), key)]
            last_value(entries_view(r@), key) == last_value(scutil_pairs(output@), key),
{
    let s = chars_of(output);
    let lines = lines_of(&s);
    let ghost ls = lines_spec(output@);
    let mut r: Vec<(String, String)> = Vec::new();
    let mut i: usize = 0;
    while i < lines.len()
        invariant
            i <= lines@.len() == ls.len(),
            forall|t: int| 0 <= t < lines@.len() ==> #[trigger] lines@[t]@ == ls[t],
            keys_unique(entries_view(r@)),
            forall|key: Seq<char>|
                #![trigger last_value(entries_of_lines(ls.take(i as int)), key)]
                last_value(entries_view(r@), key) == last_value(
                    entries_of_lines(ls.take(i as int)),
                    key,
                ),
        decreases lines@.len() - i,
    {
        let ghost prev = entries_of_lines(ls.take(i as int));
        let ghost before = entries_view(r@);
        assert(ls.take(i + 1).drop_last() =~= ls.take(i as int));
        assert(ls.take(i + 1).last() == lines@[i as int]@);
        match scutil_entry_of_line(&lines[i]) {
            Some((k, v)) => {
                let ks = string_of(&k);
                let vs = string_of(&v);
                let ghost e = (k@, v@);
                assert(entries_of_lines(ls.take(i + 1)) == prev.push(e));
                // replace an existing key, or append
                let pos = position_of_key(&r, &k);
                if let Some(j) = pos {
                    r.set(j, (ks, vs));
                    proof {
                        let nv = entries_view(r@);
                        assert(nv =~= before.update(j as int, e));
                        assert(keys_unique(nv)) by {
                            assert forall|a: int, b: int|
                                0 <= a < b < nv.len() implies nv[a].0 != nv[b].0 by {
                                if a == j as int {
                                    assert(before[a].0 == k@);
                                } else if b == j as int {
                                    assert(before[b].0 == k@);
                                }
                            }
                        }
                        assert forall|key: Seq<char>|
                            #![trigger last_value(entries_of_lines(ls.take(i + 1)), key)]
                            last_value(nv, key) == last_value(
                                entries_of_lines(ls.take(i + 1)),
                                key,
                            ) by {
                            lemma_last_value_push(prev, e, key);
                            if key == k@ {
                                lemma_last_value_unique(nv, j as int);
                            } else {
                                lemma_last_value_same_except(before, nv, j as int, key);
                            }
                        }
                    }
                } else {
                    r.push((ks, vs));
                    proof {
                        let nv = entries_view(r@);
                        assert(nv =~= before.push(e));
                        assert forall|key: Seq<char>|
                            #![trigger last_value(entries_of_lines(ls.take(i + 1)), key)]
                            last_value(nv, key) == last_value(
                                entries_of_lines(ls.take(i + 1)),
                                key,
                            ) by {
                            lemma_last_value_push(prev, e, key);
                            lemma_last_value_push(before, e, key);
                        }
                    }
                }
            },
            None => {
                assert(entries_of_lines(ls.take(i + 1)) == prev);
            },
        }
        i = i + 1;
    }
    assert(ls.take(ls.len() as int) =~= ls);
    r
}

proof fn lemma_last_value_same_except(
    a: Seq<(Seq<char>, Seq<char>)>,
    b: Seq<(Seq<char>, Seq<char>)>,
    j: int,
    key: Seq<char>,
)
    requires
        a.len() == b.len(),
        0 <= j < a.len(),
        forall|t: int| 0 <= t < a.len() && t != j ==> a[t] == b[t],
        a[j].0 != key,
        b[j].0 != key,
    ensures
        last_value(a, key) == last_value(b, key),
    decreases a.len(),
{
    if a.len() > 0 {
        if a.len() - 1 != j {
            lemma_last_value_same_except(a.drop_last(), b.drop_last(), j, key);
        } else {
            assert(a.drop_last() =~= b.drop_last());
        }
    }
}

/// Index of the entry with key `key`.
pub fn position_of_key(entries: &Vec<(String, String)>, key: &[char]) -> (r: Option<usize>)
    ensures
        r matches Some(j) ==> j < entries@.len() && entries@[j as int].0@ == key@,
        r is None ==> forall|t: int| 0 <= t < entries@.len() ==> (#[trigger] entries@[t]).0@ != key@,
{
    let mut j: usize = 0;
    while j < entries.len()
        invariant
            j <= entries@.len(),
            forall|t: int| 0 <= t < j ==> (#[trigger] entries@[t]).0@ != key@,
        decreases entries@.len() - j,
    {
        let kc = chars_of(entries[j].0.as_str());
        if crate::text::seq_eq(&kc, key) {
            return Some(j);
        }
        j = j + 1;
    }
    None
}

/// The value stored under `key`.
pub fn entry_value(entries: &Vec<(String, String)>, key: &[char]) -> (r: Option<String>)
    requires
        keys_unique(entries_view(entries@)),
    ensures
        opt_view(r) == last_value(entries_view(entries@), key@),
{
    match position_of_key(entries, key) {
        Some(j) => {
            proof {
                lemma_last_value_unique(entries_view(entries@), j as int);
            }
            Some(entries[j].1.clone())
        },
        None => {
            proof {
                lemma_last_value_absent(entries_view(entries@), key@);
            }
            None
        },
    }
}

/// A flag that `scutil` prints as `1`, `yes` or `true`.
pub open spec fn is_enabled_value(v: Seq<char>) -> bool {
    let l = lower(trim(v));
    l == "1"@ || l == "yes"@ || l == "true"@
}

pub open spec fn scutil_enabled_spec(pairs: Seq<(Seq<char>, Seq<char>)>, key: Seq<char>) -> bool {
    match last_value(pairs, key) {
        Some(v) => is_enabled_value(v),
        None => false,
    }
}

pub fn scutil_enabled(entries: &Vec<(String, String)>, key: &str) -> (r: bool)
    requires
        keys_unique(entries_view(entries@)),
    ensures
        r == scutil_enabled_spec(entries_view(entries@), key@),
{
    let k = chars_of(key);
    match entry_value(entries, &k) {
        Some(v) => {
            let c = chars_of(v.as_str());
            let t = trimmed(&c);
            let l = to_lower(&t);
            eq_str(&l, "1") || eq_str(&l, "yes") || eq_str(&l, "true")
        },
        None => false,
    }
}

/// `host` in brackets where it is a bare IPv6 address.
pub open spec fn bracket_host(host: Seq<char>) -> Seq<char> {
    if has_char(host, ':') && !starts_with(host, "["@) {
        "["@ + host + "]"@
    } else {
        host
    }
}

/// The proxy URL of one `scutil` protocol (`HTTPS`, `HTTP`, `SOCKS`).
pub open spec fn scutil_proxy_url_spec(
    pairs: Seq<(Seq<char>, Seq<char>)>,
    prefix: Seq<char>,
    scheme: Seq<char>,
) -> Option<Seq<char>> {
    if !scutil_enabled_spec(pairs, prefix + "Enable"@) {
        None
    } else {
        match (last_value(pairs, prefix + "Proxy"@), last_value(pairs, prefix + "Port"@)) {
            (Some(h), Some(p)) => {
                let host = trim(h);
                match parse_u64(trim(p)) {
                    Some(port) => {
                        if port > u16::MAX || host.len() == 0 || port == 0 {
                            None
                        } else {
                            Some(scheme + "://"@ + bracket_host(host) + ":"@ + decimal(port as nat))
                        }
                    },
                    None => None,
                }
            },
            _ => None,
        }
    }
}

pub fn scutil_proxy_url(entries: &Vec<(String, String)>, prefix: &str, scheme: &str) -> (r:
    Option<String>)
    requires
        keys_unique(entries_view(entries@)),
    ensures
        opt_view(r) == scutil_proxy_url_spec(entries_view(entries@), prefix@, scheme@),
{
    let p = chars_of(prefix);
    let mut enable_key = p.clone();
    push_str(&mut enable_key, "Enable");
    let enable_text = string_of(&enable_key);
    if !scutil_enabled(entries, enable_text.as_str()) {
        return None;
    }
    let mut proxy_key = p.clone();
    push_str(&mut proxy_key, "Proxy");
    let mut port_key = p.clone();
    push_str(&mut port_key, "Port");
    let h = match entry_value(entries, &proxy_key) {
        Some(h) => h,
        None => return None,
    };
    let pt = match entry_value(entries, &port_key) {
        Some(pt) => pt,
        None => return None,
    };
    let hc = chars_of(h.as_str());
    let host = trimmed(&hc);
    let pc = chars_of(pt.as_str());
    let ptrim = trimmed(&pc);
    let port = match parse_u64_chars(&ptrim) {
        Some(port) => port,
        None => return None,
    };
    if port > 65535 || host.len() == 0 || port == 0 {
        return None;
    }
    let mut out = chars_of(scheme);
    push_str(&mut out, "://");
    if contains_char(&host, ':') && !crate::text::has_prefix_str(&host, "[") {
        push_str(&mut out, "[");
        push_all(&mut out, &host);
        push_str(&mut out, "]");
    } else {
        push_all(&mut out, &host);
    }
    push_str(&mut out, ":");
    let digits = u64_to_chars(port);
    push_all(&mut out, &digits);
    proof {
        if has_char(host@, ':') && !starts_with(host@, "["@) {
            assert(out@ =~= scheme@ + "://"@ + bracket_host(host@) + ":"@ + decimal(port as nat));
        } else {
            assert(out@ =~= scheme@ + "://"@ + bracket_host(host@) + ":"@ + decimal(port as nat));
        }
    }
    Some(string_of(&out))
}

/// The status that the system proxy settings give, by priority HTTPS, HTTP,
/// SOCKS; a PAC script is reported and not followed.
pub open spec fn scutil_status_spec(pairs: Seq<(Seq<char>, Seq<char>)>) -> (
    Seq<char>,
    Option<Seq<char>>,
    Option<Seq<char>>,
    Option<Seq<char>>,
) {
    match scutil_proxy_url_spec(pairs, "HTTPS"@, "http"@) {
        Some(p) => ("auto"@, Some(p), Some("systemHttps"@), Some("自动读取 HTTPS 系统代理"@)),
        None => match scutil_proxy_url_spec(pairs, "HTTP"@, "http"@) {
            Some(p) => ("auto"@, Some(p), Some("systemHttp"@), Some("自动读取 HTTP 系统代理"@)),
            None => match scutil_proxy_url_spec(pairs, "SOCKS"@, "socks5h"@) {
                Some(p) => (
                    "auto"@,
                    Some(p),
                    Some("systemSocks"@),
                    Some("自动读取 SOCKS 系统代理"@),
                ),
                None => if scutil_enabled_spec(pairs, "ProxyAutoConfigEnable"@) {
                    (
                        "auto"@,
                        None,
                        Some("pacUnsupported"@),
                        Some("检测到自动代理脚本（PAC），暂不支持解析，未传入代理。"@),
                    )
                } else {
                    ("auto"@, None, Some("none"@), Some("未检测到系统代理"@))
                },
            },
        },
    }
}

proof fn lemma_entries_agree(entries: Seq<(String, String)>, output: Seq<char>, key: Seq<char>)
    requires
        forall|k: Seq<char>|
            #![trigger last_value(scutil_pairs(output), k)]
            last_value(entries_view(entries), k) == last_value(scutil_pairs(output), k),
    ensures
        last_value(entries_view(entries), key) == last_value(scutil_pairs(output), key),
{
    assert(last_value(entries_view(entries), key) == last_value(scutil_pairs(output), key));
}

pub proof fn lemma_same_lookups_same_status(
    a: Seq<(Seq<char>, Seq<char>)>,
    b: Seq<(Seq<char>, Seq<char>)>,
)
    requires
        forall|k: Seq<char>| #[trigger] last_value(a, k) == last_value(b, k),
    ensures
        scutil_status_spec(a) == scutil_status_spec(b),
{
    assert(last_value(a, "HTTPS"@ + "Enable"@) == last_value(b, "HTTPS"@ + "Enable"@));
    assert(last_value(a, "HTTPS"@ + "Proxy"@) == last_value(b, "HTTPS"@ + "Proxy"@));
    assert(last_value(a, "HTTPS"@ + "Port"@) == last_value(b, "HTTPS"@ + "Port"@));
    assert(last_value(a, "HTTP"@ + "Enable"@) == last_value(b, "HTTP"@ + "Enable"@));
    assert(last_value(a, "HTTP"@ + "Proxy"@) == last_value(b, "HTTP"@ + "Proxy"@));
    assert(last_value(a, "HTTP"@ + "Port"@) == last_value(b, "HTTP"@ + "Port"@));
    assert(last_value(a, "SOCKS"@ + "Enable"@) == last_value(b, "SOCKS"@ + "Enable"@));
    assert(last_value(a, "SOCKS"@ + "Proxy"@) == last_value(b, "SOCKS"@ + "Proxy"@));
    assert(last_value(a, "SOCKS"@ + "Port"@) == last_value(b, "SOCKS"@ + "Port"@));
    assert(last_value(a, "ProxyAutoConfigEnable"@) == last_value(b, "ProxyAutoConfigEnable"@));
}

fn auto_status(proxy: Option<String>, source: &str, message: &str) -> (r: ProxyStatus)
    ensures
        status_view(r) == ("auto"@, opt_view(proxy), Some(source@), Some(message@)),
{
    ProxyStatus {
        mode: crate::text::string_from("auto"),
        effective_proxy: proxy,
        source: some_string(source),
        message: some_string(message),
    }
}

pub fn proxy_status_from_scutil_output(output: &str) -> (r: ProxyStatus)
    ensures
        status_view(r) == scutil_status_spec(scutil_pairs(output@)),
{
    let entries = parse_scutil_proxy_entries(output);
    proof {
        assert forall|k: Seq<char>|
            #[trigger] last_value(entries_view(entries@), k) == last_value(
                scutil_pairs(output@),
                k,
            ) by {
            lemma_entries_agree(entries@, output@, k);
        }
        lemma_same_lookups_same_status(entries_view(entries@), scutil_pairs(output@));
    }
    let ghost ev = entries_view(entries@);
    let https = scutil_proxy_url(&entries, "HTTPS", "http");
    if https.is_some() {
        return auto_status(https, "systemHttps", "自动读取 HTTPS 系统代理");
    }
    let http = scutil_proxy_url(&entries, "HTTP", "http");
    if http.is_some() {
        return auto_status(http, "systemHttp", "自动读取 HTTP 系统代理");
    }
    let socks = scutil_proxy_url(&entries, "SOCKS", "socks5h");
    if socks.is_some() {
        return auto_status(socks, "systemSocks", "自动读取 SOCKS 系统代理");
    }
    if scutil_enabled(&entries, "ProxyAutoConfigEnable") {
        return auto_status(
            None,
            "pacUnsupported",
            "检测到自动代理脚本（PAC），暂不支持解析，未传入代理。",
        );
    }
    auto_status(None, "none", "未检测到系统代理")
}


/// The `--proxy` arguments yt-dlp gets for a given effective proxy.
pub open spec fn proxy_args_for(proxy: Option<Seq<char>>) -> Seq<Seq<char>> {
    match proxy {
        Some(p) => seq!["--proxy"@, p],
        None => seq![],
    }
}

/// The `--proxy` arguments in manual and off modes: the manual address
/// (which must be present and supported), or an empty proxy to turn any
/// proxy off.
pub open spec fn fixed_proxy_args(settings: ToolSettings) -> Result<Seq<Seq<char>>, Seq<char>> {
    match proxy_mode_spec(opt_view(settings.proxy_mode)) {
        ProxyMode::Manual => match proxy_url_spec(opt_view(settings.proxy_url), ProxyMode::Manual) {
            Ok(Some(p)) => Ok(seq!["--proxy"@, p]),
            Ok(None) => Err(missing_proxy_message()),
            Err(e) => Err(e),
        },
        _ => Ok(seq!["--proxy"@, seq![]]),
    }
}

pub open spec fn args_view(r: Result<Vec<String>, String>) -> Result<Seq<Seq<char>>, Seq<char>> {
    match r {
        Ok(v) => Ok(v@.map_values(|a: String| a@)),
        Err(e) => Err(e@),
    }
}

/// The proxy arguments for yt-dlp under the saved settings; in automatic
/// mode, those of the proxy that `auto_proxy_status` reports.
pub fn ytdlp_proxy_args<F: Fn() -> ProxyStatus>(settings: &ToolSettings, auto_proxy_status: F) -> (r:
    Result<Vec<String>, String>)
    requires
        call_requires(auto_proxy_status, ()),
    ensures
        proxy_mode_spec(opt_view(settings.proxy_mode)) != ProxyMode::Auto ==> args_view(r)
            == fixed_proxy_args(*settings),
        proxy_mode_spec(opt_view(settings.proxy_mode)) == ProxyMode::Auto ==> exists|s: ProxyStatus|
            call_ensures(auto_proxy_status, (), s) && args_view(r) == Ok::<Seq<Seq<char>>, Seq<char>>(
                proxy_args_for(opt_view(s.effective_proxy)),
            ),
{
    let mode_text = match &settings.proxy_mode {
        Some(m) => Some(m.as_str()),
        None => None,
    };
    let mode = normalize_proxy_mode(mode_text);
    let mut args: Vec<String> = Vec::new();
    match mode {
        ProxyMode::Manual => {
            let url_text = match &settings.proxy_url {
                Some(u) => Some(u.as_str()),
                None => None,
            };
            let proxy = match normalize_proxy_url(url_text, ProxyMode::Manual) {
                Ok(Some(p)) => p,
                Ok(None) => return Err(crate::text::string_from("请填写手动代理地址。")),
                Err(e) => return Err(e),
            };
            let ghost pv = proxy@;
            args.push(crate::text::string_from("--proxy"));
            args.push(proxy);
            assert(args@.map_values(|a: String| a@) =~= seq!["--proxy"@, pv]);
            Ok(args)
        },
        ProxyMode::Off => {
            args.push(crate::text::string_from("--proxy"));
            args.push(String::new());
            assert(args@.map_values(|a: String| a@) =~= seq!["--proxy"@, Seq::<char>::empty()]);
            Ok(args)
        },
        ProxyMode::Auto => {
            let status = proxy_status(settings, auto_proxy_status);
            let ghost st = status;
            match status.effective_proxy {
                Some(p) => {
                    let ghost pv = p@;
                    args.push(crate::text::string_from("--proxy"));
                    args.push(p);
                    assert(args@.map_values(|a: String| a@) =~= seq!["--proxy"@, pv]);
                },
                None => {
                    assert(args@.map_values(|a: String| a@) =~= Seq::<Seq<char>>::empty());
                },
            }
            let r: Result<Vec<String>, String> = Ok(args);
            assert(call_ensures(auto_proxy_status, (), st) && args_view(r) == Ok::<
                Seq<Seq<char>>,
                Seq<char>,
            >(proxy_args_for(opt_view(st.effective_proxy))));
            r
        },
    }
}

} // verus!
