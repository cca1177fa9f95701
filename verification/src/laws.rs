//! Properties that hold across the library's functions: round trips of the
//! names it prints and reads back, the order on versions, the path lists
//! without repeats, the command history, the cache directory names, what
//! the FFmpeg and yt-dlp command lines ask for, the system proxy chosen,
//! the label of the best format and the addresses of playlist entries.
use vstd::prelude::*;
use crate::text::{is_ws, lower, lower_char, trim, trim_end, trim_start};
use crate::tools::{
    ManagedTool, ToolSettings, candidate_dirs_spec, compare_parts_from, compare_versions_spec,
    dedupe_spec, has_path, opt_view, part_at,
};
use crate::text::{
    contains, decimal, find, find_char, has_char, lemma_find, lemma_matches_single, matches_at,
    parse_u64, starts_with,
};
use crate::downloads::{download_args_spec, probe_args_spec, queue_args_spec, is_invalid_spec, queue_sources_spec};
use crate::proxy::{
    ProxyMode, bracket_host, last_value, proxy_mode_spec, scutil_enabled_spec, scutil_pairs,
    scutil_proxy_url_spec, scutil_status_spec,
};
use crate::sites::{EntryJson, entry_url_spec, url_origin_spec, is_cache_char, keep_cache_chars, sanitize_spec};
use crate::ffmpeg::{FfmpegCommandRequest, ffmpeg_args_spec, same_path, command_line_spec, escape_quotes, is_shell_safe, join_space, shell_quote_spec};
use crate::history::{
    FfmpegCommandHistoryItem, append_spec, delete_spec, insert_newest_first, key, lex_lt,
    sort_history_spec, without_command, without_ids,
};
use crate::formats::{
    FormatJson, FormatOption, MediaJson, actual_resolution_label_spec, best_label_spec,
    best_video_among, dimension_score_spec, dims_label, first_video_from, format_label_spec,
    format_score_spec, number_of, text_of, unstated_resolution, fixed_options, format_options_spec, has_real_video_spec,
    insert_by_score, score_at, thumbnail_url_spec, sort_by_score, take_up_to, video_positions,
};

verus! {

// ---------------------------------------------------------------------------
// Names that are written out and read back
// ---------------------------------------------------------------------------
proof fn lemma_trim_plain(s: Seq<char>)
    requires
        s.len() > 0,
        forall|i: int| 0 <= i < s.len() ==> !is_ws(#[trigger] s[i]),
    ensures
        trim(s) == s,
{
    assert(trim_start(s) == s);
    assert(trim_end(s) == s);
}

proof fn lemma_lower_plain(s: Seq<char>)
    requires
        forall|i: int| 0 <= i < s.len() ==> 'a' <= #[trigger] s[i] <= 'z',
    ensures
        lower(s) == s,
{
    assert forall|i: int| 0 <= i < s.len() implies lower(s)[i] == s[i] by {
        assert(lower_char(s[i]) == s[i]);
    }
    assert(lower(s) =~= s);
}

/// A proxy mode, saved under the name that `ProxyMode::as_str` gives it, is
/// read back as the same mode.
pub proof fn law_proxy_mode_round_trip(mode: ProxyMode)
    ensures
        proxy_mode_spec(Some(mode.name_spec())) == mode,
{
    reveal_strlit("auto");
    reveal_strlit("manual");
    reveal_strlit("off");
    reveal_strlit("none");
    reveal_strlit("disabled");
    let s = mode.name_spec();
    lemma_trim_plain(s);
    lemma_lower_plain(s);
    assert(lower(trim(s)) == s);
    match mode {
        ProxyMode::Auto => {
            assert(s != "manual"@ && s != "off"@ && s != "none"@ && s != "disabled"@) by {
                assert(s[0] == 'a');
                assert(s.len() == 4);
            }
        },
        ProxyMode::Manual => {},
        ProxyMode::Off => {
            assert(s != "manual"@);
        },
    }
}

/// A tool's display name is a name that `ManagedTool::from_name` accepts, and
/// it stands for the same tool.
pub proof fn law_tool_name_round_trip(tool: ManagedTool)
    ensures
        ManagedTool::from_name_spec(tool.display_name_spec()) == Some(tool),
{
    reveal_strlit("yt-dlp");
    reveal_strlit("ytDlp");
    reveal_strlit("yt_dlp");
    reveal_strlit("ffmpeg");
    if tool == ManagedTool::Ffmpeg {
        let s = tool.display_name_spec();
        assert(s[0] == 'f');
        assert(s != "yt-dlp"@ && s != "ytDlp"@ && s != "yt_dlp"@);
    }
}

// ---------------------------------------------------------------------------
// The order on versions
// ---------------------------------------------------------------------------
proof fn lemma_parts_antisymmetric(a: Seq<u64>, b: Seq<u64>, i: nat)
    ensures
        compare_parts_from(a, b, i) == -compare_parts_from(b, a, i),
        -1 <= compare_parts_from(a, b, i) <= 1,
    decreases (if a.len() > b.len() {
        a.len()
    } else {
        b.len()
    }) - i,
{
    if i >= a.len() && i >= b.len() {
    } else if part_at(a, i as int) != part_at(b, i as int) {
    } else {
        lemma_parts_antisymmetric(a, b, i + 1);
    }
}

proof fn lemma_parts_reflexive(a: Seq<u64>, i: nat)
    ensures
        compare_parts_from(a, a, i) == 0,
    decreases a.len() - i,
{
    if i < a.len() {
        lemma_parts_reflexive(a, i + 1);
    }
}

proof fn lemma_parts_transitive(a: Seq<u64>, b: Seq<u64>, c: Seq<u64>, i: nat)
    requires
        compare_parts_from(a, b, i) <= 0,
        compare_parts_from(b, c, i) <= 0,
    ensures
        compare_parts_from(a, c, i) <= 0,
        compare_parts_from(a, b, i) < 0 || compare_parts_from(b, c, i) < 0 ==> compare_parts_from(
            a,
            c,
            i,
        ) < 0,
    decreases (if a.len() > b.len() {
        if a.len() > c.len() {
            a.len()
        } else {
            c.len()
        }
    } else {
        if b.len() > c.len() {
            b.len()
        } else {
            c.len()
        }
    }) - i,
{
    if i >= a.len() && i >= b.len() && i >= c.len() {
    } else if part_at(a, i as int) == part_at(b, i as int) && part_at(b, i as int) == part_at(
        c,
        i as int,
    ) {
        lemma_parts_transitive(a, b, c, i + 1);
    } else {
        if i >= a.len() && i >= c.len() {
            assert(part_at(a, i as int) == 0 && part_at(c, i as int) == 0);
        }
    }
}

/// Comparing two versions the other way round gives the opposite answer.
pub proof fn law_compare_versions_antisymmetric(left: Seq<char>, right: Seq<char>)
    ensures
        compare_versions_spec(left, right) == -compare_versions_spec(right, left),
        -1 <= compare_versions_spec(left, right) <= 1,
{
    lemma_parts_antisymmetric(
        crate::tools::version_parts_spec(left),
        crate::tools::version_parts_spec(right),
        0,
    );
}

/// Every version is equal to itself.
pub proof fn law_compare_versions_reflexive(version: Seq<char>)
    ensures
        compare_versions_spec(version, version) == 0,
{
    lemma_parts_reflexive(crate::tools::version_parts_spec(version), 0);
}

/// The order on versions is transitive: no version is newer than itself
/// through a chain of comparisons.
pub proof fn law_compare_versions_transitive(a: Seq<char>, b: Seq<char>, c: Seq<char>)
    requires
        compare_versions_spec(a, b) <= 0,
        compare_versions_spec(b, c) <= 0,
    ensures
        compare_versions_spec(a, c) <= 0,
        compare_versions_spec(a, b) < 0 || compare_versions_spec(b, c) < 0 ==> compare_versions_spec(
            a,
            c,
        ) < 0,
{
    lemma_parts_transitive(
        crate::tools::version_parts_spec(a),
        crate::tools::version_parts_spec(b),
        crate::tools::version_parts_spec(c),
        0,
    );
}

// ---------------------------------------------------------------------------
// Path lists without repeats
// ---------------------------------------------------------------------------
/// After `dedupe_paths` no two paths are the same path (equal components),
/// every path kept comes from the input, and every input path is the same
/// path as one that is kept.
pub proof fn law_dedupe_paths(paths: Seq<Seq<char>>)
    ensures
        forall|i: int, j: int|
            0 <= i < j < dedupe_spec(paths).len() ==> !same_path(
                #[trigger] dedupe_spec(paths)[i],
                #[trigger] dedupe_spec(paths)[j],
            ),
        forall|p: Seq<char>| #[trigger] dedupe_spec(paths).contains(p) ==> paths.contains(p),
        forall|p: Seq<char>| #[trigger] paths.contains(p) ==> has_path(dedupe_spec(paths), p),
    decreases paths.len(),
{
    if paths.len() > 0 {
        let rest = paths.drop_last();
        law_dedupe_paths(rest);
        let d = dedupe_spec(rest);
        let r = dedupe_spec(paths);
        let l = paths.last();
        assert(paths =~= rest.push(l));
        if !has_path(d, l) {
            assert(r == d.push(l));
            assert forall|i: int, j: int| 0 <= i < j < r.len() implies !same_path(
                #[trigger] r[i],
                #[trigger] r[j],
            ) by {
                if j == d.len() {
                    assert(r[i] == d[i]);
                    assert(r[j] == l);
                    if same_path(r[i], r[j]) {
                        assert(same_path(d[i], l));
                    }
                } else {
                    assert(r[i] == d[i] && r[j] == d[j]);
                }
            }
        }
        assert forall|p: Seq<char>| #[trigger] r.contains(p) implies paths.contains(p) by {
            let k = choose|k: int| 0 <= k < r.len() && r[k] == p;
            if k < d.len() {
                assert(r[k] == d[k]);
                assert(d.contains(p));
                let m = choose|m: int| 0 <= m < rest.len() && rest[m] == p;
                assert(paths[m] == p);
            } else {
                assert(p == l);
                assert(paths[paths.len() - 1] == p);
            }
        }
        assert forall|p: Seq<char>| #[trigger] paths.contains(p) implies has_path(r, p) by {
            let k = choose|k: int| 0 <= k < paths.len() && paths[k] == p;
            if k < rest.len() {
                assert(rest[k] == p);
                assert(rest.contains(p));
                assert(has_path(d, p));
                let m = choose|m: int| 0 <= m < d.len() && #[trigger] same_path(d[m], p);
                assert(r[m] == d[m]);
                assert(same_path(r[m], p));
            } else {
                assert(p == l);
                if has_path(d, l) {
                    let m = choose|m: int| 0 <= m < d.len() && #[trigger] same_path(d[m], l);
                    assert(r[m] == d[m]);
                    assert(same_path(r[m], p));
                } else {
                    assert(r[d.len() as int] == l);
                    assert(same_path(r[d.len() as int], p));
                }
            }
        }
    }
}

/// Removing repeats from a list that has none leaves it as it is.
pub proof fn law_dedupe_paths_idempotent(paths: Seq<Seq<char>>)
    ensures
        dedupe_spec(dedupe_spec(paths)) == dedupe_spec(paths),
{
    law_dedupe_paths(paths);
    lemma_dedupe_distinct(dedupe_spec(paths));
}

proof fn lemma_dedupe_distinct(s: Seq<Seq<char>>)
    requires
        forall|i: int, j: int| 0 <= i < j < s.len() ==> !same_path(#[trigger] s[i], #[trigger] s[j]),
    ensures
        dedupe_spec(s) == s,
    decreases s.len(),
{
    if s.len() > 0 {
        let rest = s.drop_last();
        assert forall|i: int, j: int| 0 <= i < j < rest.len() implies !same_path(
            #[trigger] rest[i],
            #[trigger] rest[j],
        ) by {
            assert(rest[i] == s[i] && rest[j] == s[j]);
        }
        lemma_dedupe_distinct(rest);
        if has_path(rest, s.last()) {
            let k = choose|k: int| 0 <= k < rest.len() && #[trigger] same_path(rest[k], s.last());
            assert(rest[k] == s[k]);
            assert(s.last() == s[s.len() - 1]);
            assert(!same_path(s[k], s[s.len() - 1]));
        }
        assert(rest.push(s.last()) =~= s);
    }
}

// ---------------------------------------------------------------------------
// Cache directory names
// ---------------------------------------------------------------------------
proof fn lemma_keep_cache_chars(s: Seq<char>)
    ensures
        forall|i: int| 0 <= i < keep_cache_chars(s).len() ==> is_cache_char(
            #[trigger] keep_cache_chars(s)[i],
        ),
        (forall|i: int| 0 <= i < s.len() ==> is_cache_char(#[trigger] s[i])) ==> keep_cache_chars(
            s,
        ) == s,
    decreases s.len(),
{
    if s.len() > 0 {
        lemma_keep_cache_chars(s.drop_last());
        let rest = keep_cache_chars(s.drop_last());
        let k = keep_cache_chars(s);
        assert forall|i: int| 0 <= i < k.len() implies is_cache_char(#[trigger] k[i]) by {
            if i < rest.len() {
                assert(k[i] == rest[i]);
            }
        }
        if forall|i: int| 0 <= i < s.len() ==> is_cache_char(#[trigger] s[i]) {
            assert(is_cache_char(s[s.len() - 1]));
            assert forall|i: int| 0 <= i < s.drop_last().len() implies is_cache_char(
                #[trigger] s.drop_last()[i],
            ) by {
                assert(s.drop_last()[i] == s[i]);
            }
            assert(s.drop_last().push(s.last()) =~= s);
        }
    }
}

/// A cache directory name is never empty, holds only ASCII letters, digits,
/// `-` and `_`, and sanitising it again leaves it unchanged.
pub proof fn law_sanitize_cache_component(value: Seq<char>)
    ensures
        sanitize_spec(value).len() > 0,
        forall|i: int| 0 <= i < sanitize_spec(value).len() ==> is_cache_char(
            #[trigger] sanitize_spec(value)[i],
        ),
        sanitize_spec(sanitize_spec(value)) == sanitize_spec(value),
{
    reveal_strlit("unknown-task");
    lemma_keep_cache_chars(value);
    let r = sanitize_spec(value);
    assert forall|i: int| 0 <= i < r.len() implies is_cache_char(#[trigger] r[i]) by {
        if keep_cache_chars(value).len() == 0 {
            assert(r == "unknown-task"@);
        }
    }
    lemma_keep_cache_chars(r);
}

// ---------------------------------------------------------------------------
// The command history
// ---------------------------------------------------------------------------
proof fn lemma_lex_irreflexive(a: Seq<char>)
    ensures
        !lex_lt(a, a),
    decreases a.len(),
{
    if a.len() > 0 {
        lemma_lex_irreflexive(a.drop_first());
    }
}

proof fn lemma_lex_asymmetric(a: Seq<char>, b: Seq<char>)
    ensures
        lex_lt(a, b) ==> !lex_lt(b, a),
    decreases a.len(),
{
    if a.len() > 0 && b.len() > 0 && a[0] == b[0] {
        lemma_lex_asymmetric(a.drop_first(), b.drop_first());
    }
}

proof fn lemma_lex_transitive(a: Seq<char>, b: Seq<char>, c: Seq<char>)
    requires
        lex_lt(a, b),
        lex_lt(b, c),
    ensures
        lex_lt(a, c),
    decreases a.len(),
{
    if a.len() > 0 && b.len() > 0 && c.len() > 0 && a[0] == b[0] && b[0] == c[0] {
        lemma_lex_transitive(a.drop_first(), b.drop_first(), c.drop_first());
    }
}

proof fn lemma_lex_total(a: Seq<char>, b: Seq<char>)
    ensures
        a != b ==> lex_lt(a, b) || lex_lt(b, a),
    decreases a.len(),
{
    if a.len() == 0 && b.len() == 0 {
        assert(a =~= b);
    }
    if a.len() > 0 && b.len() > 0 && a[0] == b[0] {
        lemma_lex_total(a.drop_first(), b.drop_first());
        if a.drop_first() == b.drop_first() {
            assert(a.drop_first().len() == b.drop_first().len());
            assert(a.len() == b.len());
            assert(a =~= b) by {
                assert forall|i: int| 0 <= i < a.len() implies a[i] == b[i] by {
                    if i > 0 {
                        assert(a[i] == a.drop_first()[i - 1]);
                        assert(b[i] == b.drop_first()[i - 1]);
                    }
                }
            }
        }
    }
}

/// Newest first: no item was created before an item that follows it.
pub open spec fn newest_first(s: Seq<FfmpegCommandHistoryItem>) -> bool {
    forall|i: int, j: int| 0 <= i < j < s.len() ==> !lex_lt(key(#[trigger] s[i]), key(#[trigger] s[j]))
}

proof fn lemma_insert_position(s: Seq<FfmpegCommandHistoryItem>, x: FfmpegCommandHistoryItem) -> (p:
    int)
    ensures
        0 <= p <= s.len(),
        insert_newest_first(s, x) == s.insert(p, x),
        forall|t: int| 0 <= t < p ==> !lex_lt(key(#[trigger] s[t]), key(x)),
        p < s.len() ==> lex_lt(key(s[p]), key(x)),
    decreases s.len(),
{
    if s.len() == 0 {
        assert(s.insert(0, x) =~= seq![x]);
        0
    } else if lex_lt(key(s[0]), key(x)) {
        assert(s.insert(0, x) =~= seq![x] + s);
        0
    } else {
        let t = s.drop_first();
        let q = lemma_insert_position(t, x);
        assert(s.insert(q + 1, x) =~= seq![s[0]] + t.insert(q, x));
        assert forall|k: int| 0 <= k < q + 1 implies !lex_lt(key(#[trigger] s[k]), key(x)) by {
            if k > 0 {
                assert(s[k] == t[k - 1]);
            }
        }
        q + 1
    }
}

proof fn lemma_insert_keeps_order(s: Seq<FfmpegCommandHistoryItem>, x: FfmpegCommandHistoryItem)
    requires
        newest_first(s),
    ensures
        newest_first(insert_newest_first(s, x)),
        insert_newest_first(s, x).to_multiset() == s.to_multiset().insert(x),
{
    let p = lemma_insert_position(s, x);
    let r = s.insert(p, x);
    vstd::seq_lib::to_multiset_insert(s, p, x);
    assert forall|i: int, j: int| 0 <= i < j < r.len() implies !lex_lt(
        key(#[trigger] r[i]),
        key(#[trigger] r[j]),
    ) by {
        if i == p {
            let sj = s[j - 1];
            assert(r[j] == sj);
            assert(lex_lt(key(s[p]), key(x)));
            if p < j - 1 {
                assert(!lex_lt(key(s[p]), key(s[j - 1])));
            } else {
                lemma_lex_irreflexive(key(s[p]));
            }
            lemma_lex_total(key(s[p]), key(sj));
            if lex_lt(key(sj), key(s[p])) {
                lemma_lex_transitive(key(sj), key(s[p]), key(x));
            }
            lemma_lex_asymmetric(key(sj), key(x));
        } else if j == p {
            assert(r[i] == s[i]);
        } else {
            let si = if i < p {
                i
            } else {
                i - 1
            };
            let sj = if j < p {
                j
            } else {
                j - 1
            };
            assert(r[i] == s[si]);
            assert(r[j] == s[sj]);
        }
    }
}

/// The history sorted by `sort_ffmpeg_command_history` is newest first and
/// holds the same items as before.
pub proof fn law_sort_history(items: Seq<FfmpegCommandHistoryItem>)
    ensures
        newest_first(sort_history_spec(items)),
        sort_history_spec(items).to_multiset() == items.to_multiset(),
    decreases items.len(),
{
    broadcast use vstd::seq_lib::group_to_multiset_ensures;

    if items.len() == 0 {
        assert(sort_history_spec(items) =~= items);
    } else {
        let rest = items.drop_last();
        law_sort_history(rest);
        lemma_insert_keeps_order(sort_history_spec(rest), items.last());
        assert(rest.push(items.last()) =~= items);
    }
}

proof fn lemma_without_command(s: Seq<FfmpegCommandHistoryItem>, command: Seq<char>)
    ensures
        forall|x: FfmpegCommandHistoryItem|
            #[trigger] without_command(s, command).contains(x) <==> (s.contains(x)
                && x.command@ != command),
        without_command(s, command).len() <= s.len(),
    decreases s.len(),
{
    if s.len() > 0 {
        let rest = s.drop_last();
        lemma_without_command(rest, command);
        let w = without_command(rest, command);
        assert(rest.push(s.last()) =~= s);
        assert forall|x: FfmpegCommandHistoryItem|
            #[trigger] without_command(s, command).contains(x) <==> (s.contains(x)
                && x.command@ != command) by {
            lemma_push_contains_item(rest, s.last(), x);
            lemma_push_contains_item(w, s.last(), x);
        }
    }
}

proof fn lemma_without_ids(s: Seq<FfmpegCommandHistoryItem>, ids: Seq<Seq<char>>)
    ensures
        forall|x: FfmpegCommandHistoryItem|
            #[trigger] without_ids(s, ids).contains(x) <==> (s.contains(x) && !ids.contains(
                x.id@,
            )),
    decreases s.len(),
{
    if s.len() > 0 {
        let rest = s.drop_last();
        lemma_without_ids(rest, ids);
        let w = without_ids(rest, ids);
        assert(rest.push(s.last()) =~= s);
        assert forall|x: FfmpegCommandHistoryItem|
            #[trigger] without_ids(s, ids).contains(x) <==> (s.contains(x) && !ids.contains(
                x.id@,
            )) by {
            lemma_push_contains_item(rest, s.last(), x);
            lemma_push_contains_item(w, s.last(), x);
        }
    }
}

proof fn lemma_push_contains_item(
    s: Seq<FfmpegCommandHistoryItem>,
    y: FfmpegCommandHistoryItem,
    x: FfmpegCommandHistoryItem,
)
    ensures
        s.push(y).contains(x) <==> (s.contains(x) || x == y),
{
    if s.contains(x) {
        let k = choose|k: int| 0 <= k < s.len() && s[k] == x;
        assert(s.push(y)[k] == x);
    }
    if x == y {
        assert(s.push(y)[s.len() as int] == x);
    }
    if s.push(y).contains(x) && x != y {
        let k = choose|k: int| 0 <= k < s.len() + 1 && s.push(y)[k] == x;
        assert(s[k] == x);
    }
}

proof fn lemma_same_items(a: Seq<FfmpegCommandHistoryItem>, b: Seq<FfmpegCommandHistoryItem>)
    requires
        a.to_multiset() == b.to_multiset(),
    ensures
        forall|x: FfmpegCommandHistoryItem| #[trigger] a.contains(x) <==> b.contains(x),
{
    assert forall|x: FfmpegCommandHistoryItem| #[trigger] a.contains(x) <==> b.contains(x) by {
        vstd::seq_lib::to_multiset_contains(a, x);
        vstd::seq_lib::to_multiset_contains(b, x);
    }
}

/// Saving a draft keeps at most 500 drafts, newest first; the new draft is
/// the only one with its command; every other draft was in the history
/// before; and while the history held fewer than 500 drafts, the new one is
/// kept.
pub proof fn law_append_history(items: Seq<FfmpegCommandHistoryItem>, next: FfmpegCommandHistoryItem)
    ensures
        append_spec(items, next).len() <= 500,
        newest_first(append_spec(items, next)),
        forall|i: int|
            0 <= i < append_spec(items, next).len() && (#[trigger] append_spec(items, next)[i]).command@
                == next.command@ ==> append_spec(items, next)[i] == next,
        forall|i: int|
            0 <= i < append_spec(items, next).len() ==> #[trigger] append_spec(items, next)[i] == next
                || items.contains(append_spec(items, next)[i]),
        items.len() < 500 ==> append_spec(items, next).contains(next),
{
    let w = without_command(items, next.command@);
    let joined = seq![next] + w;
    let sorted = sort_history_spec(joined);
    let r = append_spec(items, next);
    law_sort_history(joined);
    lemma_without_command(items, next.command@);
    lemma_same_items(sorted, joined);
    broadcast use vstd::seq_lib::group_to_multiset_ensures;

    assert(sorted.len() == joined.len()) by {
        assert(sorted.to_multiset().len() == joined.to_multiset().len());
    }
    assert forall|i: int| 0 <= i < r.len() implies #[trigger] r[i] == next || (items.contains(r[i])
        && r[i].command@ != next.command@) by {
        assert(r[i] == sorted[i]);
        assert(sorted.contains(sorted[i]));
        assert(joined.contains(r[i]));
        let k = choose|k: int| 0 <= k < joined.len() && joined[k] == r[i];
        if k > 0 {
            assert(w[k - 1] == r[i]);
            assert(w.contains(r[i]));
        }
    }
    assert forall|i: int, j: int| 0 <= i < j < r.len() implies !lex_lt(
        key(#[trigger] r[i]),
        key(#[trigger] r[j]),
    ) by {
        assert(r[i] == sorted[i] && r[j] == sorted[j]);
    }
    if items.len() < 500 {
        assert(r == sorted);
        assert(joined[0] == next);
        assert(joined.contains(next));
    }
}

/// Deleting drafts by id leaves, newest first, exactly the drafts whose id
/// was not listed, each as often as before.
pub proof fn law_delete_history(items: Seq<FfmpegCommandHistoryItem>, ids: Seq<Seq<char>>)
    requires
        ids.len() > 0,
    ensures
        newest_first(delete_spec(items, ids)),
        delete_spec(items, ids).to_multiset() == without_ids(items, ids).to_multiset(),
        forall|x: FfmpegCommandHistoryItem|
            #[trigger] delete_spec(items, ids).contains(x) <==> (items.contains(x) && !ids.contains(
                x.id@,
            )),
{
    law_sort_history(without_ids(items, ids));
    lemma_without_ids(items, ids);
    lemma_same_items(delete_spec(items, ids), without_ids(items, ids));
}

/// Asking to delete no drafts leaves the history as it was, sorted newest
/// first.
pub proof fn law_delete_nothing(items: Seq<FfmpegCommandHistoryItem>)
    ensures
        delete_spec(items, seq![]) == sort_history_spec(items),
        delete_spec(items, seq![]).to_multiset() == items.to_multiset(),
{
    law_sort_history(items);
}

// ---------------------------------------------------------------------------
// The list of format choices
// ---------------------------------------------------------------------------
/// Highest score first.
pub open spec fn by_descending_score(fs: Seq<FormatJson>, s: Seq<nat>) -> bool {
    forall|i: int, j: int|
        0 <= i < j < s.len() ==> score_at(fs, #[trigger] s[i]) >= score_at(fs, #[trigger] s[j])
}

proof fn lemma_score_position(fs: Seq<FormatJson>, s: Seq<nat>, x: nat) -> (p: int)
    ensures
        0 <= p <= s.len(),
        insert_by_score(fs, s, x) == s.insert(p, x),
        forall|t: int| 0 <= t < p ==> score_at(fs, #[trigger] s[t]) >= score_at(fs, x),
        p < s.len() ==> score_at(fs, s[p]) < score_at(fs, x),
    decreases s.len(),
{
    if s.len() == 0 {
        assert(s.insert(0, x) =~= seq![x]);
        0
    } else if score_at(fs, s[0]) < score_at(fs, x) {
        assert(s.insert(0, x) =~= seq![x] + s);
        0
    } else {
        let t = s.drop_first();
        let q = lemma_score_position(fs, t, x);
        assert(s.insert(q + 1, x) =~= seq![s[0]] + t.insert(q, x));
        assert forall|k: int| 0 <= k < q + 1 implies score_at(fs, #[trigger] s[k]) >= score_at(
            fs,
            x,
        ) by {
            if k > 0 {
                assert(s[k] == t[k - 1]);
            }
        }
        q + 1
    }
}

/// The formats' positions as `build_format_options` orders them: highest
/// score first, and the same positions as before.
pub proof fn law_sort_by_score(fs: Seq<FormatJson>, s: Seq<nat>)
    ensures
        by_descending_score(fs, sort_by_score(fs, s)),
        sort_by_score(fs, s).to_multiset() == s.to_multiset(),
    decreases s.len(),
{
    broadcast use vstd::seq_lib::group_to_multiset_ensures;

    if s.len() == 0 {
        assert(sort_by_score(fs, s) =~= s);
    } else {
        let rest = s.drop_last();
        law_sort_by_score(fs, rest);
        let sorted = sort_by_score(fs, rest);
        let x = s.last();
        let p = lemma_score_position(fs, sorted, x);
        let r = sorted.insert(p, x);
        vstd::seq_lib::to_multiset_insert(sorted, p, x);
        assert(rest.push(x) =~= s);
        assert forall|i: int, j: int| 0 <= i < j < r.len() implies score_at(fs, #[trigger] r[i])
            >= score_at(fs, #[trigger] r[j]) by {
            if i == p {
                assert(r[j] == sorted[j - 1]);
                if p < j - 1 {
                    assert(score_at(fs, sorted[p]) >= score_at(fs, sorted[j - 1]));
                }
            } else if j == p {
                assert(r[i] == sorted[i]);
            } else {
                let si = if i < p {
                    i
                } else {
                    i - 1
                };
                let sj = if j < p {
                    j
                } else {
                    j - 1
                };
                assert(r[i] == sorted[si]);
                assert(r[j] == sorted[sj]);
            }
        }
    }
}

/// The positions taken into the list are exactly those of the formats that
/// carry video, each once and in order.
pub proof fn law_video_positions(fs: Seq<FormatJson>)
    ensures
        forall|k: nat|
            #[trigger] video_positions(fs, fs.len()).contains(k) <==> (k < fs.len()
                && has_real_video_spec(fs[k as int])),
        forall|i: int, j: int|
            0 <= i < j < video_positions(fs, fs.len()).len() ==> #[trigger] video_positions(
                fs,
                fs.len(),
            )[i] < #[trigger] video_positions(fs, fs.len())[j],
{
    lemma_video_positions(fs, fs.len());
}

proof fn lemma_video_positions(fs: Seq<FormatJson>, n: nat)
    requires
        n <= fs.len(),
    ensures
        forall|k: nat|
            #[trigger] video_positions(fs, n).contains(k) <==> (k < n && has_real_video_spec(
                fs[k as int],
            )),
        forall|i: int, j: int|
            0 <= i < j < video_positions(fs, n).len() ==> #[trigger] video_positions(fs, n)[i]
                < #[trigger] video_positions(fs, n)[j],
        forall|i: int| 0 <= i < video_positions(fs, n).len() ==> #[trigger] video_positions(fs, n)[i] < n,
    decreases n,
{
    if n > 0 {
        let m = (n - 1) as nat;
        lemma_video_positions(fs, m);
        let prev = video_positions(fs, m);
        let cur = video_positions(fs, n);
        assert forall|k: nat| #[trigger] cur.contains(k) <==> (k < n && has_real_video_spec(
            fs[k as int],
        )) by {
            if has_real_video_spec(fs[m as int]) {
                if prev.contains(k) {
                    let t = choose|t: int| 0 <= t < prev.len() && prev[t] == k;
                    assert(cur[t] == k);
                }
                if k == m {
                    assert(cur[prev.len() as int] == k);
                }
                if cur.contains(k) && k != m {
                    let t = choose|t: int| 0 <= t < cur.len() && cur[t] == k;
                    assert(t < prev.len());
                    assert(prev[t] == k);
                }
            } else {
                if k == m {
                    assert(!prev.contains(k));
                }
            }
        }
        assert forall|i: int, j: int| 0 <= i < j < cur.len() implies #[trigger] cur[i]
            < #[trigger] cur[j] by {
            if j < prev.len() {
                assert(cur[i] == prev[i] && cur[j] == prev[j]);
            } else {
                assert(cur[i] == prev[i]);
            }
        }
    }
}

/// The choices always begin with the three fixed ones, and at most twelve
/// of the video's own formats follow them.
pub proof fn law_format_options(json: MediaJson)
    ensures
        3 <= format_options_spec(json).len() <= 15,
        format_options_spec(json).take(3) == fixed_options(),
{
    let r = format_options_spec(json);
    assert(fixed_options().len() == 3);
    match json.formats {
        Some(v) => {
            assert(r.take(3) =~= fixed_options());
        },
        None => {
            assert(r.take(3) =~= fixed_options());
        },
    }
}

// ---------------------------------------------------------------------------
// Command lines read back by a shell
// ---------------------------------------------------------------------------
/// How a POSIX shell splits a line into words, for lines made of plain
/// characters, spaces, single-quoted runs and backslash escapes: `quoted`
/// says whether a single quote is open, `cur` is the word being read,
/// `started` whether one is, and `words` the words read so far.
pub open spec fn shell_read(
    s: Seq<char>,
    quoted: bool,
    cur: Seq<char>,
    started: bool,
    words: Seq<Seq<char>>,
) -> Seq<Seq<char>>
    decreases s.len(),
{
    if s.len() == 0 {
        if started {
            words.push(cur)
        } else {
            words
        }
    } else {
        let c = s[0];
        let rest = s.drop_first();
        if quoted {
            if c == '\'' {
                shell_read(rest, false, cur, true, words)
            } else {
                shell_read(rest, true, cur.push(c), true, words)
            }
        } else if c == ' ' {
            if started {
                shell_read(rest, false, seq![], false, words.push(cur))
            } else {
                shell_read(rest, false, cur, false, words)
            }
        } else if c == '\'' {
            shell_read(rest, true, cur, true, words)
        } else if c == '\\' && rest.len() > 0 {
            shell_read(rest.drop_first(), false, cur.push(rest[0]), true, words)
        } else {
            shell_read(rest, false, cur.push(c), true, words)
        }
    }
}

/// The words a shell reads from a line.
pub open spec fn shell_words(line: Seq<char>) -> Seq<Seq<char>> {
    shell_read(line, false, seq![], false, seq![])
}

proof fn lemma_read_plain(
    v: Seq<char>,
    rest: Seq<char>,
    cur: Seq<char>,
    started: bool,
    words: Seq<Seq<char>>,
)
    requires
        v.len() > 0,
        forall|i: int| 0 <= i < v.len() ==> is_shell_safe(#[trigger] v[i]),
    ensures
        shell_read(v + rest, false, cur, started, words) == shell_read(rest, false, cur + v, true, words),
    decreases v.len(),
{
    let s = v + rest;
    assert(s[0] == v[0]);
    assert(is_shell_safe(v[0]));
    if v.len() == 1 {
        assert(s.drop_first() =~= rest);
        assert(cur.push(v[0]) =~= cur + v);
    } else {
        let t = v.drop_first();
        assert(s.drop_first() =~= t + rest);
        assert forall|i: int| 0 <= i < t.len() implies is_shell_safe(#[trigger] t[i]) by {
            assert(t[i] == v[i + 1]);
        }
        lemma_read_plain(t, rest, cur.push(v[0]), true, words);
        assert(cur.push(v[0]) + t =~= cur + v);
    }
}

proof fn lemma_read_quoted(v: Seq<char>, rest: Seq<char>, cur: Seq<char>, words: Seq<Seq<char>>)
    ensures
        shell_read(escape_quotes(v) + "'"@ + rest, true, cur, true, words) == shell_read(
            rest,
            false,
            cur + v,
            true,
            words,
        ),
    decreases v.len(),
{
    reveal_strlit("'");
    reveal_strlit("'\\''");
    let s = escape_quotes(v) + "'"@ + rest;
    if v.len() == 0 {
        assert(escape_quotes(v) =~= Seq::<char>::empty());
        assert(s =~= seq!['\''] + rest);
        assert(s.len() > 0 && s[0] == '\'');
        assert(s.drop_first() =~= rest);
        assert(shell_read(s, true, cur, true, words) == shell_read(rest, false, cur, true, words));
        assert(cur + v =~= cur);
    } else {
        let t = v.drop_first();
        let tail = escape_quotes(t) + "'"@ + rest;
        lemma_read_quoted(t, rest, cur.push(v[0]), words);
        assert(cur.push(v[0]) + t =~= cur + v);
        if v[0] == '\'' {
            assert(escape_quotes(v) == "'\\''"@ + escape_quotes(t));
            assert(s =~= seq!['\'', '\\', '\'', '\''] + tail);
            let s1 = s.drop_first();
            let s2 = s1.drop_first().drop_first();
            let s3 = s2.drop_first();
            assert(s1 =~= seq!['\\', '\'', '\''] + tail);
            assert(s2 =~= seq!['\''] + tail);
            assert(s3 =~= tail);
            assert(shell_read(s, true, cur, true, words) == shell_read(s1, false, cur, true, words));
            assert(s1.drop_first().len() > 0 && s1.drop_first()[0] == '\'');
            assert(shell_read(s1, false, cur, true, words) == shell_read(s2, false, cur.push('\''), true, words));
            assert(shell_read(s2, false, cur.push('\''), true, words) == shell_read(s3, true, cur.push('\''), true, words));
        } else {
            assert(escape_quotes(v) == seq![v[0]] + escape_quotes(t));
            assert(s =~= seq![v[0]] + tail);
            assert(s.drop_first() =~= tail);
            assert(shell_read(s, true, cur, true, words) == shell_read(tail, true, cur.push(v[0]), true, words));
        }
    }
}

proof fn lemma_read_word(v: Seq<char>, rest: Seq<char>, words: Seq<Seq<char>>)
    ensures
        shell_read(shell_quote_spec(v) + rest, false, seq![], false, words) == shell_read(
            rest,
            false,
            v,
            true,
            words,
        ),
{
    reveal_strlit("'");
    if v.len() > 0 && forall|i: int| 0 <= i < v.len() ==> is_shell_safe(#[trigger] v[i]) {
        lemma_read_plain(v, rest, seq![], false, words);
        assert(Seq::<char>::empty() + v =~= v);
    } else {
        let s = shell_quote_spec(v) + rest;
        assert(s =~= seq!['\''] + (escape_quotes(v) + "'"@ + rest));
        assert(s[0] == '\'');
        assert(s.drop_first() =~= escape_quotes(v) + "'"@ + rest);
        lemma_read_quoted(v, rest, seq![], words);
        assert(Seq::<char>::empty() + v =~= v);
    }
}

proof fn lemma_join_first(ws: Seq<Seq<char>>)
    requires
        ws.len() >= 2,
    ensures
        join_space(ws) == ws[0] + " "@ + join_space(ws.drop_first()),
    decreases ws.len(),
{
    let d = ws.drop_first();
    if ws.len() == 2 {
        assert(ws.drop_last() =~= seq![ws[0]]);
        assert(join_space(ws.drop_last()) == ws[0]);
        assert(d =~= seq![ws[1]]);
        assert(join_space(d) == ws[1]);
        assert(join_space(ws) == join_space(ws.drop_last()) + " "@ + ws.last());
    } else {
        let l = ws.drop_last();
        lemma_join_first(l);
        assert(l.drop_first() =~= d.drop_last());
        assert(d.last() == ws.last());
        assert(l[0] == ws[0]);
        assert(join_space(ws) == join_space(l) + " "@ + ws.last());
        assert(join_space(d) == join_space(d.drop_last()) + " "@ + d.last());
        assert(join_space(ws) =~= ws[0] + " "@ + join_space(d));
    }
}

proof fn lemma_read_line(args: Seq<Seq<char>>, words: Seq<Seq<char>>)
    requires
        args.len() > 0,
    ensures
        shell_read(
            join_space(args.map_values(|a: Seq<char>| shell_quote_spec(a))),
            false,
            seq![],
            false,
            words,
        ) == words + args,
    decreases args.len(),
{
    reveal_strlit(" ");
    let qs = args.map_values(|a: Seq<char>| shell_quote_spec(a));
    if args.len() == 1 {
        assert(join_space(qs) == qs[0]);
        lemma_read_word(args[0], seq![], words);
        assert(qs[0] + Seq::<char>::empty() =~= qs[0]);
        assert(words + args =~= words.push(args[0]));
    } else {
        let rest_args = args.drop_first();
        let rest_qs = rest_args.map_values(|a: Seq<char>| shell_quote_spec(a));
        assert(qs.drop_first() =~= rest_qs);
        lemma_join_first(qs);
        let tail = join_space(rest_qs);
        lemma_read_word(args[0], " "@ + tail, words);
        assert(qs[0] + " "@ + tail =~= qs[0] + (" "@ + tail));
        let after = " "@ + tail;
        assert(after[0] == ' ');
        assert(after.drop_first() =~= tail);
        lemma_read_line(rest_args, words.push(args[0]));
        assert(words.push(args[0]) + rest_args =~= words + args);
    }
}

/// A command line built by `shell_command_line` is read by a shell as
/// exactly its arguments, whatever characters they hold.
pub proof fn law_command_line_round_trip(args: Seq<Seq<char>>)
    ensures
        shell_words(command_line_spec(args)) == args,
{
    if args.len() == 0 {
        assert(join_space(args.map_values(|a: Seq<char>| shell_quote_spec(a))) =~= Seq::<char>::empty());
        assert(shell_words(command_line_spec(args)) =~= args);
    } else {
        lemma_read_line(args, seq![]);
        assert(Seq::<Seq<char>>::empty() + args =~= args);
    }
}

// ---------------------------------------------------------------------------
// Settings, history entries, thumbnails and queues
// ---------------------------------------------------------------------------
/// A tool path saved with `ManagedTool::set_path` is the one
/// `ManagedTool::path` reads back; the other tool's path and the proxy
/// settings are left as they were.
pub proof fn law_saved_path_round_trip(tool: ManagedTool, settings: ToolSettings, path: Option<String>)
    ensures
        tool.path_spec(tool.with_path_spec(settings, path)) == path,
        ({
            let other = match tool {
                ManagedTool::YtDlp => ManagedTool::Ffmpeg,
                ManagedTool::Ffmpeg => ManagedTool::YtDlp,
            };
            other.path_spec(tool.with_path_spec(settings, path)) == other.path_spec(settings)
        }),
        tool.with_path_spec(settings, path).proxy_mode == settings.proxy_mode,
        tool.with_path_spec(settings, path).proxy_url == settings.proxy_url,
{
}

/// The history entry of a task that is still running or paused in this
/// session is never cleaned up, whatever its status.
pub proof fn law_active_history_kept(status: Seq<char>, stale: bool, output_is_file: Option<bool>)
    ensures
        !is_invalid_spec(status, true, stale, output_is_file),
{
}

/// A thumbnail address is never fetched over plain `http://`, and
/// normalising it again changes nothing.
pub proof fn law_thumbnail_https(url: Seq<char>)
    ensures
        !starts_with(thumbnail_url_spec(url), "http://"@),
        thumbnail_url_spec(thumbnail_url_spec(url)) == thumbnail_url_spec(url),
{
    reveal_strlit("http://");
    reveal_strlit("https://");
    let r = thumbnail_url_spec(url);
    if starts_with(url, "http://"@) {
        assert(r[4] == 's');
        assert("http://"@[4] == ':');
        if starts_with(r, "http://"@) {
            assert(r.take(7)[4] == r[4]);
        }
    }
}

/// The addresses of a download queue are numbered 1, 2, 3, ... in their
/// order, none of them is blank, and there are no more of them than lines.
pub proof fn law_queue_sources_numbered(urls: Seq<Seq<char>>)
    ensures
        queue_sources_spec(urls).len() <= urls.len(),
        forall|i: int|
            0 <= i < queue_sources_spec(urls).len() ==> (#[trigger] queue_sources_spec(urls)[i]).1
                == i + 1 && queue_sources_spec(urls)[i].0.len() > 0,
    decreases urls.len(),
{
    if urls.len() > 0 {
        law_queue_sources_numbered(urls.drop_last());
    }
}

/// The directories searched for a tool hold every `PATH` directory and the
/// four usual install directories (as paths: by components), and no two of
/// them are the same path.
pub proof fn law_search_dirs(path_dirs: Seq<Seq<char>>)
    ensures
        forall|d: Seq<char>| #[trigger] path_dirs.contains(d) ==> has_path(candidate_dirs_spec(path_dirs), d),
        has_path(candidate_dirs_spec(path_dirs), "/opt/homebrew/bin"@),
        has_path(candidate_dirs_spec(path_dirs), "/usr/local/bin"@),
        has_path(candidate_dirs_spec(path_dirs), "/usr/bin"@),
        has_path(candidate_dirs_spec(path_dirs), "/bin"@),
        forall|i: int, j: int|
            0 <= i < j < candidate_dirs_spec(path_dirs).len() ==> !same_path(
                #[trigger] candidate_dirs_spec(path_dirs)[i],
                #[trigger] candidate_dirs_spec(path_dirs)[j],
            ),
{
    let fallback = seq!["/opt/homebrew/bin"@, "/usr/local/bin"@, "/usr/bin"@, "/bin"@];
    let all = path_dirs + fallback;
    let r = candidate_dirs_spec(path_dirs);
    assert(r == dedupe_spec(all));
    law_dedupe_paths(all);
    assert forall|d: Seq<char>| #[trigger] path_dirs.contains(d) implies has_path(r, d) by {
        let k = choose|k: int| 0 <= k < path_dirs.len() && path_dirs[k] == d;
        assert(all[k] == d);
        assert(all.contains(d));
    }
    let n = path_dirs.len() as int;
    assert(all[n] == "/opt/homebrew/bin"@);
    assert(all.contains("/opt/homebrew/bin"@));
    assert(all[n + 1] == "/usr/local/bin"@);
    assert(all.contains("/usr/local/bin"@));
    assert(all[n + 2] == "/usr/bin"@);
    assert(all.contains("/usr/bin"@));
    assert(all[n + 3] == "/bin"@);
    assert(all.contains("/bin"@));
}

// ---------------------------------------------------------------------------
// What the command lines do
// ---------------------------------------------------------------------------
/// Merging audio and video: FFmpeg reads the video file as input 0 and the
/// chosen audio file (trimmed) as input 1, takes the video stream from input
/// 0 and the audio stream from input 1, copies the video, encodes the audio
/// as AAC, stops at the shorter stream and writes the output last.
pub proof fn law_merge_takes_audio_from_second_input(
    ffmpeg: Seq<char>,
    input: Seq<char>,
    output: Seq<char>,
    request: FfmpegCommandRequest,
    audio: Seq<char>,
)
    requires
        request.preset_id@ == "mergeAudioVideo"@,
        opt_view(request.secondary_input_path) == Some(audio),
    ensures
        ffmpeg_args_spec(ffmpeg, input, output, request, true) is Ok,
        ({
            let a = ffmpeg_args_spec(ffmpeg, input, output, request, true)->Ok_0;
            &&& a.len() == 17
            &&& a[0] == ffmpeg
            &&& a[3] == "-i"@ && a[4] == input
            &&& a[5] == "-i"@ && a[6] == trim(audio)
            &&& a[7] == "-map"@ && a[8] == "0:v:0"@
            &&& a[9] == "-map"@ && a[10] == "1:a:0"@
            &&& a[11] == "-c:v"@ && a[12] == "copy"@
            &&& a[13] == "-c:a"@ && a[14] == "aac"@
            &&& a[15] == "-shortest"@
            &&& a[16] == output
        }),
        ffmpeg_args_spec(ffmpeg, input, output, request, false) is Err,
{
    reveal_strlit("mergeAudioVideo");
    reveal_strlit("convertMp4");
    reveal_strlit("compress");
    reveal_strlit("extractAudio");
    reveal_strlit("trim");
    assert("mergeAudioVideo"@.len() == 15);
    assert("convertMp4"@.len() == 10);
    assert("compress"@.len() == 8);
    assert("extractAudio"@.len() == 12);
    assert("trim"@.len() == 4);
}

/// A download fetches the one video the address names, never the playlist
/// around it: its arguments hold `--no-playlist`, and `--yes-playlist` only
/// where the caller passed that very text as one of the values.
pub proof fn law_download_single_video(
    format: Seq<char>,
    ffmpeg_path: Seq<char>,
    output_dir: Seq<char>,
    cache_dir: Seq<char>,
    ytdlp_cache_dir: Seq<char>,
    browser: Option<Seq<char>>,
    url: Seq<char>,
)
    requires
        format != "--yes-playlist"@,
        ffmpeg_path != "--yes-playlist"@,
        ytdlp_cache_dir != "--yes-playlist"@,
        browser != Some("--yes-playlist"@),
        url != "--yes-playlist"@,
    ensures
        download_args_spec(format, ffmpeg_path, output_dir, cache_dir, ytdlp_cache_dir, browser, url).contains(
            "--no-playlist"@,
        ),
        !download_args_spec(format, ffmpeg_path, output_dir, cache_dir, ytdlp_cache_dir, browser, url).contains(
            "--yes-playlist"@,
        ),
{
    let a = download_args_spec(format, ffmpeg_path, output_dir, cache_dir, ytdlp_cache_dir, browser, url);
    let y = "--yes-playlist"@;
    reveal_strlit("--yes-playlist");
    reveal_strlit("--no-playlist");
    reveal_strlit("--progress");
    reveal_strlit("--newline");
    reveal_strlit("--color");
    reveal_strlit("stderr:never");
    reveal_strlit("--progress-delta");
    reveal_strlit("0.5");
    reveal_strlit("--progress-template");
    reveal_strlit("postprocess:VD_POSTPROCESS:%(progress.status|)s");
    reveal_strlit("--socket-timeout");
    reveal_strlit("30");
    reveal_strlit("-f");
    reveal_strlit("--ffmpeg-location");
    reveal_strlit("--merge-output-format");
    reveal_strlit("mp4");
    reveal_strlit("--paths");
    reveal_strlit("home:");
    reveal_strlit("temp:");
    reveal_strlit("--cache-dir");
    reveal_strlit("--continue");
    reveal_strlit("-o");
    reveal_strlit("%(title).120B-%(id)s.%(ext)s");
    reveal_strlit("--print");
    reveal_strlit("after_move:VD_OUTPUT=%(filepath)s");
    reveal_strlit("--cookies-from-browser");
    reveal_strlit(
        "download:VD_PROGRESS:%(progress._percent_str)s|%(progress._speed_str)s|%(progress._eta_str)s|%(info.vcodec|)s|%(info.acodec|)s|%(info.format_id|)s",
    );
    assert(a[10] == "--no-playlist"@);
    assert(("home:"@ + output_dir)[0] != y[0]);
    assert(("temp:"@ + cache_dir)[0] != y[0]);
    assert(y.len() == 14);
    assert forall|i: int| 0 <= i < a.len() implies a[i] != y by {
        if i == 20 {
            assert(a[i][0] != y[0]);
        } else if i == 22 {
            assert(a[i][0] != y[0]);
        } else if i == 14 || i == 16 || i == 24 || i >= 30 {
        } else {
            assert(a[i].len() != 14);
        }
    }
}

/// A playlist entry of a YouTube source whose address is relative to the
/// site (`watch?…`, `shorts/…`, `live/…`) is resolved against the source's
/// origin: origin, `/`, then the trimmed address. Any other bare text is
/// taken as a video id.
pub proof fn law_youtube_entry_address(raw: Seq<char>, entry: EntryJson, source: Seq<char>)
    requires
        contains(lower(source), "youtube.com"@),
    ensures
        starts_with(trim(raw), "watch?"@) || starts_with(trim(raw), "shorts/"@) || starts_with(
            trim(raw),
            "live/"@,
        ) ==> entry_url_spec(raw, entry, source) == match url_origin_spec(source) {
            Some(o) => Some(o + "/"@ + trim(raw)),
            None => None::<Seq<char>>,
        },
        trim(raw).len() > 0 && trim(raw)[0] != '/' && trim(raw)[0] != 'h' && !starts_with(
            trim(raw),
            "watch?"@,
        ) && !starts_with(trim(raw), "shorts/"@) && !starts_with(trim(raw), "live/"@)
            ==> entry_url_spec(raw, entry, source) == Some("https://www.youtube.com/watch?v="@ + trim(raw)),
{
    let r = trim(raw);
    reveal_strlit("watch?");
    reveal_strlit("shorts/");
    reveal_strlit("live/");
    reveal_strlit("http://");
    reveal_strlit("https://");
    reveal_strlit("//");
    reveal_strlit("/");
    if r.len() > 0 {
        if starts_with(r, "http://"@) {
            assert(r.take(7)[0] == r[0]);
        }
        if starts_with(r, "https://"@) {
            assert(r.take(8)[0] == r[0]);
        }
        if starts_with(r, "//"@) {
            assert(r.take(2)[0] == r[0]);
        }
        if starts_with(r, "/"@) {
            assert(r.take(1)[0] == r[0]);
        }
        if starts_with(r, "watch?"@) {
            assert(r.take(6)[0] == r[0]);
        }
        if starts_with(r, "shorts/"@) {
            assert(r.take(7)[0] == r[0]);
        }
        if starts_with(r, "live/"@) {
            assert(r.take(5)[0] == r[0]);
        }
    }
}

/// The macOS system proxy: where no HTTPS proxy is usable and the HTTP
/// proxy is enabled with a host (no IPv6 colon) and a port in `1..=65535`,
/// the proxy in effect is `http://host:port`, reported as the HTTP system
/// proxy, whatever the SOCKS settings say.
pub proof fn law_scutil_http_proxy(output: Seq<char>, host: Seq<char>, port_text: Seq<char>, port: u64)
    requires
        scutil_proxy_url_spec(scutil_pairs(output), "HTTPS"@, "http"@) is None,
        scutil_enabled_spec(scutil_pairs(output), "HTTPEnable"@),
        last_value(scutil_pairs(output), "HTTPProxy"@) == Some(host),
        last_value(scutil_pairs(output), "HTTPPort"@) == Some(port_text),
        trim(host).len() > 0,
        !has_char(trim(host), ':'),
        parse_u64(trim(port_text)) == Some(port),
        0 < port <= 65535,
    ensures
        scutil_status_spec(scutil_pairs(output)) == (
            "auto"@,
            Some("http://"@ + trim(host) + ":"@ + decimal(port as nat)),
            Some("systemHttp"@),
            Some("自动读取 HTTP 系统代理"@),
        ),
{
    reveal_strlit("HTTP");
    reveal_strlit("Enable");
    reveal_strlit("Proxy");
    reveal_strlit("Port");
    reveal_strlit("HTTPEnable");
    reveal_strlit("HTTPProxy");
    reveal_strlit("HTTPPort");
    assert("HTTP"@ + "Enable"@ =~= "HTTPEnable"@);
    assert("HTTP"@ + "Proxy"@ =~= "HTTPProxy"@);
    assert("HTTP"@ + "Port"@ =~= "HTTPPort"@);
    assert(bracket_host(trim(host)) == trim(host));
    reveal_strlit("http");
    reveal_strlit("://");
    reveal_strlit("http://");
    assert("http"@ + "://"@ =~= "http://"@);
    let pairs = scutil_pairs(output);
    assert(scutil_proxy_url_spec(pairs, "HTTP"@, "http"@) == Some(
        "http"@ + "://"@ + bracket_host(trim(host)) + ":"@ + decimal(port as nat),
    ));
}

/// An enabled, usable HTTPS system proxy wins over the HTTP and SOCKS ones:
/// the proxy in effect is `http://host:port` from the HTTPS settings.
pub proof fn law_scutil_https_first(output: Seq<char>, host: Seq<char>, port_text: Seq<char>, port: u64)
    requires
        scutil_enabled_spec(scutil_pairs(output), "HTTPSEnable"@),
        last_value(scutil_pairs(output), "HTTPSProxy"@) == Some(host),
        last_value(scutil_pairs(output), "HTTPSPort"@) == Some(port_text),
        trim(host).len() > 0,
        !has_char(trim(host), ':'),
        parse_u64(trim(port_text)) == Some(port),
        0 < port <= 65535,
    ensures
        scutil_status_spec(scutil_pairs(output)) == (
            "auto"@,
            Some("http://"@ + trim(host) + ":"@ + decimal(port as nat)),
            Some("systemHttps"@),
            Some("自动读取 HTTPS 系统代理"@),
        ),
{
    reveal_strlit("HTTPS");
    reveal_strlit("Enable");
    reveal_strlit("Proxy");
    reveal_strlit("Port");
    reveal_strlit("HTTPSEnable");
    reveal_strlit("HTTPSProxy");
    reveal_strlit("HTTPSPort");
    assert("HTTPS"@ + "Enable"@ =~= "HTTPSEnable"@);
    assert("HTTPS"@ + "Proxy"@ =~= "HTTPSProxy"@);
    assert("HTTPS"@ + "Port"@ =~= "HTTPSPort"@);
    assert(bracket_host(trim(host)) == trim(host));
    reveal_strlit("http");
    reveal_strlit("://");
    reveal_strlit("http://");
    assert("http"@ + "://"@ =~= "http://"@);
    let pairs = scutil_pairs(output);
    assert(scutil_proxy_url_spec(pairs, "HTTPS"@, "http"@) == Some(
        "http"@ + "://"@ + bracket_host(trim(host)) + ":"@ + decimal(port as nat),
    ));
}

// ---------------------------------------------------------------------------
// The label of the best format
// ---------------------------------------------------------------------------
proof fn lemma_trim_start_keeps(s: Seq<char>, k: int)
    requires
        0 <= k < s.len(),
        !is_ws(s[k]),
    ensures
        trim_start(s).len() > 0,
        !is_ws(trim_start(s)[0]),
    decreases s.len(),
{
    if s.len() > 0 && is_ws(s[0]) {
        lemma_trim_start_keeps(s.drop_first(), k - 1);
    }
}

proof fn lemma_trim_end_keeps(s: Seq<char>)
    requires
        s.len() > 0,
        !is_ws(s[0]),
    ensures
        trim_end(s).len() > 0,
    decreases s.len(),
{
    if s.len() > 0 && is_ws(s.last()) {
        lemma_trim_end_keeps(s.drop_last());
    }
}

proof fn lemma_trim_nonempty(s: Seq<char>, k: int)
    requires
        0 <= k < s.len(),
        !is_ws(s[k]),
    ensures
        trim(s).len() > 0,
{
    lemma_trim_start_keeps(s, k);
    lemma_trim_end_keeps(trim_start(s));
}

/// Every format has a label: its resolution part is never blank.
proof fn lemma_format_label_present(f: FormatJson)
    ensures
        format_label_spec(f) is Some,
{
    let res = match actual_resolution_label_spec(f) {
        Some(r) => r,
        None => unstated_resolution(),
    };
    match actual_resolution_label_spec(f) {
        Some(r) => {
            reveal_strlit("x");
            let (w, h) = match (number_of(f.width), number_of(f.height)) {
                (Some(w), Some(h)) if w > 0 && h > 0 => (w, h),
                _ => {
                    let d = dimension_score_spec(text_of(f.resolution)->Some_0)->Some_0;
                    (d.0, d.1)
                },
            };
            assert(r == dims_label(w, h));
            let k = decimal(w as nat).len() as int;
            assert(r[k] == 'x');
            lemma_trim_nonempty(r, k);
        },
        None => {
            reveal_strlit("未返回明确分辨率");
            lemma_trim_nonempty(unstated_resolution(), 0);
        },
    }
    assert(trim(res).len() > 0);
}

proof fn lemma_best_video(fs: Seq<FormatJson>, n: nat)
    requires
        n <= fs.len(),
    ensures
        match best_video_among(fs, n) {
            Some(p) => p < n && has_real_video_spec(fs[p as int]) && (forall|q: int|
                0 <= q < n && has_real_video_spec(#[trigger] fs[q]) ==> format_score_spec(fs[q])
                    <= format_score_spec(fs[p as int])) && (forall|q: int|
                p < q < n && has_real_video_spec(#[trigger] fs[q]) ==> format_score_spec(fs[q])
                    < format_score_spec(fs[p as int])),
            None => forall|q: int| 0 <= q < n ==> !has_real_video_spec(#[trigger] fs[q]),
        },
    decreases n,
{
    if n > 0 {
        lemma_best_video(fs, (n - 1) as nat);
    }
}

proof fn lemma_no_first_video(fs: Seq<FormatJson>, i: nat)
    requires
        forall|q: int| 0 <= q < fs.len() ==> !has_real_video_spec(#[trigger] fs[q]),
    ensures
        first_video_from(fs, i) is None,
    decreases fs.len() - i,
{
    if i < fs.len() {
        lemma_no_first_video(fs, i + 1);
    }
}

/// Where neither a requested format nor the video itself carries a video
/// stream, the best label is that of a format with video in `formats` whose
/// score is at least that of every other format with video there (of several
/// such, the last).
pub proof fn law_best_label_highest_score(json: MediaJson, options: Seq<FormatOption>)
    requires
        json.requested_formats matches Some(v) ==> forall|q: int|
            0 <= q < v@.len() ==> !has_real_video_spec(#[trigger] v@[q]),
        !has_real_video_spec(json.top),
        json.formats matches Some(v) && exists|q: int|
            0 <= q < v@.len() && has_real_video_spec(#[trigger] v@[q]),
    ensures
        best_label_spec(json, options) is Some,
        exists|p: int|
            0 <= p < json.formats->Some_0@.len() && has_real_video_spec(
                #[trigger] json.formats->Some_0@[p],
            ) && (forall|q: int|
                0 <= q < json.formats->Some_0@.len() && has_real_video_spec(
                    #[trigger] json.formats->Some_0@[q],
                ) ==> format_score_spec(json.formats->Some_0@[q]) <= format_score_spec(
                    json.formats->Some_0@[p],
                )) && (forall|q: int|
                p < q < json.formats->Some_0@.len() && has_real_video_spec(
                    #[trigger] json.formats->Some_0@[q],
                ) ==> format_score_spec(json.formats->Some_0@[q]) < format_score_spec(
                    json.formats->Some_0@[p],
                )) && best_label_spec(json, options) == format_label_spec(json.formats->Some_0@[p]),
{
    match json.requested_formats {
        Some(v) => lemma_no_first_video(v@, 0),
        None => {},
    }
    let fs = json.formats->Some_0@;
    lemma_best_video(fs, fs.len());
    let q = choose|q: int| 0 <= q < fs.len() && has_real_video_spec(#[trigger] fs[q]);
    assert(has_real_video_spec(fs[q]));
    let p = best_video_among(fs, fs.len())->Some_0;
    lemma_format_label_present(fs[p as int]);
    assert(best_label_spec(json, options) == format_label_spec(fs[p as int]));
}

/// The origin of an address is its scheme, `://` and host: all of it up to
/// the first `/` after the `://`.
pub proof fn law_url_origin(scheme: Seq<char>, host: Seq<char>, rest: Seq<char>)
    requires
        !has_char(scheme, ':'),
        !has_char(host, '/'),
        rest.len() == 0 || rest[0] == '/',
    ensures
        url_origin_spec(scheme + "://"@ + host + rest) == Some(scheme + "://"@ + host),
{
    reveal_strlit("://");
    let sep = "://"@;
    let u = scheme + sep + host + rest;
    let k = scheme.len() as int;
    assert(u.subrange(k, k + 3) =~= sep);
    assert(matches_at(u, sep, k));
    lemma_find(u, sep);
    assert forall|j: int| 0 <= j < k implies !matches_at(u, sep, j) by {
        if matches_at(u, sep, j) {
            assert(u.subrange(j, j + 3)[0] == u[j]);
            assert(u[j] == scheme[j]);
        }
    }
    let f = find(u, sep)->Some_0;
    assert(f == k);
    let after = u.skip(k + 3);
    assert(after =~= host + rest);
    lemma_find(after, seq!['/']);
    assert forall|j: int| 0 <= j < host.len() implies !matches_at(after, seq!['/'], j) by {
        lemma_matches_single(after, '/', j);
        assert(after[j] == host[j]);
    }
    if rest.len() == 0 {
        assert forall|j: int| 0 <= j implies !matches_at(after, seq!['/'], j) by {
            lemma_matches_single(after, '/', j);
        }
        assert(find_char(after, '/') is None);
    } else {
        let h = host.len() as int;
        lemma_matches_single(after, '/', h);
        assert(after[h] == rest[0]);
        assert(find_char(after, '/') == Some(h as nat));
    }
    assert(u.take(k + 3 + host.len()) =~= scheme + sep + host);
}

/// With neither an HTTPS nor an HTTP proxy usable, an enabled SOCKS proxy
/// with a host (no IPv6 colon) and a port in `1..=65535` is used as
/// `socks5h://host:port`.
pub proof fn law_scutil_socks_proxy(output: Seq<char>, host: Seq<char>, port_text: Seq<char>, port: u64)
    requires
        scutil_proxy_url_spec(scutil_pairs(output), "HTTPS"@, "http"@) is None,
        scutil_proxy_url_spec(scutil_pairs(output), "HTTP"@, "http"@) is None,
        scutil_enabled_spec(scutil_pairs(output), "SOCKSEnable"@),
        last_value(scutil_pairs(output), "SOCKSProxy"@) == Some(host),
        last_value(scutil_pairs(output), "SOCKSPort"@) == Some(port_text),
        trim(host).len() > 0,
        !has_char(trim(host), ':'),
        parse_u64(trim(port_text)) == Some(port),
        0 < port <= 65535,
    ensures
        scutil_status_spec(scutil_pairs(output)) == (
            "auto"@,
            Some("socks5h://"@ + trim(host) + ":"@ + decimal(port as nat)),
            Some("systemSocks"@),
            Some("自动读取 SOCKS 系统代理"@),
        ),
{
    reveal_strlit("SOCKS");
    reveal_strlit("Enable");
    reveal_strlit("Proxy");
    reveal_strlit("Port");
    reveal_strlit("SOCKSEnable");
    reveal_strlit("SOCKSProxy");
    reveal_strlit("SOCKSPort");
    assert("SOCKS"@ + "Enable"@ =~= "SOCKSEnable"@);
    assert("SOCKS"@ + "Proxy"@ =~= "SOCKSProxy"@);
    assert("SOCKS"@ + "Port"@ =~= "SOCKSPort"@);
    assert(bracket_host(trim(host)) == trim(host));
    reveal_strlit("socks5h");
    reveal_strlit("://");
    reveal_strlit("socks5h://");
    assert("socks5h"@ + "://"@ =~= "socks5h://"@);
    let pairs = scutil_pairs(output);
    assert(scutil_proxy_url_spec(pairs, "SOCKS"@, "socks5h"@) == Some(
        "socks5h"@ + "://"@ + bracket_host(trim(host)) + ":"@ + decimal(port as nat),
    ));
}

/// Where no system proxy is usable, none is passed: a PAC script is
/// reported as unsupported, and otherwise no proxy is reported.
pub proof fn law_scutil_no_proxy(output: Seq<char>)
    requires
        scutil_proxy_url_spec(scutil_pairs(output), "HTTPS"@, "http"@) is None,
        scutil_proxy_url_spec(scutil_pairs(output), "HTTP"@, "http"@) is None,
        scutil_proxy_url_spec(scutil_pairs(output), "SOCKS"@, "socks5h"@) is None,
    ensures
        scutil_status_spec(scutil_pairs(output)).1 is None,
        scutil_status_spec(scutil_pairs(output)).2 == Some(
            if scutil_enabled_spec(scutil_pairs(output), "ProxyAutoConfigEnable"@) {
                "pacUnsupported"@
            } else {
                "none"@
            },
        ),
{
}

/// Probing reads the one video an address names; listing a queue reads the
/// whole playlist, flat.
pub proof fn law_probe_and_queue_playlists(url: Seq<char>, browser: Option<Seq<char>>)
    ensures
        probe_args_spec(url, browser).contains("--no-playlist"@),
        url != "--yes-playlist"@ && browser != Some("--yes-playlist"@) ==> !probe_args_spec(
            url,
            browser,
        ).contains("--yes-playlist"@),
        queue_args_spec(url, browser).contains("--yes-playlist"@),
        queue_args_spec(url, browser).contains("--flat-playlist"@),
        url != "--no-playlist"@ && browser != Some("--no-playlist"@) ==> !queue_args_spec(
            url,
            browser,
        ).contains("--no-playlist"@),
{
    let a = probe_args_spec(url, browser);
    let b = queue_args_spec(url, browser);
    reveal_strlit("--dump-single-json");
    reveal_strlit("--skip-download");
    reveal_strlit("--no-warnings");
    reveal_strlit("--no-playlist");
    reveal_strlit("--yes-playlist");
    reveal_strlit("--flat-playlist");
    reveal_strlit("--socket-timeout");
    reveal_strlit("30");
    reveal_strlit("-f");
    reveal_strlit("bv*+ba/b");
    reveal_strlit("--cookies-from-browser");
    assert(a[3] == "--no-playlist"@);
    assert(b[5] == "--yes-playlist"@);
    assert(b[6] == "--flat-playlist"@);
    let y = "--yes-playlist"@;
    let n = "--no-playlist"@;
    assert(y.len() == 14);
    assert(n.len() == 13);
    if url != y && browser != Some(y) {
        assert forall|i: int| 0 <= i < a.len() implies a[i] != y by {
            if i < 8 {
                assert(a[i].len() != 14);
            } else if i == 8 && browser is Some {
                assert(a[i].len() != 14);
            }
        }
    }
    if url != n && browser != Some(n) {
        assert forall|i: int| 0 <= i < b.len() implies b[i] != n by {
            if i == 2 {
                assert(b[i][5] != n[5]);
            } else if i < 7 {
                assert(b[i].len() != 13);
            } else if i == 7 && browser is Some {
                assert(b[i].len() != 13);
            }
        }
    }
}

} // verus!
