//! The FFmpeg command history: saved command drafts, newest first, without
//! repeated commands and at most 500 of them.
use vstd::prelude::*;
use crate::text::{chars_of, seq_eq};

verus! {

/// A saved command draft.
#[derive(Debug, Clone)]
pub struct FfmpegCommandHistoryItem {
    pub id: String,
    pub preset_id: String,
    pub input_path: String,
    pub secondary_input_path: Option<String>,
    pub output_dir: String,
    pub audio_format: Option<String>,
    pub start_time: Option<String>,
    pub end_time: Option<String>,
    pub crf: Option<u8>,
    pub command: String,
    pub working_dir: String,
    pub output_path: String,
    pub created_at: String,
}

/// A command draft to save.
#[derive(Debug, Clone)]
pub struct FfmpegCommandHistoryInput {
    pub preset_id: String,
    pub input_path: String,
    pub secondary_input_path: Option<String>,
    pub output_dir: String,
    pub audio_format: Option<String>,
    pub start_time: Option<String>,
    pub end_time: Option<String>,
    pub crf: Option<u8>,
    pub command: String,
    pub working_dir: String,
    pub output_path: String,
}

/// How many drafts the history keeps.
pub const FFMPEG_COMMAND_HISTORY_LIMIT: usize = 500;

/// `a < b` in the order of `String`: by characters, a proper prefix first.
pub open spec fn lex_lt(a: Seq<char>, b: Seq<char>) -> bool
    decreases a.len(),
{
    if a.len() == 0 {
        b.len() > 0
    } else if b.len() == 0 {
        false
    } else if a[0] < b[0] {
        true
    } else if a[0] > b[0] {
        false
    } else {
        lex_lt(a.drop_first(), b.drop_first())
    }
}

pub fn lex_less(a: &[char], b: &[char]) -> (r: bool)
    ensures
        r == lex_lt(a@, b@),
{
    let mut i: usize = 0;
    assert(a@.skip(0) =~= a@ && b@.skip(0) =~= b@);
    while i < a.len() && i < b.len() && a[i] == b[i]
        invariant
            i <= a@.len() && i <= b@.len(),
            lex_lt(a@, b@) == lex_lt(a@.skip(i as int), b@.skip(i as int)),
        decreases a@.len() - i,
    {
        assert(a@.skip(i as int).drop_first() =~= a@.skip(i + 1));
        assert(b@.skip(i as int).drop_first() =~= b@.skip(i + 1));
        i = i + 1;
    }
    if i == a.len() {
        assert(a@.skip(i as int).len() == 0);
        i < b.len()
    } else if i == b.len() {
        false
    } else {
        assert(a@.skip(i as int)[0] == a@[i as int]);
        assert(b@.skip(i as int)[0] == b@[i as int]);
        a[i] < b[i]
    }
}

/// The created time of an item, as text.
pub open spec fn key(item: FfmpegCommandHistoryItem) -> Seq<char> {
    item.created_at@
}

/// Puts `x` after every item created no earlier than it.
pub open spec fn insert_newest_first(s: Seq<FfmpegCommandHistoryItem>, x: FfmpegCommandHistoryItem) -> Seq<
    FfmpegCommandHistoryItem,
>
    decreases s.len(),
{
    if s.len() == 0 {
        seq![x]
    } else if lex_lt(key(s[0]), key(x)) {
        seq![x] + s
    } else {
        seq![s[0]] + insert_newest_first(s.drop_first(), x)
    }
}

/// The items newest first (by `created_at` text, descending), items created
/// at the same time in their former order.
pub open spec fn sort_history_spec(s: Seq<FfmpegCommandHistoryItem>) -> Seq<FfmpegCommandHistoryItem>
    decreases s.len(),
{
    if s.len() == 0 {
        seq![]
    } else {
        insert_newest_first(sort_history_spec(s.drop_last()), s.last())
    }
}

pub open spec fn insert_point(s: Seq<FfmpegCommandHistoryItem>, x: FfmpegCommandHistoryItem, p: int) -> bool {
    &&& 0 <= p <= s.len()
    &&& forall|t: int| 0 <= t < p ==> !lex_lt(key(#[trigger] s[t]), key(x))
    &&& p < s.len() ==> lex_lt(key(s[p]), key(x))
}

proof fn lemma_insert_newest_first(s: Seq<FfmpegCommandHistoryItem>, x: FfmpegCommandHistoryItem, p: int)
    requires
        insert_point(s, x, p),
    ensures
        insert_newest_first(s, x) == s.insert(p, x),
    decreases s.len(),
{
    if s.len() == 0 {
        assert(s.insert(p, x) =~= seq![x]);
    } else if lex_lt(key(s[0]), key(x)) {
        assert(p == 0);
        assert(s.insert(p, x) =~= seq![x] + s);
    } else {
        assert(p > 0);
        let t = s.drop_first();
        assert(insert_point(t, x, p - 1)) by {
            assert forall|k: int| 0 <= k < p - 1 implies !lex_lt(key(#[trigger] t[k]), key(x)) by {
                assert(t[k] == s[k + 1]);
            }
        }
        lemma_insert_newest_first(t, x, p - 1);
        assert(s.insert(p, x) =~= seq![s[0]] + t.insert(p - 1, x));
    }
}

/// Inserts `x` where `insert_newest_first` puts it.
fn insert_item(out: &mut Vec<FfmpegCommandHistoryItem>, x: FfmpegCommandHistoryItem)
    ensures
        final(out)@ == insert_newest_first(old(out)@, x),
{
    let xk = chars_of(x.created_at.as_str());
    let mut p: usize = 0;
    while p < out.len() && !lex_less(&chars_of(out[p].created_at.as_str()), &xk)
        invariant
            p <= out@.len(),
            xk@ == key(x),
            forall|t: int| 0 <= t < p ==> !lex_lt(key(#[trigger] out@[t]), key(x)),
        decreases out@.len() - p,
    {
        p = p + 1;
    }
    proof {
        lemma_insert_newest_first(out@, x, p as int);
    }
    out.insert(p, x);
}

/// Sorts the history newest first, keeping the order of items created at
/// the same time.
pub fn sort_ffmpeg_command_history(items: &mut Vec<FfmpegCommandHistoryItem>)
    ensures
        final(items)@ == sort_history_spec(old(items)@),
{
    let ghost src = items@;
    let mut out: Vec<FfmpegCommandHistoryItem> = Vec::new();
    let mut k: usize = 0;
    let total = items.len();
    assert(src.len() == total);
    while items.len() > 0
        invariant
            k + items@.len() == src.len(),
            src.len() <= usize::MAX,
            items@ == src.skip(k as int),
            out@ == sort_history_spec(src.take(k as int)),
        decreases items@.len(),
    {
        let x = items.remove(0);
        proof {
            assert(src.take(k + 1).drop_last() =~= src.take(k as int));
            assert(src.take(k + 1).last() == x);
        }
        insert_item(&mut out, x);
        assert(items@ =~= src.skip(k + 1));
        k = k + 1;
    }
    assert(src.take(k as int) =~= src);
    *items = out;
}

/// The items whose command differs from `command`.
pub open spec fn without_command(s: Seq<FfmpegCommandHistoryItem>, command: Seq<char>) -> Seq<
    FfmpegCommandHistoryItem,
>
    decreases s.len(),
{
    if s.len() == 0 {
        seq![]
    } else {
        let rest = without_command(s.drop_last(), command);
        if s.last().command@ == command {
            rest
        } else {
            rest.push(s.last())
        }
    }
}

/// The item that a saved draft becomes.
pub open spec fn new_item(input: FfmpegCommandHistoryInput, id: String, created_at: String) -> FfmpegCommandHistoryItem {
    FfmpegCommandHistoryItem {
        id,
        preset_id: input.preset_id,
        input_path: input.input_path,
        secondary_input_path: input.secondary_input_path,
        output_dir: input.output_dir,
        audio_format: input.audio_format,
        start_time: input.start_time,
        end_time: input.end_time,
        crf: input.crf,
        command: input.command,
        working_dir: input.working_dir,
        output_path: input.output_path,
        created_at,
    }
}

/// The history after saving a draft: older drafts of the same command are
/// dropped, the new one is put first, the list is sorted newest first and
/// cut to its limit.
pub open spec fn append_spec(items: Seq<FfmpegCommandHistoryItem>, next: FfmpegCommandHistoryItem) -> Seq<
    FfmpegCommandHistoryItem,
> {
    crate::formats::take_up_to(
        sort_history_spec(seq![next] + without_command(items, next.command@)),
        500,
    )
}

fn drop_command(items: Vec<FfmpegCommandHistoryItem>, command: &[char]) -> (r: Vec<FfmpegCommandHistoryItem>)
    ensures
        r@ == without_command(items@, command@),
{
    let ghost src = items@;
    let mut items = items;
    let mut out: Vec<FfmpegCommandHistoryItem> = Vec::new();
    let mut k: usize = 0;
    let total = items.len();
    assert(src.len() == total);
    while items.len() > 0
        invariant
            k + items@.len() == src.len(),
            src.len() <= usize::MAX,
            items@ == src.skip(k as int),
            out@ == without_command(src.take(k as int), command@),
        decreases items@.len(),
    {
        let x = items.remove(0);
        proof {
            assert(src.take(k + 1).drop_last() =~= src.take(k as int));
            assert(src.take(k + 1).last() == x);
        }
        let c = chars_of(x.command.as_str());
        if !seq_eq(&c, command) {
            out.push(x);
        }
        assert(items@ =~= src.skip(k + 1));
        k = k + 1;
    }
    assert(src.take(k as int) =~= src);
    out
}

/// The history after saving `input` as a draft with the given id and time.
pub fn append_ffmpeg_command_history_item(
    items: Vec<FfmpegCommandHistoryItem>,
    input: FfmpegCommandHistoryInput,
    id: String,
    created_at: String,
) -> (r: Vec<FfmpegCommandHistoryItem>)
    ensures
        r@ == append_spec(items@, new_item(input, id, created_at)),
{
    let ghost next_spec = new_item(input, id, created_at);
    let next = FfmpegCommandHistoryItem {
        id,
        preset_id: input.preset_id,
        input_path: input.input_path,
        secondary_input_path: input.secondary_input_path,
        output_dir: input.output_dir,
        audio_format: input.audio_format,
        start_time: input.start_time,
        end_time: input.end_time,
        crf: input.crf,
        command: input.command,
        working_dir: input.working_dir,
        output_path: input.output_path,
        created_at,
    };
    assert(next == next_spec);
    let cmd = chars_of(next.command.as_str());
    let mut kept = drop_command(items, &cmd);
    kept.insert(0, next);
    assert(kept@ =~= seq![next_spec] + without_command(items@, next_spec.command@));
    sort_ffmpeg_command_history(&mut kept);
    if kept.len() > FFMPEG_COMMAND_HISTORY_LIMIT {
        kept.truncate(FFMPEG_COMMAND_HISTORY_LIMIT);
    }
    kept
}

/// The items whose id is not among `ids`.
pub open spec fn without_ids(s: Seq<FfmpegCommandHistoryItem>, ids: Seq<Seq<char>>) -> Seq<
    FfmpegCommandHistoryItem,
>
    decreases s.len(),
{
    if s.len() == 0 {
        seq![]
    } else {
        let rest = without_ids(s.drop_last(), ids);
        if ids.contains(s.last().id@) {
            rest
        } else {
            rest.push(s.last())
        }
    }
}

/// The history after deleting the drafts with the given ids, newest first;
/// with no ids it is the history as it stands.
pub open spec fn delete_spec(items: Seq<FfmpegCommandHistoryItem>, ids: Seq<Seq<char>>) -> Seq<
    FfmpegCommandHistoryItem,
> {
    if ids.len() == 0 {
        sort_history_spec(items)
    } else {
        sort_history_spec(without_ids(items, ids))
    }
}

fn id_listed(ids: &[String], id: &[char]) -> (r: bool)
    ensures
        r == ids@.map_values(|s: String| s@).contains(id@),
{
    let ghost v = ids@.map_values(|s: String| s@);
    let mut j: usize = 0;
    while j < ids.len()
        invariant
            j <= ids@.len(),
            v == ids@.map_values(|s: String| s@),
            forall|t: int| 0 <= t < j ==> v[t] != id@,
        decreases ids@.len() - j,
    {
        let c = chars_of(ids[j].as_str());
        if seq_eq(&c, id) {
            assert(v[j as int] == id@);
            return true;
        }
        j = j + 1;
    }
    false
}

pub fn delete_ffmpeg_command_history_by_ids(items: Vec<FfmpegCommandHistoryItem>, ids: &[String]) -> (r:
    Vec<FfmpegCommandHistoryItem>)
    ensures
        r@ == delete_spec(items@, ids@.map_values(|s: String| s@)),
{
    let ghost idv = ids@.map_values(|s: String| s@);
    let mut items = items;
    if ids.len() == 0 {
        sort_ffmpeg_command_history(&mut items);
        return items;
    }
    let ghost src = items@;
    let mut out: Vec<FfmpegCommandHistoryItem> = Vec::new();
    let mut k: usize = 0;
    let total = items.len();
    assert(src.len() == total);
    while items.len() > 0
        invariant
            k + items@.len() == src.len(),
            src.len() <= usize::MAX,
            items@ == src.skip(k as int),
            idv == ids@.map_values(|s: String| s@),
            out@ == without_ids(src.take(k as int), idv),
        decreases items@.len(),
    {
        let x = items.remove(0);
        proof {
            assert(src.take(k + 1).drop_last() =~= src.take(k as int));
            assert(src.take(k + 1).last() == x);
        }
        let c = chars_of(x.id.as_str());
        if !id_listed(ids, &c) {
            out.push(x);
        }
        assert(items@ =~= src.skip(k + 1));
        k = k + 1;
    }
    assert(src.take(k as int) =~= src);
    sort_ffmpeg_command_history(&mut out);
    out
}

} // verus!
