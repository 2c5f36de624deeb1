//! Batched subtitle translation: which lines go to the model together,
//! with which context, and which stored lines each returned entry
//! updates. Calling the model, the cache and the database happens
//! outside the library, driven by this plan.

use serde_json::Value;

use vstd::prelude::*;

use crate::dict::frequency::{Json, json_from_value, member, member_exec, str_of};
use crate::library::lines::SubtitleLine;
use crate::llm::prompt::derefs;
use crate::llm::schema::{LineTranslation, TranslationBatch};

verus! {

/// Lines translated per request.
pub const BATCH_SIZE: usize = 50;

/// Context lines sent on each side of a batch.
pub const CONTEXT: usize = 2;

/// One request of the plan, as positions in the video's lines:
/// context `[before, start)`, targets `[start, end)`, context
/// `[end, after)`.
#[derive(Debug, Clone, Copy, PartialEq, Eq, Structural)]
pub struct Chunk {
    pub before: usize,
    pub start: usize,
    pub end: usize,
    pub after: usize,
}

/// The chunk whose targets begin at `start` among `n` lines.
pub open spec fn chunk_at(n: int, start: int) -> Chunk {
    let end = if start + BATCH_SIZE < n { start + BATCH_SIZE } else { n };
    Chunk {
        before: (if start >= CONTEXT { start - CONTEXT } else { 0 }) as usize,
        start: start as usize,
        end: end as usize,
        after: (if end + CONTEXT < n { end + CONTEXT } else { n }) as usize,
    }
}

/// The number of requests for `n` lines.
pub open spec fn chunk_count(n: int) -> int {
    (n + BATCH_SIZE - 1) / (BATCH_SIZE as int)
}

/// The requests for `n` lines: targets in consecutive batches of
/// `BATCH_SIZE` from the first line on.
pub open spec fn plan(n: int) -> Seq<Chunk> {
    Seq::new(chunk_count(n) as nat, |k: int| chunk_at(n, k * BATCH_SIZE))
}

/// The batching plan for `n` lines.
pub fn chunk_plan(n: usize) -> (r: Vec<Chunk>)
    ensures
        r@ == plan(n as int),
{
    let count: usize = if n == 0 {
        0
    } else {
        (n - 1) / BATCH_SIZE + 1
    };
    assert(count == chunk_count(n as int));
    let mut out: Vec<Chunk> = Vec::new();
    let mut k: usize = 0;
    while k < count
        invariant
            count == chunk_count(n as int),
            count == 0 || count == (n - 1) / 50 + 1,
            k <= count,
            out@ == plan(n as int).take(k as int),
        decreases count - k,
    {
        assert(k * 50 < n) by (nonlinear_arith)
            requires
                k < count,
                count == (n - 1) / 50 + 1,
                n > 0,
        {
        }
        let start = k * BATCH_SIZE;
        let end = if n - start > BATCH_SIZE { start + BATCH_SIZE } else { n };
        let before = if start >= CONTEXT { start - CONTEXT } else { 0 };
        let after = if n - end > CONTEXT { end + CONTEXT } else { n };
        out.push(Chunk { before, start, end, after });
        assert(out@ =~= plan(n as int).take(k as int + 1));
        k = k + 1;
    }
    out
}

/// The request whose targets include line `i`.
pub open spec fn chunk_of(i: int) -> int {
    i / (BATCH_SIZE as int)
}

/// Every line is a target of exactly one request of the plan, the
/// requests follow one another without gap or overlap, each has between
/// one and `BATCH_SIZE` targets, and each carries at most `CONTEXT`
/// lines of context on each side, all within the video's lines.
pub proof fn plan_covers_each_line_once(n: usize)
    ensures
        forall|i: int|
            0 <= i < n ==> 0 <= #[trigger] chunk_of(i) < plan(n as int).len() && plan(
                n as int,
            )[chunk_of(i)].start <= i < plan(n as int)[chunk_of(i)].end,
        forall|i: int, k: int|
            0 <= i < n && 0 <= k < plan(n as int).len() && #[trigger] plan(n as int)[k].start <= i
                < plan(n as int)[k].end ==> k == #[trigger] chunk_of(i),
        forall|k: int|
            0 <= k < plan(n as int).len() ==> {
                let c = #[trigger] plan(n as int)[k];
                &&& c.before <= c.start < c.end <= c.after <= n
                &&& c.end - c.start <= BATCH_SIZE
                &&& c.start - c.before <= CONTEXT
                &&& c.after - c.end <= CONTEXT
                &&& (k + 1 < plan(n as int).len() ==> plan(n as int)[k + 1].start == c.end)
            },
        n > 0 ==> plan(n as int)[0].start == 0 && plan(n as int).last().end == n,
{
    let p = plan(n as int);
    assert forall|i: int| 0 <= i < n implies 0 <= #[trigger] chunk_of(i) < p.len() && p[chunk_of(
        i,
    )].start <= i < p[chunk_of(i)].end by {
        let k = i / 50;
        assert(chunk_of(i) == k);
        assert(0 <= k < (n + 49) / 50) by (nonlinear_arith)
            requires
                0 <= i < n,
                k == i / 50,
        {
        }
        assert(k * 50 <= i < k * 50 + 50) by (nonlinear_arith)
            requires
                0 <= i,
                k == i / 50,
        {
        }
        assert(p[k] == chunk_at(n as int, k * 50));
    }
    assert forall|i: int, k: int|
        0 <= i < n && 0 <= k < p.len() && #[trigger] p[k].start <= i < p[k].end implies k
            == #[trigger] chunk_of(i) by {
        assert(p[k] == chunk_at(n as int, k * 50));
        assert(k * 50 < n) by (nonlinear_arith)
            requires
                0 <= k < (n + 49) / 50,
        {
        }
        assert(k * 50 <= i < k * 50 + 50);
        assert(k == i / 50) by (nonlinear_arith)
            requires
                k * 50 <= i < k * 50 + 50,
        {
        }
    }
    assert forall|k: int| 0 <= k < p.len() implies {
        let c = #[trigger] p[k];
        &&& c.before <= c.start < c.end <= c.after <= n
        &&& c.end - c.start <= BATCH_SIZE
        &&& c.start - c.before <= CONTEXT
        &&& c.after - c.end <= CONTEXT
        &&& (k + 1 < p.len() ==> p[k + 1].start == c.end)
    } by {
        assert(p[k] == chunk_at(n as int, k * 50));
        assert(k * 50 < n) by (nonlinear_arith)
            requires
                0 <= k < (n + 49) / 50,
        {
        }
        if k + 1 < p.len() {
            assert(p[k + 1] == chunk_at(n as int, (k + 1) * 50));
            assert((k + 1) * 50 < n) by (nonlinear_arith)
                requires
                    0 <= k + 1 < (n + 49) / 50,
            {
            }
        }
    }
    if n > 0 {
        let last = p.len() - 1;
        assert(p[0] == chunk_at(n as int, 0));
        assert(p[last] == chunk_at(n as int, last * 50));
        assert(last * 50 < n <= last * 50 + 50) by (nonlinear_arith)
            requires
                last == (n + 49) / 50 - 1,
                n > 0,
        {
        }
    }
}

/// A stored line to update from one entry of the model's reply.
#[derive(Debug, Clone, Copy, PartialEq, Eq, Structural)]
pub struct LineUpdate {
    /// The `subtitle_lines` row.
    pub line_id: i64,
    /// The position of the entry in the reply.
    pub entry: usize,
}

/// The last target line numbered `idx`, if any (a later line with the
/// same number shadows an earlier one).
pub open spec fn last_with_idx(targets: Seq<SubtitleLine>, idx: i64) -> Option<int>
    decreases targets.len(),
{
    if targets.len() == 0 {
        None
    } else if targets.last().idx == idx {
        Some(targets.len() - 1)
    } else {
        last_with_idx(targets.drop_last(), idx)
    }
}

/// The updates a reply causes: each entry, in order, updates the target
/// line carrying its `idx`; entries with an unknown `idx` are skipped.
pub open spec fn updates(targets: Seq<SubtitleLine>, entries: Seq<LineTranslation>) -> Seq<
    LineUpdate,
>
    decreases entries.len(),
{
    if entries.len() == 0 {
        Seq::empty()
    } else {
        updates(targets, entries.drop_last()) + match last_with_idx(targets, entries.last().idx) {
            Some(j) => seq![LineUpdate { line_id: targets[j].id, entry: (entries.len() - 1) as usize }],
            None => Seq::empty(),
        }
    }
}

proof fn lemma_last_with_idx(targets: Seq<SubtitleLine>, idx: i64)
    ensures
        last_with_idx(targets, idx) matches Some(j) ==> 0 <= j < targets.len() && targets[j].idx
            == idx,
    decreases targets.len(),
{
    if targets.len() > 0 && targets.last().idx != idx {
        lemma_last_with_idx(targets.drop_last(), idx);
    }
}

fn find_target(targets: &[&SubtitleLine], idx: i64) -> (r: Option<usize>)
    ensures
        match last_with_idx(derefs(targets@), idx) {
            Some(j) => r == Some(j as usize),
            None => r is None,
        },
{
    let mut j: usize = targets.len();
    assert(targets@.take(targets@.len() as int) =~= targets@);
    while j > 0
        invariant
            j <= targets@.len(),
            last_with_idx(derefs(targets@), idx) == last_with_idx(derefs(targets@.take(j as int)), idx),
        decreases j,
    {
        let ghost pre = derefs(targets@.take(j as int));
        assert(pre.drop_last() =~= derefs(targets@.take(j - 1)));
        if targets[j - 1].idx == idx {
            return Some(j - 1);
        }
        j = j - 1;
    }
    assert(derefs(targets@.take(0)) =~= Seq::<SubtitleLine>::empty());
    None
}

/// The updates a reply causes on a chunk's target lines. The number of
/// lines translated is the number of updates.
pub fn line_updates(targets: &[&SubtitleLine], entries: &[LineTranslation]) -> (r: Vec<LineUpdate>)
    ensures
        r@ == updates(derefs(targets@), entries@),
{
    let mut out: Vec<LineUpdate> = Vec::new();
    let mut i: usize = 0;
    while i < entries.len()
        invariant
            i <= entries@.len(),
            out@ == updates(derefs(targets@), entries@.take(i as int)),
        decreases entries@.len() - i,
    {
        let ghost pre = entries@.take(i as int + 1);
        assert(pre.drop_last() =~= entries@.take(i as int));
        proof {
            lemma_last_with_idx(derefs(targets@), entries@[i as int].idx);
        }
        match find_target(targets, entries[i].idx) {
            Some(j) => {
                out.push(LineUpdate { line_id: targets[j].id, entry: i });
            },
            None => {},
        }
        i = i + 1;
        assert(out@ =~= updates(derefs(targets@), entries@.take(i as int)));
    }
    assert(entries@.take(entries@.len() as int) =~= entries@);
    out
}


/// The entries of a reply whose `idx` names no target line, in order.
pub open spec fn unknown(targets: Seq<SubtitleLine>, entries: Seq<LineTranslation>) -> Seq<usize>
    decreases entries.len(),
{
    if entries.len() == 0 {
        Seq::empty()
    } else {
        unknown(targets, entries.drop_last()) + if last_with_idx(targets, entries.last().idx) is None {
            seq![(entries.len() - 1) as usize]
        } else {
            Seq::empty()
        }
    }
}

/// The positions of the reply entries that update no line (the model
/// returned an `idx` that is not among the chunk's targets).
pub fn unknown_entries(targets: &[&SubtitleLine], entries: &[LineTranslation]) -> (r: Vec<usize>)
    ensures
        r@ == unknown(derefs(targets@), entries@),
{
    let mut out: Vec<usize> = Vec::new();
    let mut i: usize = 0;
    while i < entries.len()
        invariant
            i <= entries@.len(),
            out@ == unknown(derefs(targets@), entries@.take(i as int)),
        decreases entries@.len() - i,
    {
        let ghost pre = entries@.take(i as int + 1);
        assert(pre.drop_last() =~= entries@.take(i as int));
        if find_target(targets, entries[i].idx).is_none() {
            out.push(i);
        }
        i = i + 1;
        assert(out@ =~= unknown(derefs(targets@), entries@.take(i as int)));
    }
    assert(entries@.take(entries@.len() as int) =~= entries@);
    out
}

/// Where a chunk's reply comes from.
pub enum ReplySource {
    /// The cached reply text for the chunk's key.
    Cached(String),
    /// No cached reply: ask the model, then cache its answer.
    AskModel,
}

/// A cached reply is used as it is; without one the model is asked.
pub fn reply_source(cached: Option<String>) -> (r: ReplySource)
    ensures
        match cached {
            Some(t) => r matches ReplySource::Cached(u) && u@ == t@,
            None => r is AskModel,
        },
{
    match cached {
        Some(t) => ReplySource::Cached(t),
        None => ReplySource::AskModel,
    }
}

// ------------------------------------------------------ reading a reply

/// The JSON value of a text, when the text is one JSON document.
pub uninterp spec fn json_value_of(text: Seq<char>) -> Option<Json>;

/// `serde_json::from_str::<Value>`: the value of the JSON text `text`,
/// or the parser's message when `text` is no JSON document.
#[verifier::external_body]
fn parse_value(text: &str) -> (r: Result<Json, String>)
    ensures
        match r {
            Ok(j) => json_value_of(text@) == Some(j),
            Err(_) => json_value_of(text@) is None,
        },
{
    match serde_json::from_str::<Value>(text) {
        Ok(v) => Ok(json_from_value(&v)),
        Err(e) => Err(e.to_string()),
    }
}

/// A translated line as plain values: index, English, grammar note and
/// tone tags.
pub type LineView = (i64, Seq<char>, Seq<char>, Seq<Seq<char>>);

pub open spec fn line_view(l: LineTranslation) -> LineView {
    (l.idx, l.english@, l.grammar_note@, l.tone_tags@.map_values(|t: String| t@))
}

pub open spec fn lines_view(ls: Seq<LineTranslation>) -> Seq<LineView> {
    ls.map_values(|l: LineTranslation| line_view(l))
}

/// An integer within `i64`, as a line's index.
pub open spec fn idx_of(j: Json) -> Option<i64> {
    match j {
        Json::Number(Some(n)) => Some(n),
        _ => None,
    }
}

/// The texts of an array whose items are all strings.
pub open spec fn all_strings(items: Seq<Json>) -> Option<Seq<Seq<char>>> {
    if forall|i: int| 0 <= i < items.len() ==> (#[trigger] str_of(items[i])) is Some {
        Some(Seq::new(items.len(), |i: int| str_of(items[i])->0))
    } else {
        None
    }
}

/// Tone tags: an array of strings.
pub open spec fn tags_of(j: Json) -> Option<Seq<Seq<char>>> {
    match j {
        Json::Array(items) => all_strings(items@),
        _ => None,
    }
}

/// A line from an object: `idx` and `english` are needed, a missing
/// `grammar_note` or `tone_tags` is empty, other members are ignored.
pub open spec fn line_from_object(ms: Seq<(String, Json)>) -> Option<LineView> {
    let idx = match member(ms, "idx"@) {
        Some(j) => idx_of(j),
        None => None,
    };
    let english = match member(ms, "english"@) {
        Some(j) => str_of(j),
        None => None,
    };
    let note = match member(ms, "grammar_note"@) {
        Some(j) => str_of(j),
        None => Some(Seq::empty()),
    };
    let tags = match member(ms, "tone_tags"@) {
        Some(j) => tags_of(j),
        None => Some(Seq::empty()),
    };
    if idx is Some && english is Some && note is Some && tags is Some {
        Some((idx->0, english->0, note->0, tags->0))
    } else {
        None
    }
}

/// A line from an array of its fields in order, `[idx, english,
/// grammar_note, tone_tags]`, of which the last two may be left out.
pub open spec fn line_from_array(items: Seq<Json>) -> Option<LineView> {
    if items.len() < 2 || items.len() > 4 {
        None
    } else {
        let idx = idx_of(items[0]);
        let english = str_of(items[1]);
        let note = if items.len() > 2 {
            str_of(items[2])
        } else {
            Some(Seq::empty())
        };
        let tags = if items.len() > 3 {
            tags_of(items[3])
        } else {
            Some(Seq::empty())
        };
        if idx is Some && english is Some && note is Some && tags is Some {
            Some((idx->0, english->0, note->0, tags->0))
        } else {
            None
        }
    }
}

/// One entry of a reply as a translated line.
pub open spec fn line_of(j: Json) -> Option<LineView> {
    match j {
        Json::Object(ms) => line_from_object(ms@),
        Json::Array(items) => line_from_array(items@),
        _ => None,
    }
}

/// The lines of entries that all read as lines.
pub open spec fn all_lines(items: Seq<Json>) -> Option<Seq<LineView>> {
    if forall|i: int| 0 <= i < items.len() ==> (#[trigger] line_of(items[i])) is Some {
        Some(Seq::new(items.len(), |i: int| line_of(items[i])->0))
    } else {
        None
    }
}

/// The lines of a reply: the `lines` array of an object, or the reply
/// itself when it is an array.
pub open spec fn batch_lines(j: Json) -> Option<Seq<LineView>> {
    match j {
        Json::Object(ms) => match member(ms@, "lines"@) {
            Some(Json::Array(items)) => all_lines(items@),
            _ => None,
        },
        Json::Array(items) => all_lines(items@),
        _ => None,
    }
}

/// The lines of a reply text.
pub open spec fn response_lines(text: Seq<char>) -> Option<Seq<LineView>> {
    match json_value_of(text) {
        Some(j) => batch_lines(j),
        None => None,
    }
}

fn strings_exec(items: &Vec<Json>) -> (r: Option<Vec<String>>)
    ensures
        match r {
            Some(v) => all_strings(items@) == Some(v@.map_values(|t: String| t@)),
            None => all_strings(items@) is None,
        },
{
    let mut out: Vec<String> = Vec::new();
    let mut i: usize = 0;
    while i < items.len()
        invariant
            i <= items@.len(),
            forall|t: int| 0 <= t < i ==> (#[trigger] str_of(items@[t])) is Some,
            out@.map_values(|t: String| t@) =~= Seq::new(i as nat, |t: int| str_of(items@[t])->0),
        decreases items@.len() - i,
    {
        let ghost before = out@;
        match &items[i] {
            Json::Str(s) => {
                let c = s.clone();
                assert(c@ == str_of(items@[i as int])->0);
                out.push(c);
                assert(out@.map_values(|t: String| t@) =~= before.map_values(|t: String| t@).push(c@));
            },
            _ => {
                assert(str_of(items@[i as int]) is None);
                return None;
            },
        }
        assert(Seq::new((i + 1) as nat, |t: int| str_of(items@[t])->0) =~= Seq::new(
            i as nat,
            |t: int| str_of(items@[t])->0,
        ).push(str_of(items@[i as int])->0));
        i = i + 1;
    }
    Some(out)
}

fn tags_exec(j: &Json) -> (r: Option<Vec<String>>)
    ensures
        match r {
            Some(v) => tags_of(*j) == Some(v@.map_values(|t: String| t@)),
            None => tags_of(*j) is None,
        },
{
    match j {
        Json::Array(items) => strings_exec(items),
        _ => None,
    }
}

fn no_tags() -> (r: Vec<String>)
    ensures
        r@.map_values(|t: String| t@) == Seq::<Seq<char>>::empty(),
{
    let v: Vec<String> = Vec::new();
    assert(v@.map_values(|t: String| t@) =~= Seq::<Seq<char>>::empty());
    v
}

fn line_exec(j: &Json) -> (r: Option<LineTranslation>)
    ensures
        match r {
            Some(l) => line_of(*j) == Some(line_view(l)),
            None => line_of(*j) is None,
        },
{
    proof {
        reveal_strlit("idx");
        reveal_strlit("english");
        reveal_strlit("grammar_note");
        reveal_strlit("tone_tags");
    }
    match j {
        Json::Object(ms) => {
            let idx = match member_exec(ms, "idx") {
                Some(Json::Number(Some(n))) => *n,
                _ => {
                    return None;
                },
            };
            let english = match member_exec(ms, "english") {
                Some(Json::Str(s)) => s.clone(),
                _ => {
                    return None;
                },
            };
            let grammar_note = match member_exec(ms, "grammar_note") {
                Some(Json::Str(s)) => s.clone(),
                Some(_) => {
                    return None;
                },
                None => String::new(),
            };
            let tone_tags = match member_exec(ms, "tone_tags") {
                Some(t) => match tags_exec(t) {
                    Some(v) => v,
                    None => {
                        return None;
                    },
                },
                None => no_tags(),
            };
            Some(LineTranslation { idx, english, grammar_note, tone_tags })
        },
        Json::Array(items) => {
            if items.len() < 2 || items.len() > 4 {
                return None;
            }
            let idx = match &items[0] {
                Json::Number(Some(n)) => *n,
                _ => {
                    return None;
                },
            };
            let english = match &items[1] {
                Json::Str(s) => s.clone(),
                _ => {
                    return None;
                },
            };
            let grammar_note = if items.len() > 2 {
                match &items[2] {
                    Json::Str(s) => s.clone(),
                    _ => {
                        return None;
                    },
                }
            } else {
                String::new()
            };
            let tone_tags = if items.len() > 3 {
                match tags_exec(&items[3]) {
                    Some(v) => v,
                    None => {
                        return None;
                    },
                }
            } else {
                no_tags()
            };
            Some(LineTranslation { idx, english, grammar_note, tone_tags })
        },
        _ => None,
    }
}

fn lines_exec(items: &Vec<Json>) -> (r: Option<Vec<LineTranslation>>)
    ensures
        match r {
            Some(v) => all_lines(items@) == Some(lines_view(v@)),
            None => all_lines(items@) is None,
        },
{
    let mut out: Vec<LineTranslation> = Vec::new();
    let mut i: usize = 0;
    while i < items.len()
        invariant
            i <= items@.len(),
            forall|t: int| 0 <= t < i ==> (#[trigger] line_of(items@[t])) is Some,
            lines_view(out@) =~= Seq::new(i as nat, |t: int| line_of(items@[t])->0),
        decreases items@.len() - i,
    {
        let ghost before = out@;
        match line_exec(&items[i]) {
            Some(l) => {
                let ghost lv = line_view(l);
                out.push(l);
                assert(lines_view(out@) =~= lines_view(before).push(lv));
            },
            None => {
                return None;
            },
        }
        assert(Seq::new((i + 1) as nat, |t: int| line_of(items@[t])->0) =~= Seq::new(
            i as nat,
            |t: int| line_of(items@[t])->0,
        ).push(line_of(items@[i as int])->0));
        i = i + 1;
    }
    Some(out)
}

/// The batch a parsed reply holds: the `lines` array of an object, or
/// the reply itself when it is an array, each entry read as a line.
/// Fails when there is no such array or an entry is no line.
pub fn batch_from_json(j: &Json) -> (r: Result<TranslationBatch, String>)
    ensures
        match r {
            Ok(b) => batch_lines(*j) == Some(lines_view(b.lines@)),
            Err(_) => batch_lines(*j) is None,
        },
{
    proof {
        reveal_strlit("lines");
    }
    let items = match j {
        Json::Object(ms) => match member_exec(ms, "lines") {
            Some(Json::Array(items)) => items,
            _ => {
                return Err("response has no `lines` array".to_string());
            },
        },
        Json::Array(items) => items,
        _ => {
            return Err("response has no `lines` array".to_string());
        },
    };
    match lines_exec(items) {
        Some(lines) => Ok(TranslationBatch { lines }),
        None => Err("response entry is not a translated line".to_string()),
    }
}

/// The model's reply text as a batch of translated lines.
pub fn parse_response(json_text: &str) -> (r: Result<TranslationBatch, String>)
    ensures
        match r {
            Ok(b) => response_lines(json_text@) == Some(lines_view(b.lines@)),
            Err(_) => response_lines(json_text@) is None,
        },
{
    match parse_value(json_text) {
        Ok(j) => batch_from_json(&j),
        Err(e) => Err(e),
    }
}

} // verus!
