//! The normalised frequency bundle, and the reader of Yomitan v3
//! `term_meta_bank_*.json` files it is built from. Parsing JSON text is
//! `serde_json`'s; what the reader does with the parsed rows is stated
//! and proved here.

use std::collections::HashMap;

use serde_json::Value;

use vstd::prelude::*;

pub use vstd::hash_map::StringHashMap;

use crate::text::{
    chars_of, ends_with, ends_with_exec, eq_chars, parse_i64, parse_i64_exec, starts_with,
    starts_with_exec,
};

verus! {

/// The normalised JPDB-style frequency bundle.
#[derive(Debug)]
pub struct Bundle {
    pub version: String,
    pub name: String,
    /// term → integer rank (lower = more frequent).
    pub freq: HashMap<String, i64>,
    /// term → first known reading.
    pub readings: HashMap<String, String>,
}

/// The dictionary's `index.json`.
#[derive(Debug)]
pub struct IndexJson {
    pub revision: String,
    pub title: String,
}

/// A parsed JSON value, as far as the reader looks into it.
#[derive(Debug)]
pub enum Json {
    Null,
    Bool(bool),
    /// A number: its value when it is an integer within `i64`
    /// (`Value::as_i64`), `None` otherwise.
    Number(Option<i64>),
    Str(String),
    Array(Vec<Json>),
    /// Members in key order; keys are distinct.
    Object(Vec<(String, Json)>),
}

#[verifier::external_type_specification]
#[verifier::external_body]
pub struct ExValue(Value);

/// A `serde_json::Value` as a `Json`, variant by variant.
#[verifier::external_body]
pub(crate) fn json_from_value(v: &Value) -> Json {
    match v {
        Value::Null => Json::Null,
        Value::Bool(b) => Json::Bool(*b),
        Value::Number(n) => Json::Number(n.as_i64()),
        Value::String(s) => Json::Str(s.clone()),
        Value::Array(a) => Json::Array(a.iter().map(json_from_value).collect()),
        Value::Object(m) => Json::Object(m.iter().map(|(k, x)| (k.clone(), json_from_value(x))).collect()),
    }
}

/// The rows of a JSON array text, when the text is one.
pub uninterp spec fn json_rows_of(text: Seq<char>) -> Option<Seq<Json>>;

/// `serde_json::from_str::<Vec<Value>>`: the elements of the JSON array
/// `text`, or the parser's message when `text` is no JSON array.
#[verifier::external_body]
fn parse_rows(text: &str) -> (r: Result<Vec<Json>, String>)
    ensures
        match r {
            Ok(rows) => json_rows_of(text@) == Some(rows@),
            Err(_) => json_rows_of(text@) is None,
        },
{
    match serde_json::from_str::<Vec<Value>>(text) {
        Ok(rows) => Ok(rows.iter().map(json_from_value).collect()),
        Err(e) => Err(e.to_string()),
    }
}

/// `Value::as_i64`.
pub open spec fn int_of(v: Json) -> Option<int> {
    match v {
        Json::Number(Some(n)) => Some(n as int),
        _ => None,
    }
}

/// `Value::as_str`.
pub open spec fn str_of(v: Json) -> Option<Seq<char>> {
    match v {
        Json::Str(s) => Some(s@),
        _ => None,
    }
}

/// The member `key` of an object's members.
pub open spec fn member(ms: Seq<(String, Json)>, key: Seq<char>) -> Option<Json>
    decreases ms.len(),
{
    if ms.len() == 0 {
        None
    } else if ms[0].0@ == key {
        Some(ms[0].1)
    } else {
        member(ms.drop_first(), key)
    }
}

pub open spec fn opt_int(v: Option<Json>) -> Option<int> {
    match v {
        Some(j) => int_of(j),
        None => None,
    }
}

/// The reading and rank of a frequency payload: a bare integer; a
/// string holding one; `{value}`; or `{reading, frequency}` with the
/// frequency an integer or `{value}`.
pub open spec fn payload(v: Json) -> (Option<Seq<char>>, Option<int>) {
    if int_of(v) is Some {
        (None, int_of(v))
    } else if str_of(v) is Some {
        (None, parse_i64(str_of(v)->0))
    } else {
        match v {
            Json::Object(ms) => {
                let by_reading = match member(ms@, "reading"@) {
                    Some(Json::Str(r)) => match member(ms@, "frequency"@) {
                        Some(Json::Object(fs)) => Some((Some(r@), opt_int(member(fs@, "value"@)))),
                        Some(f) => if int_of(f) is Some {
                            Some((Some(r@), int_of(f)))
                        } else {
                            None
                        },
                        None => None,
                    },
                    _ => None,
                };
                match by_reading {
                    Some(p) => p,
                    None => if opt_int(member(ms@, "value"@)) is Some {
                        (None, opt_int(member(ms@, "value"@)))
                    } else {
                        (None, None)
                    },
                }
            },
            _ => (None, None),
        }
    }
}

/// The entry of one row `[term, "freq", payload, ...]`, if it is one
/// with a non-empty term and a rank.
pub open spec fn row_entry(row: Json) -> Option<(Seq<char>, Option<Seq<char>>, int)> {
    match row {
        Json::Array(xs) => if xs@.len() < 3 {
            None
        } else {
            let term = match str_of(xs@[0]) {
                Some(t) => t,
                None => Seq::empty(),
            };
            let kind = match str_of(xs@[1]) {
                Some(k) => k,
                None => Seq::empty(),
            };
            if term.len() == 0 || kind != "freq"@ {
                None
            } else {
                match payload(xs@[2]) {
                    (reading, Some(v)) => Some((term, reading, v)),
                    _ => None,
                }
            }
        },
        _ => None,
    }
}

/// The entries of a term bank's rows, in order.
pub open spec fn bank_entries(rows: Seq<Json>) -> Seq<(Seq<char>, Option<Seq<char>>, int)>
    decreases rows.len(),
{
    if rows.len() == 0 {
        Seq::empty()
    } else {
        bank_entries(rows.drop_last()) + match row_entry(rows.last()) {
            Some(e) => seq![e],
            None => Seq::empty(),
        }
    }
}

pub open spec fn entry_view(e: (String, Option<String>, i64)) -> (Seq<char>, Option<Seq<char>>, int) {
    (
        e.0@,
        match e.1 {
            Some(r) => Some(r@),
            None => None,
        },
        e.2 as int,
    )
}

fn int_exec(v: &Json) -> (r: Option<i64>)
    ensures
        match r {
            Some(n) => int_of(*v) == Some(n as int),
            None => int_of(*v) is None,
        },
{
    match v {
        Json::Number(Some(n)) => Some(*n),
        _ => None,
    }
}

pub(crate) fn member_exec<'a>(ms: &'a Vec<(String, Json)>, key: &str) -> (r: Option<&'a Json>)
    ensures
        match r {
            Some(j) => member(ms@, key@) == Some(*j),
            None => member(ms@, key@) is None,
        },
{
    let k = chars_of(key);
    let mut i: usize = 0;
    assert(ms@.skip(0) =~= ms@);
    while i < ms.len()
        invariant
            i <= ms@.len(),
            k@ == key@,
            member(ms@, key@) == member(ms@.skip(i as int), key@),
        decreases ms@.len() - i,
    {
        assert(ms@.skip(i as int).drop_first() =~= ms@.skip(i + 1));
        assert(ms@.skip(i as int)[0] == ms@[i as int]);
        let name = chars_of(ms[i].0.as_str());
        if eq_chars(name.as_slice(), k.as_slice()) {
            return Some(&ms[i].1);
        }
        i = i + 1;
    }
    None
}

fn opt_int_exec(v: Option<&Json>) -> (r: Option<i64>)
    ensures
        match r {
            Some(n) => opt_int(match v {
                Some(j) => Some(*j),
                None => None,
            }) == Some(n as int),
            None => opt_int(match v {
                Some(j) => Some(*j),
                None => None,
            }) is None,
        },
{
    match v {
        Some(j) => int_exec(j),
        None => None,
    }
}

/// `extract_freq`: the reading and rank of a payload.
fn extract_freq(v: &Json) -> (r: (Option<String>, Option<i64>))
    ensures
        (
            match r.0 {
                Some(s) => Some(s@),
                None => None,
            },
            match r.1 {
                Some(n) => Some(n as int),
                None => None,
            },
        ) == payload(*v),
{
    proof {
        reveal_strlit("reading");
        reveal_strlit("frequency");
        reveal_strlit("value");
    }
    match int_exec(v) {
        Some(n) => {
            return (None, Some(n));
        },
        None => {},
    }
    match v {
        Json::Str(s) => {
            let cs = chars_of(s.as_str());
            let n = parse_i64_exec(cs.as_slice(), 0, cs.len());
            assert(cs@.subrange(0, cs@.len() as int) =~= cs@);
            return (None, n);
        },
        Json::Object(ms) => {
            match member_exec(ms, "reading") {
                Some(Json::Str(reading)) => {
                    match member_exec(ms, "frequency") {
                        Some(Json::Object(fs)) => {
                            let value = opt_int_exec(member_exec(fs, "value"));
                            return (Some(reading.clone()), value);
                        },
                        Some(f) => match int_exec(f) {
                            Some(n) => {
                                return (Some(reading.clone()), Some(n));
                            },
                            None => {},
                        },
                        None => {},
                    }
                },
                _ => {},
            }
            match opt_int_exec(member_exec(ms, "value")) {
                Some(n) => (None, Some(n)),
                None => (None, None),
            }
        },
        _ => (None, None),
    }
}

fn row_entry_exec(row: &Json) -> (r: Option<(String, Option<String>, i64)>)
    ensures
        match r {
            Some(e) => row_entry(*row) == Some(entry_view(e)),
            None => row_entry(*row) is None,
        },
{
    proof {
        reveal_strlit("freq");
    }
    match row {
        Json::Array(xs) => {
            if xs.len() < 3 {
                return None;
            }
            let term = match &xs[0] {
                Json::Str(t) => t.clone(),
                _ => String::new(),
            };
            let kind = match &xs[1] {
                Json::Str(k) => chars_of(k.as_str()),
                _ => Vec::new(),
            };
            assert(kind@ == match str_of(xs@[1]) {
                Some(k) => k,
                None => Seq::<char>::empty(),
            });
            let tc = chars_of(term.as_str());
            if tc.len() == 0 || !eq_chars(kind.as_slice(), chars_of("freq").as_slice()) {
                return None;
            }
            let (reading, value) = extract_freq(&xs[2]);
            match value {
                Some(v) => Some((term, reading, v)),
                None => None,
            }
        },
        _ => None,
    }
}

/// The `(term, reading, rank)` entries of a term bank file body, in
/// order; rows that are not `[term, "freq", payload]` with a non-empty
/// term and a rank are skipped. Fails when the body is no JSON array.
pub fn parse_term_meta_bank(json: &str) -> (r: Result<Vec<(String, Option<String>, i64)>, String>)
    ensures
        r is Ok <==> json_rows_of(json@) is Some,
        r matches Ok(v) ==> json_rows_of(json@) matches Some(rows) && v@.map_values(
            |e: (String, Option<String>, i64)| entry_view(e),
        ) == bank_entries(rows),
{
    let rows = match parse_rows(json) {
        Ok(rows) => rows,
        Err(e) => {
            return Err(e);
        },
    };
    let mut out: Vec<(String, Option<String>, i64)> = Vec::new();
    let mut i: usize = 0;
    while i < rows.len()
        invariant
            i <= rows@.len(),
            out@.map_values(|e: (String, Option<String>, i64)| entry_view(e)) == bank_entries(
                rows@.take(i as int),
            ),
        decreases rows@.len() - i,
    {
        let ghost before = out@;
        let ghost pre = rows@.take(i as int + 1);
        assert(pre.drop_last() =~= rows@.take(i as int));
        match row_entry_exec(&rows[i]) {
            Some(e) => {
                out.push(e);
                assert(out@.map_values(|e: (String, Option<String>, i64)| entry_view(e)) =~= before.map_values(
                    |e: (String, Option<String>, i64)| entry_view(e),
                ).push(entry_view(out@.last())));
            },
            None => {},
        }
        i = i + 1;
    }
    assert(rows@.take(rows@.len() as int) =~= rows@);
    Ok(out)
}


// ------------------------------------------------- building the bundle

/// The name of a term bank file: `term_meta_bank_*.json`.
pub open spec fn term_bank_name(name: Seq<char>) -> bool {
    starts_with(name, "term_meta_bank_"@) && ends_with(name, ".json"@)
}

/// Whether a file of the dictionary's directory is one of its term banks.
pub fn is_term_bank_file(name: &str) -> (b: bool)
    ensures
        b == term_bank_name(name@),
{
    let cs = chars_of(name);
    let head = chars_of("term_meta_bank_");
    let tail = chars_of(".json");
    starts_with_exec(cs.as_slice(), head.as_slice()) && ends_with_exec(cs.as_slice(), tail.as_slice())
}

/// One parsed term bank entry: term, reading, rank.
pub type BankRow = (String, Option<String>, i64);

/// Row `i` is the first of `rows` with its term.
pub open spec fn first_for_term(rows: Seq<BankRow>, i: int) -> bool {
    forall|j: int| 0 <= j < i ==> rows[j].0@ != rows[i].0@
}

/// Row `i` is the first of `rows` with its term and a reading.
pub open spec fn first_reading_for_term(rows: Seq<BankRow>, i: int) -> bool {
    forall|j: int| 0 <= j < i ==> rows[j].0@ != rows[i].0@ || rows[j].1 is None
}

/// The first rank seen for a term wins: after the rows, `after` holds
/// the terms of `before` with their ranks, and each other term of the
/// rows with the rank of its first row.
pub open spec fn ranks_merged(
    before: Map<Seq<char>, i64>,
    after: Map<Seq<char>, i64>,
    rows: Seq<BankRow>,
) -> bool {
    &&& forall|t: Seq<char>|
        #![trigger after.contains_key(t)]
        after.contains_key(t) <==> (before.contains_key(t) || exists|i: int|
            0 <= i < rows.len() && (#[trigger] rows[i].0@) == t)
    &&& forall|t: Seq<char>| #[trigger] before.contains_key(t) ==> after[t] == before[t]
    &&& forall|i: int|
        0 <= i < rows.len() && !before.contains_key((#[trigger] rows[i]).0@) && first_for_term(rows, i)
            ==> after[rows[i].0@] == rows[i].2
}

/// The first reading seen for a term wins, as for ranks; rows without
/// a reading leave the readings alone.
pub open spec fn readings_merged(
    before: Map<Seq<char>, String>,
    after: Map<Seq<char>, String>,
    rows: Seq<BankRow>,
) -> bool {
    &&& forall|t: Seq<char>|
        #![trigger after.contains_key(t)]
        after.contains_key(t) <==> (before.contains_key(t) || exists|i: int|
            0 <= i < rows.len() && (#[trigger] rows[i].0@) == t && rows[i].1 is Some)
    &&& forall|t: Seq<char>| #[trigger] before.contains_key(t) ==> after[t] == before[t]
    &&& forall|i: int|
        0 <= i < rows.len() && rows[i].1 is Some && !before.contains_key((#[trigger] rows[i]).0@)
            && first_reading_for_term(rows, i) ==> after[rows[i].0@]@ == rows[i].1->0@
}

/// `added` lists exactly the keys that are in `after` and not in
/// `before`, each with its value in `after`.
pub open spec fn lists_added<V>(before: Map<Seq<char>, V>, after: Map<Seq<char>, V>, added: Seq<(String, V)>) -> bool {
    &&& forall|k: int|
        0 <= k < added.len() ==> !before.contains_key((#[trigger] added[k]).0@) && after.contains_key(
            added[k].0@,
        ) && after[added[k].0@] == added[k].1
    &&& forall|t: Seq<char>|
        #![trigger after.contains_key(t)]
        after.contains_key(t) && !before.contains_key(t) ==> exists|k: int|
            0 <= k < added.len() && (#[trigger] added[k]).0@ == t
}

/// Folds one term bank's rows into the ranks and readings built so far:
/// a term keeps the first rank seen, and the first reading seen.
/// Returns what it added to each map, so that the maps can be written
/// out.
pub fn merge_bank(
    freq: &mut StringHashMap<i64>,
    readings: &mut StringHashMap<String>,
    rows: Vec<BankRow>,
) -> (added: (Vec<(String, i64)>, Vec<(String, String)>))
    ensures
        ranks_merged(old(freq)@, final(freq)@, rows@),
        readings_merged(old(readings)@, final(readings)@, rows@),
        lists_added(old(freq)@, final(freq)@, added.0@),
        lists_added(old(readings)@, final(readings)@, added.1@),
{
    let ghost f0 = freq@;
    let ghost r0 = readings@;
    let mut new_ranks: Vec<(String, i64)> = Vec::new();
    let mut new_readings: Vec<(String, String)> = Vec::new();
    let mut i: usize = 0;
    while i < rows.len()
        invariant
            i <= rows@.len(),
            ranks_merged(f0, freq@, rows@.take(i as int)),
            readings_merged(r0, readings@, rows@.take(i as int)),
            lists_added(f0, freq@, new_ranks@),
            lists_added(r0, readings@, new_readings@),
        decreases rows@.len() - i,
    {
        let ghost pre = rows@.take(i as int);
        let ghost post = rows@.take(i + 1);
        let ghost f1 = freq@;
        let ghost r1 = readings@;
        let ghost ranks1 = new_ranks@;
        let ghost reads1 = new_readings@;
        assert(post =~= pre.push(rows@[i as int]));
        let term = &rows[i].0;
        if !freq.contains_key(term.as_str()) {
            freq.insert(term.clone(), rows[i].2);
            new_ranks.push((term.clone(), rows[i].2));
        }
        match &rows[i].1 {
            Some(r) => {
                if !readings.contains_key(term.as_str()) {
                    readings.insert(term.clone(), r.clone());
                    new_readings.push((term.clone(), r.clone()));
                }
            },
            None => {},
        }
        proof {
            let t = rows@[i as int].0@;
            assert(post[i as int] == rows@[i as int]);
            assert forall|u: Seq<char>| #![trigger freq@.contains_key(u)] freq@.contains_key(u) <==> (
            f0.contains_key(u) || exists|j: int| 0 <= j < post.len() && (#[trigger] post[j].0@) == u) by {
                if u == t {
                    assert(post[i as int].0@ == u);
                }
                if exists|j: int| 0 <= j < post.len() && (#[trigger] post[j].0@) == u {
                    let j = choose|j: int| 0 <= j < post.len() && (#[trigger] post[j].0@) == u;
                    if j < i {
                        assert(pre[j] == post[j]);
                    }
                }
                if exists|j: int| 0 <= j < pre.len() && (#[trigger] pre[j].0@) == u {
                    let j = choose|j: int| 0 <= j < pre.len() && (#[trigger] pre[j].0@) == u;
                    assert(pre[j] == post[j]);
                }
            }
            assert forall|j: int|
                0 <= j < post.len() && !f0.contains_key((#[trigger] post[j]).0@) && first_for_term(post, j)
                    implies freq@[post[j].0@] == post[j].2 by {
                if j < i {
                    assert(pre[j] == post[j]);
                    assert(first_for_term(pre, j));
                    assert(f1.contains_key(pre[j].0@));
                } else {
                    if f1.contains_key(t) {
                        let w = choose|w: int| 0 <= w < pre.len() && (#[trigger] pre[w].0@) == t;
                        assert(post[w] == pre[w]);
                    }
                }
            }
            assert forall|u: Seq<char>| #![trigger readings@.contains_key(u)] readings@.contains_key(u)
                <==> (r0.contains_key(u) || exists|j: int|
                0 <= j < post.len() && (#[trigger] post[j].0@) == u && post[j].1 is Some) by {
                if u == t && rows@[i as int].1 is Some {
                    assert(post[i as int].0@ == u);
                }
                if exists|j: int| 0 <= j < post.len() && (#[trigger] post[j].0@) == u && post[j].1 is Some {
                    let j = choose|j: int|
                        0 <= j < post.len() && (#[trigger] post[j].0@) == u && post[j].1 is Some;
                    if j < i {
                        assert(pre[j] == post[j]);
                    }
                }
                if exists|j: int| 0 <= j < pre.len() && (#[trigger] pre[j].0@) == u && pre[j].1 is Some {
                    let j = choose|j: int|
                        0 <= j < pre.len() && (#[trigger] pre[j].0@) == u && pre[j].1 is Some;
                    assert(pre[j] == post[j]);
                }
            }
            assert forall|j: int|
                0 <= j < post.len() && post[j].1 is Some && !r0.contains_key((#[trigger] post[j]).0@)
                    && first_reading_for_term(post, j) implies readings@[post[j].0@]@ == post[j].1->0@ by {
                if j < i {
                    assert(pre[j] == post[j]);
                    assert(first_reading_for_term(pre, j));
                    assert(r1.contains_key(pre[j].0@));
                } else {
                    if r1.contains_key(t) {
                        let w = choose|w: int|
                            0 <= w < pre.len() && (#[trigger] pre[w].0@) == t && pre[w].1 is Some;
                        assert(post[w] == pre[w]);
                    }
                }
            }
            assert forall|u: Seq<char>| #![trigger freq@.contains_key(u)] freq@.contains_key(u)
                && !f0.contains_key(u) implies exists|k: int|
                0 <= k < new_ranks@.len() && (#[trigger] new_ranks@[k]).0@ == u by {
                if f1.contains_key(u) {
                    let k = choose|k: int| 0 <= k < ranks1.len() && (#[trigger] ranks1[k]).0@ == u;
                    assert(new_ranks@[k] == ranks1[k]);
                } else {
                    assert(new_ranks@[ranks1.len() as int].0@ == u);
                }
            }
            assert forall|u: Seq<char>| #![trigger readings@.contains_key(u)] readings@.contains_key(u)
                && !r0.contains_key(u) implies exists|k: int|
                0 <= k < new_readings@.len() && (#[trigger] new_readings@[k]).0@ == u by {
                if r1.contains_key(u) {
                    let k = choose|k: int| 0 <= k < reads1.len() && (#[trigger] reads1[k]).0@ == u;
                    assert(new_readings@[k] == reads1[k]);
                } else {
                    assert(new_readings@[reads1.len() as int].0@ == u);
                }
            }
        }
        i = i + 1;
    }
    assert(rows@.take(rows@.len() as int) =~= rows@);
    (new_ranks, new_readings)
}

} // verus!
