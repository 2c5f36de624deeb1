//! The shape of a built JMDict bundle. Its JSON encoding lives with the
//! tool that writes it and the server that reads it.

use vstd::prelude::*;

use crate::tokenize::jmdict_index::strs_view;

verus! {

#[derive(Debug)]
pub struct Bundle {
    pub version: String,
    pub entries: Vec<Entry>,
}

#[derive(Debug, Clone)]
pub struct Entry {
    pub seq: i64,
    pub kanji: Vec<String>,
    pub readings: Vec<String>,
    pub senses: Vec<Sense>,
    /// Deinflection rule tags (`v1`, `v5k`, `adj-i`, …) — flattened
    /// from sense POS tags for fast filtering.
    pub rules: Vec<String>,
    /// Sum of JMDict priority markers across all k_ele + r_ele —
    /// higher = more common. 0 = no priority info.
    pub priority: i32,
}

/// Whether a priority is omitted from the encoded bundle.
pub fn is_zero(n: &i32) -> (r: bool)
    ensures
        r == (*n == 0),
{
    *n == 0
}

#[derive(Debug, Clone)]
pub struct Sense {
    /// Part-of-speech entity codes from JMDict (e.g. `["v1", "vt"]`).
    pub pos: Vec<String>,
    pub glosses: Vec<String>,
}

/// A sense as plain values.
pub struct SenseView {
    pub pos: Seq<Seq<char>>,
    pub glosses: Seq<Seq<char>>,
}

/// An entry as plain values.
pub struct EntryView {
    pub seq: int,
    pub kanji: Seq<Seq<char>>,
    pub readings: Seq<Seq<char>>,
    pub senses: Seq<SenseView>,
    pub rules: Seq<Seq<char>>,
    pub priority: int,
}

pub open spec fn sense_view(s: Sense) -> SenseView {
    SenseView { pos: strs_view(s.pos@), glosses: strs_view(s.glosses@) }
}

pub open spec fn senses_view(v: Seq<Sense>) -> Seq<SenseView> {
    Seq::new(v.len(), |i: int| sense_view(v[i]))
}

pub open spec fn entry_view(e: Entry) -> EntryView {
    EntryView {
        seq: e.seq as int,
        kanji: strs_view(e.kanji@),
        readings: strs_view(e.readings@),
        senses: senses_view(e.senses@),
        rules: strs_view(e.rules@),
        priority: e.priority as int,
    }
}

pub open spec fn entries_view(v: Seq<Entry>) -> Seq<EntryView> {
    Seq::new(v.len(), |i: int| entry_view(v[i]))
}

} // verus!
