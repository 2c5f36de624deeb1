//! The kanji of a mined sentence, each with its WaniKani data when the
//! local WaniKani cache knows it. The cache lookups happen outside the
//! library; kanji it does not know keep an empty meaning and no level so
//! the card can still show them.

use std::collections::HashSet;

use vstd::prelude::*;

use super::furigana::{is_kanji, is_kanji_exec};
use crate::hibi::model::KanjiEntry;
use crate::text::{chars_of, string_of};

verus! {

/// The distinct kanji of `s` in order of first appearance.
pub open spec fn distinct_kanji(s: Seq<char>) -> Seq<char>
    decreases s.len(),
{
    if s.len() == 0 {
        Seq::empty()
    } else {
        let prev = distinct_kanji(s.drop_last());
        if is_kanji(s.last()) && !prev.contains(s.last()) {
            prev.push(s.last())
        } else {
            prev
        }
    }
}

/// The distinct kanji of `text`, in order of first appearance. The
/// code points already taken are kept in a hash set.
pub fn kanji_of(text: &str) -> (r: Vec<char>)
    ensures
        r@ == distinct_kanji(text@),
{
    broadcast use {vstd::std_specs::hash::group_hash_axioms, vstd::utf8::char_u32_cast};

    let cs = chars_of(text);
    let mut out: Vec<char> = Vec::new();
    let mut seen: HashSet<u32> = HashSet::new();
    let mut i: usize = 0;
    while i < cs.len()
        invariant
            i <= cs@.len(),
            cs@ == text@,
            out@ == distinct_kanji(cs@.take(i as int)),
            forall|x: u32| seen@.contains(x) <==> (exists|t: int|
                0 <= t < out@.len() && (#[trigger] out@[t]) as u32 == x),
        decreases cs@.len() - i,
    {
        let c = cs[i];
        let ghost before_seen = seen@;
        let ghost before_out = out@;
        let ghost pre = cs@.take(i as int + 1);
        assert(pre.drop_last() =~= cs@.take(i as int));
        let code = c as u32;
        proof {
            assert(before_seen.contains(code) <==> before_out.contains(c)) by {
                if before_seen.contains(code) {
                    let t = choose|t: int| 0 <= t < before_out.len() && (#[trigger] before_out[t]) as u32 == code;
                    vstd::utf8::char_u32_cast(before_out[t], code);
                    vstd::utf8::char_u32_cast(c, code);
                    assert(before_out[t] == c);
                }
                if before_out.contains(c) {
                    let t = choose|t: int| 0 <= t < before_out.len() && before_out[t] == c;
                    assert((before_out[t]) as u32 == code);
                }
            }
        }
        if is_kanji_exec(c) && seen.insert(code) {
            out.push(c);
        }
        proof {
            assert forall|x: u32| seen@.contains(x) <==> (exists|t: int|
                0 <= t < out@.len() && (#[trigger] out@[t]) as u32 == x) by {
                if seen@.contains(x) && !before_seen.contains(x) {
                    assert(out@[out@.len() - 1] as u32 == x);
                }
                if before_seen.contains(x) {
                    let t = choose|t: int| 0 <= t < before_out.len() && (#[trigger] before_out[t]) as u32 == x;
                    assert(out@[t] == before_out[t]);
                }
                if exists|t: int| 0 <= t < out@.len() && (#[trigger] out@[t]) as u32 == x {
                    let t = choose|t: int| 0 <= t < out@.len() && (#[trigger] out@[t]) as u32 == x;
                    if t < before_out.len() {
                        assert(out@[t] == before_out[t]);
                    }
                }
            }
        }
        i = i + 1;
    }
    assert(cs@.take(cs@.len() as int) =~= cs@);
    out
}

/// The distinct kanji of a text are exactly its kanji, each once.
pub proof fn distinct_kanji_are_the_kanji(s: Seq<char>)
    ensures
        forall|i: int, j: int|
            0 <= i < j < distinct_kanji(s).len() ==> distinct_kanji(s)[i] != distinct_kanji(s)[j],
        forall|c: char| distinct_kanji(s).contains(c) <==> (is_kanji(c) && s.contains(c)),
    decreases s.len(),
{
    if s.len() > 0 {
        let init = s.drop_last();
        distinct_kanji_are_the_kanji(init);
        assert forall|c: char| s.contains(c) <==> (init.contains(c) || c == s.last()) by {
            if s.contains(c) {
                let k = choose|k: int| 0 <= k < s.len() && s[k] == c;
                if k < s.len() - 1 {
                    assert(init[k] == c);
                }
            }
            if init.contains(c) {
                let k = choose|k: int| 0 <= k < init.len() && init[k] == c;
                assert(s[k] == c);
            }
            if c == s.last() {
                assert(s[s.len() - 1] == c);
            }
        }
        let prev = distinct_kanji(init);
        if is_kanji(s.last()) && !prev.contains(s.last()) {
            assert forall|c: char| prev.push(s.last()).contains(c) <==> (prev.contains(c) || c == s.last()) by {
                if prev.push(s.last()).contains(c) {
                    let k = choose|k: int| 0 <= k < prev.len() + 1 && prev.push(s.last())[k] == c;
                    if k < prev.len() {
                        assert(prev[k] == c);
                    }
                }
                if prev.contains(c) {
                    let k = choose|k: int| 0 <= k < prev.len() && prev[k] == c;
                    assert(prev.push(s.last())[k] == c);
                }
                if c == s.last() {
                    assert(prev.push(s.last())[prev.len() as int] == c);
                }
            }
            assert forall|i: int, j: int|
                0 <= i < j < prev.len() + 1 implies prev.push(s.last())[i] != prev.push(
                s.last(),
            )[j] by {
                if j == prev.len() {
                    assert(prev[i] == prev.push(s.last())[i]);
                }
            }
        }
    }
}

/// A looked-up WaniKani kanji: primary meaning and level (when stored).
pub open spec fn kanji_entry_matches(e: KanjiEntry, c: char, found: Option<(String, Option<i64>)>) -> bool {
    &&& e.kanji@ == seq![c]
    &&& match found {
        Some((meaning, level)) => e.meaning@ == meaning@ && e.wanikani_level == level,
        None => e.meaning@ == Seq::<char>::empty() && e.wanikani_level is None,
    }
}

/// The card's kanji list: one entry per kanji, with what the WaniKani
/// cache holds for it (`found[i]` for `kanji[i]`).
pub fn kanji_entries(kanji: &[char], found: &[Option<(String, Option<i64>)>]) -> (r: Vec<KanjiEntry>)
    requires
        found@.len() == kanji@.len(),
    ensures
        r@.len() == kanji@.len(),
        forall|i: int| 0 <= i < r@.len() ==> kanji_entry_matches(#[trigger] r@[i], kanji@[i], found@[i]),
{
    let mut out: Vec<KanjiEntry> = Vec::new();
    let mut i: usize = 0;
    while i < kanji.len()
        invariant
            i <= kanji@.len(),
            found@.len() == kanji@.len(),
            out@.len() == i,
            forall|t: int| 0 <= t < i ==> kanji_entry_matches(#[trigger] out@[t], kanji@[t], found@[t]),
        decreases kanji@.len() - i,
    {
        let c = kanji[i];
        let one = string_of(&[c]);
        assert(one@ =~= seq![c]);
        let e = match &found[i] {
            Some((meaning, level)) => KanjiEntry { kanji: one, meaning: meaning.clone(), wanikani_level: *level },
            None => KanjiEntry { kanji: one, meaning: String::new(), wanikani_level: None },
        };
        out.push(e);
        i = i + 1;
    }
    out
}

} // verus!
