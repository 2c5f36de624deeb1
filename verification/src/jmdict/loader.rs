//! Turn a built JMDict bundle into the in-memory index used by the
//! tokenizer. Reading and decompressing the bundle file happens outside
//! the library.

use vstd::prelude::*;

use super::bundle::{Bundle, Entry, Sense};
use crate::tokenize::jmdict_index::{
    JmdictEntry, JmdictIndex, add_keys, key_count, lemma_add_keys_list, lemma_resolve_has, list_of,
    strs_view,
};

verus! {

/// An index entry as plain values.
pub struct JmEntryView {
    pub seq: int,
    pub kanji: Seq<Seq<char>>,
    pub readings: Seq<Seq<char>>,
    pub glosses: Seq<Seq<char>>,
    pub pos_tags: Seq<Seq<char>>,
    pub rules: Seq<Seq<char>>,
}

pub open spec fn jm_view(e: JmdictEntry) -> JmEntryView {
    JmEntryView {
        seq: e.seq as int,
        kanji: strs_view(e.kanji@),
        readings: strs_view(e.readings@),
        glosses: strs_view(e.glosses@),
        pos_tags: strs_view(e.pos_tags@),
        rules: strs_view(e.rules@),
    }
}

/// The POS tags of all senses, sense by sense.
pub open spec fn flat_pos(ss: Seq<Sense>) -> Seq<Seq<char>>
    decreases ss.len(),
{
    if ss.len() == 0 {
        seq![]
    } else {
        flat_pos(ss.drop_last()) + strs_view(ss.last().pos@)
    }
}

/// The glosses of all senses, sense by sense.
pub open spec fn flat_glosses(ss: Seq<Sense>) -> Seq<Seq<char>>
    decreases ss.len(),
{
    if ss.len() == 0 {
        seq![]
    } else {
        flat_glosses(ss.drop_last()) + strs_view(ss.last().glosses@)
    }
}

/// The index entry a bundle entry becomes.
pub open spec fn indexed(e: Entry) -> JmEntryView {
    JmEntryView {
        seq: e.seq as int,
        kanji: strs_view(e.kanji@),
        readings: strs_view(e.readings@),
        glosses: flat_glosses(e.senses@),
        pos_tags: flat_pos(e.senses@),
        rules: strs_view(e.rules@),
    }
}

/// Surface lists after indexing `es` in order.
pub open spec fn index_surfaces(es: Seq<Entry>) -> Map<Seq<char>, Seq<i64>>
    decreases es.len(),
{
    if es.len() == 0 {
        Map::empty()
    } else {
        let e = es.last();
        add_keys(
            add_keys(index_surfaces(es.drop_last()), strs_view(e.kanji@), e.seq),
            strs_view(e.readings@),
            e.seq,
        )
    }
}

/// Entries after indexing `es` in order (a later entry replaces an
/// earlier one with the same number).
pub open spec fn index_entries(es: Seq<Entry>) -> Map<i64, JmEntryView>
    decreases es.len(),
{
    if es.len() == 0 {
        Map::empty()
    } else {
        index_entries(es.drop_last()).insert(es.last().seq, indexed(es.last()))
    }
}

fn clone_strings(v: &Vec<String>) -> (r: Vec<String>)
    ensures
        strs_view(r@) == strs_view(v@),
{
    let mut out: Vec<String> = Vec::new();
    let mut i: usize = 0;
    while i < v.len()
        invariant
            i <= v@.len(),
            strs_view(out@) == strs_view(v@).take(i as int),
        decreases v@.len() - i,
    {
        let ghost before = out@;
        out.push(v[i].clone());
        assert(strs_view(out@) =~= strs_view(before).push(v@[i as int]@));
        assert(strs_view(v@).take(i + 1) =~= strs_view(v@).take(i as int).push(v@[i as int]@));
        i = i + 1;
    }
    assert(strs_view(v@).take(v@.len() as int) =~= strs_view(v@));
    out
}

fn append_strings(out: &mut Vec<String>, v: &Vec<String>)
    ensures
        strs_view(final(out)@) == strs_view(old(out)@) + strs_view(v@),
{
    let ghost start = strs_view(out@);
    let mut i: usize = 0;
    while i < v.len()
        invariant
            i <= v@.len(),
            strs_view(out@) == start + strs_view(v@).take(i as int),
        decreases v@.len() - i,
    {
        let ghost before = out@;
        out.push(v[i].clone());
        assert(strs_view(out@) =~= strs_view(before).push(v@[i as int]@));
        assert(strs_view(v@).take(i + 1) =~= strs_view(v@).take(i as int).push(v@[i as int]@));
        i = i + 1;
    }
    assert(strs_view(v@).take(v@.len() as int) =~= strs_view(v@));
}

/// Index every entry of `bundle`, in bundle order: POS tags and glosses
/// are flattened across senses.
pub fn build_index(bundle: Bundle) -> (idx: JmdictIndex)
    ensures
        idx.surfaces() == index_surfaces(bundle.entries@),
        idx.entry_map().map_values(|e: JmdictEntry| jm_view(e)) == index_entries(bundle.entries@),
{
    let mut idx = JmdictIndex::new();
    let entries = &bundle.entries;
    let mut i: usize = 0;
    assert(idx.entry_map().map_values(|e: JmdictEntry| jm_view(e)) =~= index_entries(
        entries@.take(0),
    ));
    assert(idx.surfaces() =~= index_surfaces(entries@.take(0)));
    while i < entries.len()
        invariant
            i <= entries@.len(),
            idx.surfaces() == index_surfaces(entries@.take(i as int)),
            idx.entry_map().map_values(|e: JmdictEntry| jm_view(e)) == index_entries(
                entries@.take(i as int),
            ),
        decreases entries@.len() - i,
    {
        let e = &entries[i];
        let mut pos_tags: Vec<String> = Vec::new();
        let mut glosses: Vec<String> = Vec::new();
        let mut k: usize = 0;
        assert(strs_view(pos_tags@) =~= flat_pos(e.senses@.take(0)));
        assert(strs_view(glosses@) =~= flat_glosses(e.senses@.take(0)));
        while k < e.senses.len()
            invariant
                k <= e.senses@.len(),
                strs_view(pos_tags@) == flat_pos(e.senses@.take(k as int)),
                strs_view(glosses@) == flat_glosses(e.senses@.take(k as int)),
            decreases e.senses@.len() - k,
        {
            append_strings(&mut pos_tags, &e.senses[k].pos);
            append_strings(&mut glosses, &e.senses[k].glosses);
            assert(e.senses@.take(k + 1).drop_last() =~= e.senses@.take(k as int));
            k = k + 1;
        }
        assert(e.senses@.take(k as int) =~= e.senses@);
        let je = JmdictEntry {
            seq: e.seq,
            kanji: clone_strings(&e.kanji),
            readings: clone_strings(&e.readings),
            glosses,
            pos_tags,
            rules: clone_strings(&e.rules),
        };
        let ghost before = idx.entry_map();
        idx.insert(je);
        proof {
            let t = entries@.take(i + 1);
            assert(t.drop_last() =~= entries@.take(i as int));
            assert(t.last() == *e);
            assert(jm_view(je) == indexed(*e));
            assert(idx.entry_map().map_values(|e: JmdictEntry| jm_view(e)) =~= before.map_values(
                |e: JmdictEntry| jm_view(e),
            ).insert(e.seq, jm_view(je)));
        }
        i = i + 1;
    }
    assert(entries@.take(entries@.len() as int) =~= entries@);
    idx
}


proof fn lemma_key_count_pos(keys: Seq<Seq<char>>, k: Seq<char>)
    requires
        keys.contains(k),
    ensures
        key_count(keys, k) > 0,
    decreases keys.len(),
{
    if keys.last() != k {
        let i = choose|i: int| 0 <= i < keys.len() && keys[i] == k;
        assert(keys.drop_last()[i] == k);
        lemma_key_count_pos(keys.drop_last(), k);
    }
}

/// `k` is one of the kanji or readings of `e`.
pub open spec fn keyed_by(e: Entry, k: Seq<char>) -> bool {
    strs_view(e.kanji@).contains(k) || strs_view(e.readings@).contains(k)
}

/// After indexing `es`, every entry can be found by any of its kanji
/// and readings: the surface lists its number, and the number has an
/// entry, which is the entry itself unless a later one of `es` carries
/// the same number.
pub proof fn index_finds_entry_by_any_surface(es: Seq<Entry>, i: int, k: Seq<char>)
    requires
        0 <= i < es.len(),
        keyed_by(es[i], k),
    ensures
        index_surfaces(es).contains_key(k),
        index_surfaces(es)[k].contains(es[i].seq),
        index_entries(es).contains_key(es[i].seq),
        (forall|j: int| i < j < es.len() ==> (#[trigger] es[j]).seq != es[i].seq) ==> index_entries(
            es,
        )[es[i].seq] == indexed(es[i]),
    decreases es.len(),
{
    let e = es.last();
    let init = es.drop_last();
    let m0 = index_surfaces(init);
    let m1 = add_keys(m0, strs_view(e.kanji@), e.seq);
    lemma_add_keys_list(m0, strs_view(e.kanji@), e.seq, k);
    lemma_add_keys_list(m1, strs_view(e.readings@), e.seq, k);
    let nk = key_count(strs_view(e.kanji@), k);
    let nr = key_count(strs_view(e.readings@), k);
    let l = list_of(index_surfaces(es), k);
    assert(l =~= list_of(m0, k) + Seq::new(nk + nr, |t: int| e.seq));
    if i == es.len() - 1 {
        if strs_view(e.kanji@).contains(k) {
            lemma_key_count_pos(strs_view(e.kanji@), k);
        } else {
            lemma_key_count_pos(strs_view(e.readings@), k);
        }
        assert(l[list_of(m0, k).len() as int] == e.seq);
    } else {
        assert(init[i] == es[i]);
        index_finds_entry_by_any_surface(init, i, k);
        let w = choose|w: int| 0 <= w < m0[k].len() && m0[k][w] == es[i].seq;
        assert(l[w] == es[i].seq);
        if forall|j: int| i < j < es.len() ==> (#[trigger] es[j]).seq != es[i].seq {
            assert(es[es.len() - 1].seq != es[i].seq);
            assert forall|j: int| i < j < init.len() implies (#[trigger] init[j]).seq != init[i].seq by {
                assert(init[j] == es[j]);
            }
        }
    }
}


proof fn lemma_index_entries_dom(es: Seq<Entry>)
    ensures
        index_entries(es).dom() =~= es.map_values(|e: Entry| e.seq).to_set(),
    decreases es.len(),
{
    if es.len() > 0 {
        let init = es.drop_last();
        lemma_index_entries_dom(init);
        let sq = es.map_values(|e: Entry| e.seq);
        let sq0 = init.map_values(|e: Entry| e.seq);
        assert(sq =~= sq0.push(es.last().seq));
        assert forall|x: i64| sq.to_set().contains(x) <==> index_entries(es).dom().contains(x) by {
            if sq.contains(x) && x != es.last().seq {
                let i = choose|i: int| 0 <= i < sq.len() && sq[i] == x;
                assert(sq0[i] == x);
            }
            if sq0.contains(x) {
                let i = choose|i: int| 0 <= i < sq0.len() && sq0[i] == x;
                assert(sq[i] == x);
            }
            if x == es.last().seq {
                assert(sq[sq.len() - 1] == x);
            }
        }
    }
}

/// Indexing a bundle whose entries carry distinct numbers stores one
/// entry per bundle entry: `len` is the bundle's length, each number
/// holds its entry (senses' POS tags and glosses flattened in order),
/// and a lookup of any kanji or reading of an entry finds it.
pub proof fn build_index_over_bundle(idx: JmdictIndex, es: Seq<Entry>)
    requires
        idx.surfaces() == index_surfaces(es),
        idx.entry_map().map_values(|e: JmdictEntry| jm_view(e)) == index_entries(es),
        forall|i: int, j: int| 0 <= i < j < es.len() ==> (#[trigger] es[i]).seq != (#[trigger] es[j]).seq,
    ensures
        idx.entry_map().len() == es.len(),
        forall|i: int|
            0 <= i < es.len() ==> idx.entry_map().contains_key((#[trigger] es[i]).seq) && jm_view(
                idx.entry_map()[es[i].seq],
            ) == indexed(es[i]),
        forall|i: int, k: Seq<char>|
            0 <= i < es.len() && #[trigger] keyed_by(es[i], k) ==> exists|j: int|
                0 <= j < idx.lookup_spec(k).len() && jm_view(#[trigger] idx.lookup_spec(k)[j]) == indexed(es[i]),
{
    let sq = es.map_values(|e: Entry| e.seq);
    lemma_index_entries_dom(es);
    assert(sq.no_duplicates()) by {
        assert forall|i: int, j: int| 0 <= i < sq.len() && 0 <= j < sq.len() && i != j implies sq[i] != sq[j] by {
            if i < j {
                assert(es[i].seq != es[j].seq);
            } else {
                assert(es[j].seq != es[i].seq);
            }
        }
    }
    sq.unique_seq_to_set();
    let m = idx.entry_map();
    assert(m.dom() =~= m.map_values(|e: JmdictEntry| jm_view(e)).dom());
    assert forall|i: int| 0 <= i < es.len() implies m.contains_key((#[trigger] es[i]).seq) && jm_view(m[es[i].seq])
        == indexed(es[i]) by {
        assert(sq[i] == es[i].seq);
        assert(sq.to_set().contains(es[i].seq));
        assert forall|j: int| i < j < es.len() implies (#[trigger] es[j]).seq != es[i].seq by {}
        index_finds_entry_by_any_surface_entry(es, i);
        assert(m.map_values(|e: JmdictEntry| jm_view(e))[es[i].seq] == jm_view(m[es[i].seq]));
    }
    assert forall|i: int, k: Seq<char>| 0 <= i < es.len() && #[trigger] keyed_by(es[i], k) implies exists|j: int|
        0 <= j < idx.lookup_spec(k).len() && jm_view(#[trigger] idx.lookup_spec(k)[j]) == indexed(es[i]) by {
        index_finds_entry_by_any_surface(es, i, k);
        assert(m.contains_key(es[i].seq) && jm_view(m[es[i].seq]) == indexed(es[i]));
        lemma_resolve_has(idx.surfaces()[k], m, es[i].seq);
        let j = choose|j: int| 0 <= j < idx.lookup_spec(k).len() && idx.lookup_spec(k)[j] == m[es[i].seq];
        assert(jm_view(idx.lookup_spec(k)[j]) == indexed(es[i]));
    }
}

proof fn index_finds_entry_by_any_surface_entry(es: Seq<Entry>, i: int)
    requires
        0 <= i < es.len(),
        forall|j: int| i < j < es.len() ==> (#[trigger] es[j]).seq != es[i].seq,
    ensures
        index_entries(es).contains_key(es[i].seq),
        index_entries(es)[es[i].seq] == indexed(es[i]),
    decreases es.len(),
{
    let init = es.drop_last();
    if i < es.len() - 1 {
        assert(init[i] == es[i]);
        assert(es[es.len() - 1].seq != es[i].seq);
        assert forall|j: int| i < j < init.len() implies (#[trigger] init[j]).seq != init[i].seq by {
            assert(init[j] == es[j]);
        }
        index_finds_entry_by_any_surface_entry(init, i);
    }
}

} // verus!
