//! In-memory JMDict index used by the longest-match segmenter and the
//! mining card-payload assembly.

use vstd::hash_map::{HashMapWithView, StringHashMap};
use vstd::prelude::*;

verus! {

/// One dictionary entry as the tokenizer and the miner see it.
#[derive(Debug, Clone)]
pub struct JmdictEntry {
    pub seq: i64,
    pub kanji: Vec<String>,
    pub readings: Vec<String>,
    pub glosses: Vec<String>,
    pub pos_tags: Vec<String>,
    /// Deinflection rule tags (`v1`, `v5k`, `adj-i`, …) — used by
    /// the deinflector to filter compatible matches.
    pub rules: Vec<String>,
}

/// Surface → entry numbers, and entry number → entry.
pub struct JmdictIndex {
    /// surface (kanji or reading) → list of `ent_seq` ints, in
    /// insertion order so popular entries come first.
    by_surface: StringHashMap<Vec<i64>>,
    /// `ent_seq` → entry metadata.
    entries: HashMapWithView<i64, JmdictEntry>,
}

/// The strings of a list, as plain values.
pub open spec fn strs_view(v: Seq<String>) -> Seq<Seq<char>> {
    Seq::new(v.len(), |i: int| v[i]@)
}

/// `by_surface` with `seq` appended to the list of each key in `keys`.
pub open spec fn add_keys(m: Map<Seq<char>, Seq<i64>>, keys: Seq<Seq<char>>, seq: i64) -> Map<
    Seq<char>,
    Seq<i64>,
>
    decreases keys.len(),
{
    if keys.len() == 0 {
        m
    } else {
        let m2 = add_keys(m, keys.drop_last(), seq);
        let k = keys.last();
        let old_list = if m2.contains_key(k) {
            m2[k]
        } else {
            seq![]
        };
        m2.insert(k, old_list.push(seq))
    }
}

/// The entries the listed numbers resolve to, in list order; numbers
/// without an entry are skipped.
pub open spec fn resolve(seqs: Seq<i64>, entries: Map<i64, JmdictEntry>) -> Seq<JmdictEntry>
    decreases seqs.len(),
{
    if seqs.len() == 0 {
        seq![]
    } else {
        let rest = resolve(seqs.drop_last(), entries);
        if entries.contains_key(seqs.last()) {
            rest.push(entries[seqs.last()])
        } else {
            rest
        }
    }
}

impl JmdictIndex {
    /// Surface → entry numbers.
    pub closed spec fn surfaces(&self) -> Map<Seq<char>, Seq<i64>> {
        Map::new(|k: Seq<char>| self.by_surface@.contains_key(k), |k: Seq<char>| self.by_surface@[k]@)
    }

    /// Entry number → entry.
    pub closed spec fn entry_map(&self) -> Map<i64, JmdictEntry> {
        self.entries@
    }

    /// What `lookup(surface)` returns.
    pub open spec fn lookup_spec(&self, surface: Seq<char>) -> Seq<JmdictEntry> {
        if self.surfaces().contains_key(surface) {
            resolve(self.surfaces()[surface], self.entry_map())
        } else {
            seq![]
        }
    }

    pub fn new() -> (r: Self)
        ensures
            r.surfaces() == Map::<Seq<char>, Seq<i64>>::empty(),
            r.entry_map() == Map::<i64, JmdictEntry>::empty(),
    {
        broadcast use vstd::std_specs::hash::group_hash_axioms;

        let r = JmdictIndex { by_surface: StringHashMap::new(), entries: HashMapWithView::new() };
        assert(r.surfaces() =~= Map::<Seq<char>, Seq<i64>>::empty());
        r
    }

    /// Append `seq` to the list of `key`.
    fn add_key(&mut self, key: &String, seq: i64)
        ensures
            final(self).entry_map() == old(self).entry_map(),
            final(self).surfaces() == ({
                let m = old(self).surfaces();
                let old_list = if m.contains_key(key@) {
                    m[key@]
                } else {
                    seq![]
                };
                m.insert(key@, old_list.push(seq))
            }),
    {
        let mut list: Vec<i64> = Vec::new();
        match self.by_surface.get(key.as_str()) {
            Some(existing) => {
                let mut i: usize = 0;
                while i < existing.len()
                    invariant
                        i <= existing@.len(),
                        list@ == existing@.take(i as int),
                    decreases existing@.len() - i,
                {
                    list.push(existing[i]);
                    i = i + 1;
                    assert(list@ =~= existing@.take(i as int));
                }
                assert(existing@.take(existing@.len() as int) =~= existing@);
            },
            None => {},
        }
        let ghost before = self.surfaces();
        list.push(seq);
        self.by_surface.insert(key.clone(), list);
        assert(self.surfaces() =~= before.insert(key@, if before.contains_key(key@) {
            before[key@]
        } else {
            seq![]
        }.push(seq)));
    }

    /// Index `entry` under each of its kanji and readings (in that
    /// order) and store it under its number, replacing an entry with the
    /// same number.
    pub fn insert(&mut self, entry: JmdictEntry)
        ensures
            final(self).surfaces() == add_keys(
                add_keys(old(self).surfaces(), strs_view(entry.kanji@), entry.seq),
                strs_view(entry.readings@),
                entry.seq,
            ),
            final(self).entry_map() == old(self).entry_map().insert(entry.seq, entry),
    {
        let ghost start = self.surfaces();
        let mut i: usize = 0;
        while i < entry.kanji.len()
            invariant
                i <= entry.kanji@.len(),
                self.surfaces() == add_keys(start, strs_view(entry.kanji@).take(i as int), entry.seq),
                self.entry_map() == old(self).entry_map(),
            decreases entry.kanji@.len() - i,
        {
            self.add_key(&entry.kanji[i], entry.seq);
            proof {
                let t = strs_view(entry.kanji@).take(i + 1);
                assert(t.drop_last() =~= strs_view(entry.kanji@).take(i as int));
                assert(t.last() == entry.kanji@[i as int]@);
            }
            i = i + 1;
        }
        assert(strs_view(entry.kanji@).take(i as int) =~= strs_view(entry.kanji@));
        let ghost mid = self.surfaces();
        let mut j: usize = 0;
        while j < entry.readings.len()
            invariant
                j <= entry.readings@.len(),
                self.surfaces() == add_keys(mid, strs_view(entry.readings@).take(j as int), entry.seq),
                self.entry_map() == old(self).entry_map(),
            decreases entry.readings@.len() - j,
        {
            self.add_key(&entry.readings[j], entry.seq);
            proof {
                let t = strs_view(entry.readings@).take(j + 1);
                assert(t.drop_last() =~= strs_view(entry.readings@).take(j as int));
                assert(t.last() == entry.readings@[j as int]@);
            }
            j = j + 1;
        }
        assert(strs_view(entry.readings@).take(j as int) =~= strs_view(entry.readings@));
        let ghost before = self.surfaces();
        self.entries.insert(entry.seq, entry);
        assert(self.surfaces() =~= before);
    }

    /// The entries indexed under `surface`, in the order they were
    /// indexed.
    pub fn lookup(&self, surface: &str) -> (r: Vec<&JmdictEntry>)
        ensures
            r@.len() == self.lookup_spec(surface@).len(),
            forall|i: int| 0 <= i < r@.len() ==> *#[trigger] r@[i] == self.lookup_spec(surface@)[i],
    {
        let mut out: Vec<&JmdictEntry> = Vec::new();
        match self.by_surface.get(surface) {
            None => {},
            Some(seqs) => {
                assert(self.surfaces().contains_key(surface@));
                assert(self.surfaces()[surface@] == seqs@);
                let mut i: usize = 0;
                while i < seqs.len()
                    invariant
                        i <= seqs@.len(),
                        out@.len() == resolve(seqs@.take(i as int), self.entry_map()).len(),
                        forall|t: int|
                            0 <= t < out@.len() ==> *#[trigger] out@[t] == resolve(
                                seqs@.take(i as int),
                                self.entry_map(),
                            )[t],
                    decreases seqs@.len() - i,
                {
                    let ghost prev = seqs@.take(i as int);
                    assert(seqs@.take(i + 1).drop_last() =~= prev);
                    match self.entries.get(&seqs[i]) {
                        Some(e) => {
                            out.push(e);
                        },
                        None => {},
                    }
                    i = i + 1;
                }
                assert(seqs@.take(seqs@.len() as int) =~= seqs@);
            },
        }
        out
    }

    /// The entry numbered `seq`, if any.
    pub fn entry(&self, seq: i64) -> (r: Option<&JmdictEntry>)
        ensures
            match r {
                Some(e) => self.entry_map().contains_key(seq) && *e == self.entry_map()[seq],
                None => !self.entry_map().contains_key(seq),
            },
    {
        self.entries.get(&seq)
    }

    /// Number of distinct entry numbers stored.
    pub fn len(&self) -> (r: usize)
        ensures
            r == self.entry_map().len(),
    {
        self.entries.len()
    }

    pub fn is_empty(&self) -> (r: bool)
        ensures
            r == (self.entry_map().len() == 0),
    {
        self.entries.len() == 0
    }
}


// ----------------------------------------------------------------- laws

proof fn lemma_add_keys_ends(m: Map<Seq<char>, Seq<i64>>, keys: Seq<Seq<char>>, seq: i64, k: Seq<char>)
    requires
        keys.contains(k) || (m.contains_key(k) && m[k].len() > 0 && m[k].last() == seq),
    ensures
        add_keys(m, keys, seq).contains_key(k),
        add_keys(m, keys, seq)[k].len() > 0,
        add_keys(m, keys, seq)[k].last() == seq,
    decreases keys.len(),
{
    if keys.len() > 0 {
        let m2 = add_keys(m, keys.drop_last(), seq);
        if keys.last() != k {
            assert(keys.drop_last().contains(k) || (m.contains_key(k) && m[k].len() > 0 && m[k].last() == seq)) by {
                if keys.contains(k) {
                    let i = choose|i: int| 0 <= i < keys.len() && keys[i] == k;
                    assert(keys.drop_last()[i] == k);
                }
            }
            lemma_add_keys_ends(m, keys.drop_last(), seq, k);
        }
    }
}

proof fn lemma_resolve_last(seqs: Seq<i64>, entries: Map<i64, JmdictEntry>)
    requires
        seqs.len() > 0,
        entries.contains_key(seqs.last()),
    ensures
        resolve(seqs, entries).len() > 0,
        resolve(seqs, entries).last() == entries[seqs.last()],
{
}

/// After `insert(e)`, looking up any kanji or reading of `e` ends with
/// `e` itself.
pub proof fn lookup_after_insert(
    before: Map<Seq<char>, Seq<i64>>,
    entries: Map<i64, JmdictEntry>,
    e: JmdictEntry,
    k: Seq<char>,
)
    requires
        strs_view(e.kanji@).contains(k) || strs_view(e.readings@).contains(k),
    ensures
        ({
            let surf = add_keys(add_keys(before, strs_view(e.kanji@), e.seq), strs_view(e.readings@), e.seq);
            let ents = entries.insert(e.seq, e);
            &&& surf.contains_key(k)
            &&& resolve(surf[k], ents).len() > 0
            &&& resolve(surf[k], ents).last() == e
        }),
{
    let m1 = add_keys(before, strs_view(e.kanji@), e.seq);
    if strs_view(e.kanji@).contains(k) {
        lemma_add_keys_ends(before, strs_view(e.kanji@), e.seq, k);
    }
    lemma_add_keys_ends(m1, strs_view(e.readings@), e.seq, k);
    let surf = add_keys(m1, strs_view(e.readings@), e.seq);
    lemma_resolve_last(surf[k], entries.insert(e.seq, e));
}


/// Inserting an entry adds one to `len` when its number is new, and
/// leaves `len` alone when it replaces the entry stored under that
/// number.
pub proof fn len_after_insert(before: JmdictIndex, after: JmdictIndex, e: JmdictEntry)
    requires
        before.entry_map().dom().finite(),
        after.entry_map() == before.entry_map().insert(e.seq, e),
    ensures
        after.entry_map().len() == before.entry_map().len() + if before.entry_map().contains_key(e.seq) {
            0int
        } else {
            1int
        },
{
    assert(after.entry_map().dom() =~= before.entry_map().dom().insert(e.seq));
}

/// Every number listed under a surface has an entry.
pub open spec fn listed_have_entries(idx: JmdictIndex) -> bool {
    forall|k: Seq<char>, i: int|
        #![trigger idx.surfaces()[k][i]]
        idx.surfaces().contains_key(k) && 0 <= i < idx.surfaces()[k].len() ==> idx.entry_map().contains_key(
            idx.surfaces()[k][i],
        )
}

/// How often `k` occurs in `keys`.
pub open spec fn key_count(keys: Seq<Seq<char>>, k: Seq<char>) -> nat
    decreases keys.len(),
{
    if keys.len() == 0 {
        0
    } else {
        key_count(keys.drop_last(), k) + if keys.last() == k {
            1nat
        } else {
            0nat
        }
    }
}

/// The list under `k`, empty when there is none.
pub open spec fn list_of(m: Map<Seq<char>, Seq<i64>>, k: Seq<char>) -> Seq<i64> {
    if m.contains_key(k) {
        m[k]
    } else {
        seq![]
    }
}

pub(crate) proof fn lemma_add_keys_list(m: Map<Seq<char>, Seq<i64>>, keys: Seq<Seq<char>>, seq: i64, k: Seq<char>)
    ensures
        add_keys(m, keys, seq).contains_key(k) <==> (m.contains_key(k) || key_count(keys, k) > 0),
        list_of(add_keys(m, keys, seq), k) == list_of(m, k) + Seq::new(key_count(keys, k), |i: int| seq),
    decreases keys.len(),
{
    if keys.len() == 0 {
        assert(list_of(m, k) + Seq::new(0, |i: int| seq) =~= list_of(m, k));
    } else {
        lemma_add_keys_list(m, keys.drop_last(), seq, k);
        let n0 = key_count(keys.drop_last(), k);
        if keys.last() == k {
            assert(list_of(m, k) + Seq::new(n0 + 1, |i: int| seq) =~= (list_of(m, k) + Seq::new(
                n0,
                |i: int| seq,
            )).push(seq));
        }
    }
}

proof fn lemma_resolve_concat(a: Seq<i64>, b: Seq<i64>, entries: Map<i64, JmdictEntry>)
    ensures
        resolve(a + b, entries) == resolve(a, entries) + resolve(b, entries),
    decreases b.len(),
{
    if b.len() == 0 {
        assert(a + b =~= a);
        assert(resolve(a, entries) + resolve(b, entries) =~= resolve(a, entries));
    } else {
        assert((a + b).drop_last() =~= a + b.drop_last());
        assert((a + b).last() == b.last());
        lemma_resolve_concat(a, b.drop_last(), entries);
        if entries.contains_key(b.last()) {
            assert(resolve(a, entries) + resolve(b.drop_last(), entries).push(entries[b.last()])
                =~= (resolve(a, entries) + resolve(b.drop_last(), entries)).push(entries[b.last()]));
        }
    }
}

proof fn lemma_resolve_new_number(l: Seq<i64>, entries: Map<i64, JmdictEntry>, e: JmdictEntry)
    requires
        forall|i: int| 0 <= i < l.len() ==> entries.contains_key(#[trigger] l[i]),
        !entries.contains_key(e.seq),
    ensures
        resolve(l, entries.insert(e.seq, e)) == resolve(l, entries),
    decreases l.len(),
{
    if l.len() > 0 {
        assert(entries.contains_key(l[l.len() - 1]));
        lemma_resolve_new_number(l.drop_last(), entries, e);
    }
}

proof fn lemma_resolve_repeat(n: nat, entries: Map<i64, JmdictEntry>, e: JmdictEntry)
    requires
        entries.contains_key(e.seq),
        entries[e.seq] == e,
    ensures
        resolve(Seq::new(n, |i: int| e.seq), entries) == Seq::new(n, |i: int| e),
    decreases n,
{
    if n > 0 {
        let l = Seq::new(n, |i: int| e.seq);
        assert(l.drop_last() =~= Seq::new((n - 1) as nat, |i: int| e.seq));
        lemma_resolve_repeat((n - 1) as nat, entries, e);
        assert(Seq::new(n, |i: int| e) =~= Seq::new((n - 1) as nat, |i: int| e).push(e));
    }
}

/// Looking a surface up lists entries in the order they were inserted:
/// after inserting an entry under a new number, the lookup of any
/// surface is what it was, followed by the new entry once for each time
/// the surface occurs among its kanji and readings.
pub proof fn lookup_after_insert_appends(
    before: JmdictIndex,
    after: JmdictIndex,
    e: JmdictEntry,
    k: Seq<char>,
)
    requires
        listed_have_entries(before),
        !before.entry_map().contains_key(e.seq),
        after.surfaces() == add_keys(
            add_keys(before.surfaces(), strs_view(e.kanji@), e.seq),
            strs_view(e.readings@),
            e.seq,
        ),
        after.entry_map() == before.entry_map().insert(e.seq, e),
    ensures
        after.lookup_spec(k) == before.lookup_spec(k) + Seq::new(
            key_count(strs_view(e.kanji@), k) + key_count(strs_view(e.readings@), k),
            |i: int| e,
        ),
{
    lemma_lookup_in_insert(before.surfaces(), before.entry_map(), e, k);
}


/// Inserting keeps every listed number backed by an entry.
pub proof fn insert_keeps_listed_entries(before: JmdictIndex, after: JmdictIndex, e: JmdictEntry)
    requires
        listed_have_entries(before),
        after.surfaces() == add_keys(
            add_keys(before.surfaces(), strs_view(e.kanji@), e.seq),
            strs_view(e.readings@),
            e.seq,
        ),
        after.entry_map() == before.entry_map().insert(e.seq, e),
    ensures
        listed_have_entries(after),
{
    let m0 = before.surfaces();
    let m1 = add_keys(m0, strs_view(e.kanji@), e.seq);
    assert forall|k: Seq<char>, i: int|
        after.surfaces().contains_key(k) && 0 <= i < after.surfaces()[k].len() implies after.entry_map().contains_key(
        #[trigger] after.surfaces()[k][i],
    ) by {
        lemma_add_keys_list(m0, strs_view(e.kanji@), e.seq, k);
        lemma_add_keys_list(m1, strs_view(e.readings@), e.seq, k);
        let l0 = list_of(m0, k);
        let n = key_count(strs_view(e.kanji@), k) + key_count(strs_view(e.readings@), k);
        assert(list_of(after.surfaces(), k) =~= l0 + Seq::new(n, |j: int| e.seq));
        if i < l0.len() {
            assert(before.surfaces()[k][i] == l0[i]);
        }
    }
}


/// What a lookup of `k` gives over surface lists `m` and entries `ents`.
pub open spec fn lookup_in(m: Map<Seq<char>, Seq<i64>>, ents: Map<i64, JmdictEntry>, k: Seq<char>) -> Seq<JmdictEntry> {
    if m.contains_key(k) {
        resolve(m[k], ents)
    } else {
        seq![]
    }
}

/// Every number listed in `m` has an entry in `ents`.
pub open spec fn listed_in(m: Map<Seq<char>, Seq<i64>>, ents: Map<i64, JmdictEntry>) -> bool {
    forall|k: Seq<char>, i: int|
        #![trigger m[k][i]]
        m.contains_key(k) && 0 <= i < m[k].len() ==> ents.contains_key(m[k][i])
}

proof fn lemma_lookup_in_insert(
    m0: Map<Seq<char>, Seq<i64>>,
    ents0: Map<i64, JmdictEntry>,
    e: JmdictEntry,
    k: Seq<char>,
)
    requires
        listed_in(m0, ents0),
        !ents0.contains_key(e.seq),
    ensures
        lookup_in(
            add_keys(add_keys(m0, strs_view(e.kanji@), e.seq), strs_view(e.readings@), e.seq),
            ents0.insert(e.seq, e),
            k,
        ) == lookup_in(m0, ents0, k) + Seq::new(
            key_count(strs_view(e.kanji@), k) + key_count(strs_view(e.readings@), k),
            |i: int| e,
        ),
        listed_in(
            add_keys(add_keys(m0, strs_view(e.kanji@), e.seq), strs_view(e.readings@), e.seq),
            ents0.insert(e.seq, e),
        ),
{
    let m1 = add_keys(m0, strs_view(e.kanji@), e.seq);
    let m2 = add_keys(m1, strs_view(e.readings@), e.seq);
    let ents = ents0.insert(e.seq, e);
    let nk = key_count(strs_view(e.kanji@), k);
    let nr = key_count(strs_view(e.readings@), k);
    lemma_add_keys_list(m0, strs_view(e.kanji@), e.seq, k);
    lemma_add_keys_list(m1, strs_view(e.readings@), e.seq, k);
    let l0 = list_of(m0, k);
    let rep = Seq::new(nk + nr, |i: int| e.seq);
    assert(list_of(m2, k) =~= l0 + rep);
    assert forall|i: int| 0 <= i < l0.len() implies ents0.contains_key(#[trigger] l0[i]) by {
        assert(m0[k][i] == l0[i]);
    }
    lemma_resolve_new_number(l0, ents0, e);
    lemma_resolve_concat(l0, rep, ents);
    lemma_resolve_repeat(nk + nr, ents, e);
    if !m2.contains_key(k) {
        assert(lookup_in(m0, ents0, k) + Seq::new(0, |i: int| e) =~= lookup_in(m0, ents0, k));
    } else if !m0.contains_key(k) {
        assert(l0 =~= seq![]);
        assert(resolve(l0, ents0) =~= seq![]);
        assert(Seq::<JmdictEntry>::empty() + Seq::new(nk + nr, |i: int| e) =~= Seq::new(nk + nr, |i: int| e));
    }
    assert forall|kk: Seq<char>, i: int| m2.contains_key(kk) && 0 <= i < m2[kk].len() implies ents.contains_key(
        #[trigger] m2[kk][i],
    ) by {
        lemma_add_keys_list(m0, strs_view(e.kanji@), e.seq, kk);
        lemma_add_keys_list(m1, strs_view(e.readings@), e.seq, kk);
        let l = list_of(m0, kk);
        let n = key_count(strs_view(e.kanji@), kk) + key_count(strs_view(e.readings@), kk);
        assert(list_of(m2, kk) =~= l + Seq::new(n, |j: int| e.seq));
        if i < l.len() {
            assert(m0[kk][i] == l[i]);
        }
    }
}

/// Surface lists after inserting `es` in order into a new index.
pub open spec fn surfaces_after(es: Seq<JmdictEntry>) -> Map<Seq<char>, Seq<i64>>
    decreases es.len(),
{
    if es.len() == 0 {
        Map::empty()
    } else {
        let e = es.last();
        add_keys(add_keys(surfaces_after(es.drop_last()), strs_view(e.kanji@), e.seq), strs_view(e.readings@), e.seq)
    }
}

/// Entries after inserting `es` in order into a new index.
pub open spec fn entries_after(es: Seq<JmdictEntry>) -> Map<i64, JmdictEntry>
    decreases es.len(),
{
    if es.len() == 0 {
        Map::empty()
    } else {
        entries_after(es.drop_last()).insert(es.last().seq, es.last())
    }
}

/// `e` lists `s` among its kanji or readings.
pub open spec fn lists_surface(e: JmdictEntry, s: Seq<char>) -> bool {
    strs_view(e.kanji@).contains(s) || strs_view(e.readings@).contains(s)
}

/// Whether an entry lists `s`, as a predicate.
pub open spec fn listing(s: Seq<char>) -> spec_fn(JmdictEntry) -> bool {
    |e: JmdictEntry| lists_surface(e, s)
}

/// No surface occurs twice among the kanji and readings of `e`.
pub open spec fn surfaces_once(e: JmdictEntry) -> bool {
    forall|s: Seq<char>| key_count(strs_view(e.kanji@), s) + key_count(strs_view(e.readings@), s) <= 1
}

/// The entries of `es` carry pairwise distinct numbers.
pub open spec fn distinct_numbers(es: Seq<JmdictEntry>) -> bool {
    forall|i: int, j: int| 0 <= i < j < es.len() ==> (#[trigger] es[i]).seq != (#[trigger] es[j]).seq
}

pub(crate) proof fn lemma_key_count_contains(keys: Seq<Seq<char>>, k: Seq<char>)
    ensures
        key_count(keys, k) > 0 <==> keys.contains(k),
    decreases keys.len(),
{
    if keys.len() > 0 {
        lemma_key_count_contains(keys.drop_last(), k);
        if keys.drop_last().contains(k) {
            let i = choose|i: int| 0 <= i < keys.drop_last().len() && keys.drop_last()[i] == k;
            assert(keys[i] == k);
        }
        if keys.contains(k) && keys.last() != k {
            let i = choose|i: int| 0 <= i < keys.len() && keys[i] == k;
            assert(keys.drop_last()[i] == k);
        }
    }
}

proof fn lemma_entries_after_dom(es: Seq<JmdictEntry>)
    ensures
        entries_after(es).dom() =~= es.map_values(|e: JmdictEntry| e.seq).to_set(),
        forall|i: int|
            0 <= i < es.len() && (forall|j: int| i < j < es.len() ==> (#[trigger] es[j]).seq != es[i].seq)
                ==> entries_after(es)[(#[trigger] es[i]).seq] == es[i],
    decreases es.len(),
{
    if es.len() > 0 {
        let init = es.drop_last();
        lemma_entries_after_dom(init);
        let sq = es.map_values(|e: JmdictEntry| e.seq);
        let sq0 = init.map_values(|e: JmdictEntry| e.seq);
        assert(sq =~= sq0.push(es.last().seq));
        assert forall|x: i64| sq.to_set().contains(x) <==> entries_after(es).dom().contains(x) by {
            if sq.contains(x) && x != es.last().seq {
                let i = choose|i: int| 0 <= i < sq.len() && sq[i] == x;
                assert(sq0[i] == x);
            }
            if sq0.contains(x) {
                let i = choose|i: int| 0 <= i < sq0.len() && sq0[i] == x;
                assert(sq[i] == x);
            }
            if x == es.last().seq {
                assert(sq[sq.len() - 1] == x);
            }
        }
        assert forall|i: int|
            0 <= i < es.len() && (forall|j: int| i < j < es.len() ==> (#[trigger] es[j]).seq != es[i].seq)
                implies entries_after(es)[(#[trigger] es[i]).seq] == es[i] by {
            if i < init.len() {
                assert(init[i] == es[i]);
                assert(es[es.len() - 1].seq != es[i].seq);
                assert forall|j: int| i < j < init.len() implies (#[trigger] init[j]).seq != init[i].seq by {
                    assert(init[j] == es[j]);
                }
            }
        }
    }
}

proof fn lemma_lookup_after_inserts(es: Seq<JmdictEntry>, s: Seq<char>)
    requires
        distinct_numbers(es),
        forall|i: int| 0 <= i < es.len() ==> surfaces_once(#[trigger] es[i]),
    ensures
        listed_in(surfaces_after(es), entries_after(es)),
        lookup_in(surfaces_after(es), entries_after(es), s) == es.filter(listing(s)),
    decreases es.len(),
{
    if es.len() == 0 {
        reveal(Seq::filter);
        assert(lookup_in(surfaces_after(es), entries_after(es), s) =~= Seq::<JmdictEntry>::empty());
    } else {
        let init = es.drop_last();
        let e = es.last();
        assert forall|i: int, j: int| 0 <= i < j < init.len() implies (#[trigger] init[i]).seq != (#[trigger] init[j]).seq by {
            assert(init[i] == es[i] && init[j] == es[j]);
        }
        assert forall|i: int| 0 <= i < init.len() implies surfaces_once(#[trigger] init[i]) by {
            assert(init[i] == es[i]);
        }
        lemma_lookup_after_inserts(init, s);
        lemma_entries_after_dom(init);
        if entries_after(init).contains_key(e.seq) {
            let sq0 = init.map_values(|x: JmdictEntry| x.seq);
            assert(sq0.to_set().contains(e.seq));
            let i = choose|i: int| 0 <= i < sq0.len() && sq0[i] == e.seq;
            assert(es[i] == init[i]);
            assert(es[i].seq != es[es.len() - 1].seq);
        }
        lemma_lookup_in_insert(surfaces_after(init), entries_after(init), e, s);
        lemma_key_count_contains(strs_view(e.kanji@), s);
        lemma_key_count_contains(strs_view(e.readings@), s);
        assert(surfaces_once(es[es.len() - 1]));
        let n = key_count(strs_view(e.kanji@), s) + key_count(strs_view(e.readings@), s);
        reveal(Seq::filter);
        let f0 = init.filter(listing(s));
        assert(init =~= es.drop_last());
        if lists_surface(e, s) {
            assert(listing(s)(e));
            assert(es.filter(listing(s)) == f0.push(e));
            assert(n == 1);
            assert(Seq::new(n, |i: int| e) =~= seq![e]);
            assert(f0 + seq![e] =~= f0.push(e));
        } else {
            assert(!listing(s)(e));
            assert(es.filter(listing(s)) == f0);
            assert(n == 0);
            assert(f0 + Seq::new(n, |i: int| e) =~= f0);
        }
    }
}

/// Looking a surface up after inserting `es` into a new index, with
/// distinct numbers and no surface twice within one entry, gives the
/// entries that list the surface, each once, in insertion order (and
/// nothing when none does).
pub proof fn lookup_after_inserts(idx: JmdictIndex, es: Seq<JmdictEntry>, s: Seq<char>)
    requires
        idx.surfaces() == surfaces_after(es),
        idx.entry_map() == entries_after(es),
        distinct_numbers(es),
        forall|i: int| 0 <= i < es.len() ==> surfaces_once(#[trigger] es[i]),
    ensures
        idx.lookup_spec(s) == es.filter(listing(s)),
{
    lemma_lookup_after_inserts(es, s);
}

/// After inserting `es` into a new index, the stored numbers are the
/// distinct numbers of `es` (a repeated number replaces its entry), so
/// `len` counts them and the index is empty exactly when nothing was
/// inserted; each number holds the last entry inserted under it.
pub proof fn len_after_inserts(idx: JmdictIndex, es: Seq<JmdictEntry>)
    requires
        idx.entry_map() == entries_after(es),
    ensures
        idx.entry_map().dom() == es.map_values(|e: JmdictEntry| e.seq).to_set(),
        idx.entry_map().len() == es.map_values(|e: JmdictEntry| e.seq).to_set().len(),
        (idx.entry_map().len() == 0) <==> (es.len() == 0),
        forall|i: int|
            0 <= i < es.len() && (forall|j: int| i < j < es.len() ==> (#[trigger] es[j]).seq != es[i].seq)
                ==> idx.entry_map()[(#[trigger] es[i]).seq] == es[i],
{
    broadcast use vstd::seq_lib::seq_to_set_is_finite;

    lemma_entries_after_dom(es);
    let set = es.map_values(|e: JmdictEntry| e.seq).to_set();
    if es.len() > 0 {
        assert(es.map_values(|e: JmdictEntry| e.seq)[0] == es[0].seq);
        assert(set.contains(es[0].seq));
        vstd::set::axiom_set_contains_len(set, es[0].seq);
    } else {
        assert(set =~= Set::<i64>::empty());
    }
}


pub(crate) proof fn lemma_resolve_has(l: Seq<i64>, ents: Map<i64, JmdictEntry>, x: i64)
    requires
        l.contains(x),
        ents.contains_key(x),
    ensures
        resolve(l, ents).contains(ents[x]),
    decreases l.len(),
{
    if l.last() == x {
        assert(resolve(l, ents).last() == ents[x]);
    } else {
        let i = choose|i: int| 0 <= i < l.len() && l[i] == x;
        assert(l.drop_last()[i] == x);
        lemma_resolve_has(l.drop_last(), ents, x);
        let r0 = resolve(l.drop_last(), ents);
        let j = choose|j: int| 0 <= j < r0.len() && r0[j] == ents[x];
        if ents.contains_key(l.last()) {
            assert(resolve(l, ents)[j] == r0[j]);
        }
    }
}

} // verus!
