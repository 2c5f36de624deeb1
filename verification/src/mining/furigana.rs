//! Align a kanji-bearing lemma against its kana reading and emit a
//! `[{base, reading}]` array suitable for the Hibi card payload.
//!
//! Strategy: split the word into runs of (kanji-only) vs (kana-only).
//! The kana runs are matched against the reading from both ends: a
//! trailing kana run is matched at the end of the reading, the others
//! consume their own kana from the front; everything in between belongs
//! to the kanji runs, each of which takes the reading up to where the
//! next kana run matches. Non-kanji-bearing words emit a single pair
//! with empty reading.

use vstd::prelude::*;

use crate::hibi::model::FuriganaPair;
use crate::text::{
    char_from_u32, chars_of, ends_with, ends_with_exec, find_from, find_from_exec,
    lemma_find_from_bounds, match_at, slice_vec, string_of, sub_string,
};

verus! {

/// A `{base, reading}` pair as plain values.
pub type Pair = (Seq<char>, Seq<char>);

pub open spec fn pair_view(p: FuriganaPair) -> Pair {
    (p.base@, p.reading@)
}

pub open spec fn pairs_view(v: Seq<FuriganaPair>) -> Seq<Pair> {
    Seq::new(v.len(), |i: int| pair_view(v[i]))
}

// ------------------------------------------------------------ the model

/// CJK unified ideographs (basic block, extension A, extension B).
pub open spec fn is_kanji(c: char) -> bool {
    ||| (0x4E00 <= (c as int) && (c as int) <= 0x9FFF)
    ||| (0x3400 <= (c as int) && (c as int) <= 0x4DBF)
    ||| (0x20000 <= (c as int) && (c as int) <= 0x2A6DF)
}

pub open spec fn has_kanji(s: Seq<char>) -> bool {
    exists|i: int| 0 <= i < s.len() && is_kanji(#[trigger] s[i])
}

/// Katakana letters (U+30A1..=U+30F6) shifted to their hiragana.
pub open spec fn hira_char(c: char) -> char {
    if 0x30A1 <= (c as int) && (c as int) <= 0x30F6 {
        ((c as int) - 0x60) as char
    } else {
        c
    }
}

pub open spec fn to_hiragana(s: Seq<char>) -> Seq<char> {
    s.map_values(|c: char| hira_char(c))
}

/// End of the run of same-kind (kanji / not kanji) characters that
/// contains position `j`, searching from `j`.
pub open spec fn run_end(s: Seq<char>, kanji: bool, j: int) -> int
    decreases s.len() - j,
{
    if j < 0 || j >= s.len() || is_kanji(s[j]) != kanji {
        j
    } else {
        run_end(s, kanji, j + 1)
    }
}

/// Maximal runs of `s[i..]`, each with whether it is kanji.
pub open spec fn runs_from(s: Seq<char>, i: int) -> Seq<(Seq<char>, bool)>
    decreases s.len() - i,
{
    if i < 0 || i >= s.len() {
        seq![]
    } else {
        let k = is_kanji(s[i]);
        let j = run_end(s, k, i + 1);
        proof {
            lemma_run_end(s, k, i + 1);
        }
        seq![(s.subrange(i, j), k)] + runs_from(s, j)
    }
}

pub open spec fn runs(s: Seq<char>) -> Seq<(Seq<char>, bool)> {
    runs_from(s, 0)
}

/// Hiragana of the first kana run after run `i`.
pub open spec fn next_kana(rs: Seq<(Seq<char>, bool)>, i: int) -> Option<Seq<char>>
    decreases rs.len() - i,
{
    if i + 1 < 0 || i + 1 >= rs.len() {
        None
    } else if !rs[i + 1].1 {
        Some(to_hiragana(rs[i + 1].0))
    } else {
        next_kana(rs, i + 1)
    }
}

/// Pairs for runs `i..` with `rd[r..]` still to be assigned. When
/// `tail` holds, the last run is a kana run already matched at the end
/// of the reading and `rd` is the reading without it, so the kanji run
/// before it takes all of `rd[r..]`.
pub open spec fn walk(rs: Seq<(Seq<char>, bool)>, i: int, rd: Seq<char>, r: int, tail: bool) -> Seq<Pair>
    decreases rs.len() - i,
{
    if i < 0 || i >= rs.len() {
        seq![]
    } else if !rs[i].1 {
        let w = to_hiragana(rs[i].0);
        let r2 = if match_at(rd, w, r) {
            r + w.len()
        } else {
            r
        };
        seq![(rs[i].0, seq![])] + walk(rs, i + 1, rd, r2, tail)
    } else {
        let end = if tail && i + 2 == rs.len() {
            rd.len() as int
        } else {
            match next_kana(rs, i) {
                Some(w) => match find_from(rd, w, r) {
                    Some(j) => j,
                    None => rd.len() as int,
                },
                None => rd.len() as int,
            }
        };
        seq![(rs[i].0, rd.subrange(r, end))] + walk(rs, i + 1, rd, end, tail)
    }
}

/// Whether the last run is kana that ends the reading `rh`.
pub open spec fn tail_matches(rs: Seq<(Seq<char>, bool)>, rh: Seq<char>) -> bool {
    rs.len() > 0 && !rs.last().1 && ends_with(rh, to_hiragana(rs.last().0))
}

/// What `build(lemma, reading)` returns.
pub open spec fn furigana(lemma: Seq<char>, reading: Seq<char>) -> Seq<Pair> {
    if !has_kanji(lemma) {
        seq![(lemma, seq![])]
    } else {
        let rh = to_hiragana(reading);
        let rs = runs(lemma);
        if rs.len() == 0 || (rs.len() == 1 && rs[0].1) {
            seq![(lemma, rh)]
        } else if tail_matches(rs, rh) {
            walk(rs, 0, rh.take(rh.len() - rs.last().0.len()), 0, true)
        } else {
            walk(rs, 0, rh, 0, false)
        }
    }
}

pub proof fn lemma_run_end(s: Seq<char>, kanji: bool, j: int)
    requires
        0 <= j <= s.len(),
    ensures
        j <= run_end(s, kanji, j) <= s.len(),
        forall|t: int| j <= t < run_end(s, kanji, j) ==> is_kanji(#[trigger] s[t]) == kanji,
        run_end(s, kanji, j) < s.len() ==> is_kanji(s[run_end(s, kanji, j)]) != kanji,
    decreases s.len() - j,
{
    if j < s.len() && is_kanji(s[j]) == kanji {
        lemma_run_end(s, kanji, j + 1);
    }
}

// ----------------------------------------------------------- exec parts

pub fn is_kanji_exec(c: char) -> (r: bool)
    ensures
        r == is_kanji(c),
{
    let u = c as u32;
    (0x4E00 <= u && u <= 0x9FFF) || (0x3400 <= u && u <= 0x4DBF) || (0x20000 <= u && u
        <= 0x2A6DF)
}

pub fn has_kanji_exec(s: &[char]) -> (r: bool)
    ensures
        r == has_kanji(s@),
{
    let mut i: usize = 0;
    while i < s.len()
        invariant
            i <= s@.len(),
            forall|t: int| 0 <= t < i ==> !is_kanji(#[trigger] s@[t]),
        decreases s@.len() - i,
    {
        if is_kanji_exec(s[i]) {
            return true;
        }
        i = i + 1;
    }
    false
}

fn hira_char_exec(c: char) -> (r: char)
    ensures
        r == hira_char(c),
{
    let u = c as u32;
    if 0x30A1 <= u && u <= 0x30F6 {
        match char_from_u32(u - 0x60) {
            Some(h) => h,
            None => c,
        }
    } else {
        c
    }
}

pub fn to_hiragana_exec(s: &[char]) -> (r: Vec<char>)
    ensures
        r@ == to_hiragana(s@),
{
    let mut out: Vec<char> = Vec::new();
    let mut i: usize = 0;
    while i < s.len()
        invariant
            i <= s@.len(),
            out@ == to_hiragana(s@.take(i as int)),
        decreases s@.len() - i,
    {
        out.push(hira_char_exec(s[i]));
        i = i + 1;
        assert(out@ =~= to_hiragana(s@.take(i as int)));
    }
    assert(s@.take(s@.len() as int) =~= s@);
    out
}

/// A run at run time: its characters and whether they are kanji.
type RunExec = (Vec<char>, bool);

pub open spec fn runs_view(v: Seq<RunExec>) -> Seq<(Seq<char>, bool)> {
    Seq::new(v.len(), |i: int| (v[i].0@, v[i].1))
}

fn split_runs(s: &[char]) -> (r: Vec<RunExec>)
    ensures
        runs_view(r@) == runs(s@),
{
    let n = s.len();
    let mut out: Vec<RunExec> = Vec::new();
    let mut i: usize = 0;
    assert(runs_view(out@) + runs_from(s@, 0) =~= runs(s@));
    while i < n
        invariant
            n == s@.len(),
            i <= n,
            runs_view(out@) + runs_from(s@, i as int) == runs(s@),
        decreases n - i,
    {
        let k = is_kanji_exec(s[i]);
        let mut j = i + 1;
        proof {
            lemma_run_end(s@, k, i + 1);
        }
        while j < n && is_kanji_exec(s[j]) == k
            invariant
                n == s@.len(),
                i < j <= n,
                run_end(s@, k, i + 1) == run_end(s@, k, j as int),
            decreases n - j,
        {
            j = j + 1;
        }
        let ghost before = out@;
        out.push((slice_vec(s, i, j), k));
        assert(runs_view(out@) =~= runs_view(before).push((s@.subrange(i as int, j as int), k)));
        i = j;
    }
    assert(runs_view(out@) + seq![] =~= runs_view(out@));
    out
}

fn next_kana_exec(rs: &Vec<RunExec>, i: usize) -> (r: Option<Vec<char>>)
    ensures
        match r {
            Some(w) => next_kana(runs_view(rs@), i as int) == Some(w@),
            None => next_kana(runs_view(rs@), i as int) is None,
        },
{
    let mut j = i;
    let n = rs.len();
    while j < n && j + 1 < n
        invariant
            n == rs@.len(),
            i <= j,
            next_kana(runs_view(rs@), i as int) == next_kana(runs_view(rs@), j as int),
        decreases rs@.len() - j,
    {
        if !rs[j + 1].1 {
            return Some(to_hiragana_exec(rs[j + 1].0.as_slice()));
        }
        j = j + 1;
    }
    None
}

/// Build furigana pairs for `lemma` aligned to `reading` (hiragana or
/// katakana; katakana is folded to hiragana before matching).
pub fn build(lemma: &str, reading: &str) -> (r: Vec<FuriganaPair>)
    ensures
        pairs_view(r@) == furigana(lemma@, reading@),
{
    let lem = chars_of(lemma);
    if !has_kanji_exec(lem.as_slice()) {
        let mut out = Vec::new();
        out.push(FuriganaPair { base: string_of(lem.as_slice()), reading: String::new() });
        assert(pairs_view(out@) =~= seq![(lemma@, Seq::<char>::empty())]);
        return out;
    }
    let rd_raw = chars_of(reading);
    let rd = to_hiragana_exec(rd_raw.as_slice());
    let rs = split_runs(lem.as_slice());
    if rs.len() == 0 || (rs.len() == 1 && rs[0].1) {
        let mut out = Vec::new();
        out.push(FuriganaPair { base: string_of(lem.as_slice()), reading: string_of(rd.as_slice()) });
        assert(pairs_view(out@) =~= seq![(lemma@, rd@)]);
        return out;
    }
    let last = rs.len() - 1;
    let last_hira = to_hiragana_exec(rs[last].0.as_slice());
    let tail = !rs[last].1 && ends_with_exec(rd.as_slice(), last_hira.as_slice());
    let ghost vrs = runs_view(rs@);
    let main = if tail {
        slice_vec(rd.as_slice(), 0, rd.len() - last_hira.len())
    } else {
        slice_vec(rd.as_slice(), 0, rd.len())
    };
    proof {
        assert(vrs.last() == (rs@[last as int].0@, rs@[last as int].1));
        assert(tail == tail_matches(vrs, rd@));
        if !tail {
            assert(main@ =~= rd@);
        } else {
            assert(main@ =~= rd@.take(rd@.len() - vrs.last().0.len()));
        }
    }
    let rn = main.len();
    let mut out: Vec<FuriganaPair> = Vec::new();
    let mut r: usize = 0;
    let mut i: usize = 0;
    assert(pairs_view(out@) + walk(vrs, 0, main@, 0, tail) =~= walk(vrs, 0, main@, 0, tail));
    while i < rs.len()
        invariant
            rn == main@.len(),
            r <= rn,
            i <= rs@.len(),
            last + 1 == rs@.len(),
            vrs == runs_view(rs@),
            pairs_view(out@) + walk(vrs, i as int, main@, r as int, tail) == walk(
                vrs,
                0,
                main@,
                0,
                tail,
            ),
        decreases rs@.len() - i,
    {
        let ghost before = pairs_view(out@);
        let text = &rs[i].0;
        if !rs[i].1 {
            let w = to_hiragana_exec(text.as_slice());
            if crate::text::match_at_exec(main.as_slice(), w.as_slice(), r) {
                r = r + w.len();
            }
            out.push(FuriganaPair { base: string_of(text.as_slice()), reading: String::new() });
            assert(pairs_view(out@) =~= before.push((text@, Seq::<char>::empty())));
        } else {
            let end = if tail && i + 1 == last {
                rn
            } else {
                match next_kana_exec(&rs, i) {
                    Some(w) => match find_from_exec(main.as_slice(), w.as_slice(), r) {
                        Some(j) => {
                            proof {
                                lemma_find_from_bounds(main@, w@, r as int);
                            }
                            j
                        },
                        None => rn,
                    },
                    None => rn,
                }
            };
            out.push(FuriganaPair { base: string_of(text.as_slice()), reading: sub_string(main.as_slice(), r, end) });
            assert(pairs_view(out@) =~= before.push((text@, main@.subrange(r as int, end as int))));
            r = end;
        }
        i = i + 1;
    }
    assert(pairs_view(out@) + seq![] =~= pairs_view(out@));
    out
}


// ----------------------------------------------------------------- laws

/// The bases of `ps`, concatenated.
pub open spec fn bases(ps: Seq<Pair>) -> Seq<char>
    decreases ps.len(),
{
    if ps.len() == 0 {
        seq![]
    } else {
        ps[0].0 + bases(ps.drop_first())
    }
}

pub open spec fn run_texts(rs: Seq<(Seq<char>, bool)>) -> Seq<char>
    decreases rs.len(),
{
    if rs.len() == 0 {
        seq![]
    } else {
        rs[0].0 + run_texts(rs.drop_first())
    }
}

proof fn lemma_runs_concat(s: Seq<char>, i: int)
    requires
        0 <= i <= s.len(),
    ensures
        run_texts(runs_from(s, i)) == s.skip(i),
    decreases s.len() - i,
{
    if i < s.len() {
        let k = is_kanji(s[i]);
        let j = run_end(s, k, i + 1);
        lemma_run_end(s, k, i + 1);
        lemma_runs_concat(s, j);
        let rs = runs_from(s, i);
        assert(rs.drop_first() =~= runs_from(s, j));
        assert(s.subrange(i, j) + s.skip(j) =~= s.skip(i));
    } else {
        assert(s.skip(i) =~= seq![]);
    }
}

proof fn lemma_walk_bases(rs: Seq<(Seq<char>, bool)>, i: int, rd: Seq<char>, r: int, tail: bool)
    requires
        0 <= i <= rs.len(),
    ensures
        bases(walk(rs, i, rd, r, tail)) == run_texts(rs.skip(i)),
    decreases rs.len() - i,
{
    if i < rs.len() {
        let w = walk(rs, i, rd, r, tail);
        assert(rs.skip(i).drop_first() =~= rs.skip(i + 1));
        if !rs[i].1 {
            let wt = to_hiragana(rs[i].0);
            let r2 = if match_at(rd, wt, r) {
                r + wt.len()
            } else {
                r
            };
            lemma_walk_bases(rs, i + 1, rd, r2, tail);
            assert(w.drop_first() =~= walk(rs, i + 1, rd, r2, tail));
        } else {
            let end = if tail && i + 2 == rs.len() {
                rd.len() as int
            } else {
                match next_kana(rs, i) {
                    Some(wt) => match find_from(rd, wt, r) {
                        Some(j) => j,
                        None => rd.len() as int,
                    },
                    None => rd.len() as int,
                }
            };
            lemma_walk_bases(rs, i + 1, rd, end, tail);
            assert(w.drop_first() =~= walk(rs, i + 1, rd, end, tail));
        }
    } else {
        assert(rs.skip(i) =~= seq![]);
    }
}

/// The bases of the pairs `build` returns spell the lemma out again.
pub proof fn furigana_bases_spell_lemma(lemma: Seq<char>, reading: Seq<char>)
    ensures
        bases(furigana(lemma, reading)) == lemma,
{
    let f = furigana(lemma, reading);
    if !has_kanji(lemma) {
        assert(f.drop_first() =~= seq![]);
        assert(bases(f.drop_first()) =~= seq![]);
        assert(lemma + seq![] =~= lemma);
    } else {
        let rs = runs(lemma);
        if rs.len() == 0 || (rs.len() == 1 && rs[0].1) {
            assert(f.drop_first() =~= seq![]);
            assert(bases(f.drop_first()) =~= seq![]);
            assert(lemma + seq![] =~= lemma);
        } else {
            let rh = to_hiragana(reading);
            lemma_walk_bases(rs, 0, rh.take(rh.len() - rs.last().0.len()), 0, true);
            lemma_walk_bases(rs, 0, rh, 0, false);
            lemma_runs_concat(lemma, 0);
            assert(rs.skip(0) =~= rs);
            assert(lemma.skip(0) =~= lemma);
        }
    }
}


pub open spec fn all_kanji(s: Seq<char>) -> bool {
    forall|t: int| 0 <= t < s.len() ==> is_kanji(#[trigger] s[t])
}

proof fn lemma_runs_kind(s: Seq<char>, i: int)
    requires
        0 <= i <= s.len(),
    ensures
        forall|k: int|
            0 <= k < runs_from(s, i).len() ==> (#[trigger] runs_from(s, i)[k]).0.len() > 0 && (
            forall|t: int|
                0 <= t < runs_from(s, i)[k].0.len() ==> is_kanji(#[trigger] runs_from(s, i)[k].0[t])
                    == runs_from(s, i)[k].1),
        forall|k: int|
            0 <= k < runs_from(s, i).len() - 1 ==> (#[trigger] runs_from(s, i)[k]).1 != runs_from(
                s,
                i,
            )[k + 1].1,
    decreases s.len() - i,
{
    if i < s.len() {
        let kk = is_kanji(s[i]);
        let j = run_end(s, kk, i + 1);
        lemma_run_end(s, kk, i + 1);
        lemma_runs_kind(s, j);
        let rs = runs_from(s, i);
        let rest = runs_from(s, j);
        assert(rs =~= seq![(s.subrange(i, j), kk)] + rest);
        assert forall|k: int| 0 <= k < rs.len() implies (#[trigger] rs[k]).0.len() > 0 && (forall|
            t: int,
        | 0 <= t < rs[k].0.len() ==> is_kanji(#[trigger] rs[k].0[t]) == rs[k].1) by {
            if k > 0 {
                assert(rs[k] == rest[k - 1]);
            }
        }
        assert forall|k: int| 0 <= k < rs.len() - 1 implies (#[trigger] rs[k]).1 != rs[k + 1].1 by {
            if k > 0 {
                assert(rs[k] == rest[k - 1]);
                assert(rs[k + 1] == rest[k]);
            } else {
                assert(rs[1] == rest[0]);
                assert(j < s.len());
                assert(rest[0].1 == is_kanji(s[j]));
            }
        }
    }
}

proof fn lemma_walk_shape(rs: Seq<(Seq<char>, bool)>, i: int, rd: Seq<char>, r: int, tail: bool)
    requires
        0 <= i <= rs.len(),
    ensures
        walk(rs, i, rd, r, tail).len() == rs.len() - i,
        forall|k: int|
            0 <= k < rs.len() - i ==> (#[trigger] walk(rs, i, rd, r, tail)[k]).0 == rs[i + k].0 && (
            !rs[i + k].1 ==> walk(rs, i, rd, r, tail)[k].1 == Seq::<char>::empty()),
    decreases rs.len() - i,
{
    if i < rs.len() {
        let w = walk(rs, i, rd, r, tail);
        if !rs[i].1 {
            let wt = to_hiragana(rs[i].0);
            let r2 = if match_at(rd, wt, r) {
                r + wt.len()
            } else {
                r
            };
            lemma_walk_shape(rs, i + 1, rd, r2, tail);
            let rest = walk(rs, i + 1, rd, r2, tail);
            assert forall|k: int| 0 <= k < rs.len() - i implies (#[trigger] w[k]).0 == rs[i + k].0
                && (!rs[i + k].1 ==> w[k].1 == Seq::<char>::empty()) by {
                if k > 0 {
                    assert(w[k] == rest[k - 1]);
                }
            }
        } else {
            let end = if tail && i + 2 == rs.len() {
                rd.len() as int
            } else {
                match next_kana(rs, i) {
                    Some(wt) => match find_from(rd, wt, r) {
                        Some(j) => j,
                        None => rd.len() as int,
                    },
                    None => rd.len() as int,
                }
            };
            lemma_walk_shape(rs, i + 1, rd, end, tail);
            let rest = walk(rs, i + 1, rd, end, tail);
            assert forall|k: int| 0 <= k < rs.len() - i implies (#[trigger] w[k]).0 == rs[i + k].0
                && (!rs[i + k].1 ==> w[k].1 == Seq::<char>::empty()) by {
                if k > 0 {
                    assert(w[k] == rest[k - 1]);
                }
            }
        }
    }
}

/// The pairs `build` returns follow the runs of the lemma: a pair whose
/// base holds no kanji has an empty reading, and when the lemma holds a
/// kanji every base is a non-empty run that is all kanji or kanji-free,
/// the two kinds alternating from one pair to the next.
pub proof fn furigana_pairs_follow_runs(lemma: Seq<char>, reading: Seq<char>)
    ensures
        forall|k: int|
            0 <= k < furigana(lemma, reading).len() && !has_kanji(
                (#[trigger] furigana(lemma, reading)[k]).0,
            ) ==> furigana(lemma, reading)[k].1 == Seq::<char>::empty(),
        has_kanji(lemma) ==> forall|k: int|
            0 <= k < furigana(lemma, reading).len() ==> (#[trigger] furigana(lemma, reading)[k]).0.len()
                > 0 && (all_kanji(furigana(lemma, reading)[k].0) || !has_kanji(
                furigana(lemma, reading)[k].0,
            )),
        has_kanji(lemma) ==> forall|k: int|
            0 <= k < furigana(lemma, reading).len() - 1 ==> has_kanji(
                (#[trigger] furigana(lemma, reading)[k]).0,
            ) != has_kanji(furigana(lemma, reading)[k + 1].0),
{
    let f = furigana(lemma, reading);
    if has_kanji(lemma) {
        let rs = runs(lemma);
        let rh = to_hiragana(reading);
        lemma_runs_kind(lemma, 0);
        lemma_runs_concat(lemma, 0);
        assert(lemma.skip(0) =~= lemma);
        // a run's kind decides whether its text holds a kanji
        assert forall|k: int| 0 <= k < rs.len() implies (rs[k].1 ==> all_kanji(rs[k].0) && has_kanji(
            rs[k].0,
        )) && (!rs[k].1 ==> !has_kanji(rs[k].0)) by {
            let _ = rs[k];
            if rs[k].1 {
                assert(is_kanji(rs[k].0[0]));
            }
        }
        if rs.len() == 0 {
            assert(lemma.len() == 0);
        } else if rs.len() == 1 && rs[0].1 {
            assert(rs.drop_first() =~= seq![]);
            assert(run_texts(rs.drop_first()) =~= Seq::<char>::empty());
            assert(rs[0].0 + Seq::<char>::empty() =~= rs[0].0);
            assert(run_texts(rs) == rs[0].0);
            assert(f =~= seq![(lemma, rh)]);
        } else {
            let t = tail_matches(rs, rh);
            let rd = if t {
                rh.take(rh.len() - rs.last().0.len())
            } else {
                rh
            };
            lemma_walk_shape(rs, 0, rd, 0, t);
            assert(f == walk(rs, 0, rd, 0, t));
            assert forall|k: int| 0 <= k < f.len() implies (#[trigger] f[k]).0 == rs[k].0 by {
                assert(f[k].0 == rs[0 + k].0);
            }
            assert forall|k: int| 0 <= k < f.len() - 1 implies has_kanji((#[trigger] f[k]).0)
                != has_kanji(f[k + 1].0) by {
                let _ = rs[k];
                assert(f[k + 1].0 == rs[k + 1].0);
            }
        }
    } else {
        assert(f =~= seq![(lemma, Seq::<char>::empty())]);
    }
}

} // verus!
