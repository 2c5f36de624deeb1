//! Yomitan-style suffix-rule deinflector.
//!
//! The full rule table is large; we embed a subset tuned to the
//! morphology our subtitles actually need. Each rule defines a
//! transformation `suffix_in → suffix_out` and the JMDict POS-rule
//! tags it produces, plus the tags it requires from previous
//! deinflections (chained).

use vstd::prelude::*;

use crate::text::{chars_of, ends_with, eq_chars, ends_with_exec, slice_vec, string_of};

verus! {

/// One suffix rewrite.
#[derive(Debug, Clone)]
pub struct Rule {
    pub suffix_in: &'static str,
    pub suffix_out: &'static str,
    /// JMDict POS rule tags this rule produces (`v1`, `v5k`, `adj-i`, …).
    pub rules_out: &'static [&'static str],
    /// Tags that must be present in the input's rule set for this rule
    /// to apply. Empty means: applicable from any starting form.
    pub rules_in: &'static [&'static str],
}

/// A possible dictionary form of a surface, with the rule tags of the
/// rewrite that produced it (none for the surface itself). A tag occurs
/// at most once.
#[derive(Debug, Clone)]
pub struct Candidate {
    pub stem: String,
    pub rules_out: Vec<&'static str>,
}

/// A rule as plain values: suffix in, suffix out, tags produced.
pub type RuleView = (Seq<char>, Seq<char>, Seq<Seq<char>>);

/// A candidate as plain values: stem and tags.
pub type CandView = (Seq<char>, Seq<Seq<char>>);

pub open spec fn tags_view(t: Seq<&'static str>) -> Seq<Seq<char>> {
    Seq::new(t.len(), |i: int| t[i]@)
}

pub open spec fn rule_view(r: Rule) -> RuleView {
    (r.suffix_in@, r.suffix_out@, tags_view(r.rules_out@))
}

pub open spec fn cand_view(c: Candidate) -> CandView {
    (c.stem@, tags_view(c.rules_out@))
}

pub open spec fn cands_view(v: Seq<Candidate>) -> Seq<CandView> {
    Seq::new(v.len(), |i: int| cand_view(v[i]))
}

/// Number of rules in the table.
pub const RULE_COUNT: usize = 59;

/// The core inflection table, a pragmatic subset of Yomitan's
/// `deinflect.json`. Order matters: longer input suffixes come first
/// (`rule_suffixes_longest_first`), so that for 来た the kuru rule is
/// tried before the plain ichidan た → る.
pub open spec fn rule_spec(i: int) -> RuleView {
    if i == 0 {
        (seq!['か', 'な', 'か', 'っ', 'た'], seq!['く'], seq![seq!['v', '5', 'k']])
    } else if i == 1 {
        (seq!['な', 'か', 'っ', 'た'], seq!['る'], seq![seq!['v', '1']])
    } else if i == 2 {
        (seq!['し', 'ま', 'し', 'た'], seq!['す', 'る'], seq![seq!['v', 's', '-', 'i']])
    } else if i == 3 {
        (seq!['ま', 'し', 'た'], seq!['ま', 'す'], seq![seq!['v', '5']])
    } else if i == 4 {
        (seq!['ま', 'せ', 'ん'], seq!['ま', 'す'], seq![seq!['v', '5']])
    } else if i == 5 {
        (seq!['ま', 'し', 'て'], seq!['ま', 'す'], seq![seq!['v', '5']])
    } else if i == 6 {
        (seq!['ま', 'す', 'か'], seq!['ま', 'す'], seq![seq!['v', '5']])
    } else if i == 7 {
        (seq!['か', 'な', 'い'], seq!['く'], seq![seq!['v', '5', 'k']])
    } else if i == 8 {
        (seq!['き', 'ま', 'す'], seq!['く'], seq![seq!['v', '5', 'k']])
    } else if i == 9 {
        (seq!['が', 'な', 'い'], seq!['ぐ'], seq![seq!['v', '5', 'g']])
    } else if i == 10 {
        (seq!['ぎ', 'ま', 'す'], seq!['ぐ'], seq![seq!['v', '5', 'g']])
    } else if i == 11 {
        (seq!['さ', 'な', 'い'], seq!['す'], seq![seq!['v', '5', 's']])
    } else if i == 12 {
        (seq!['し', 'ま', 'す'], seq!['す'], seq![seq!['v', '5', 's']])
    } else if i == 13 {
        (seq!['た', 'な', 'い'], seq!['つ'], seq![seq!['v', '5', 't']])
    } else if i == 14 {
        (seq!['ち', 'ま', 'す'], seq!['つ'], seq![seq!['v', '5', 't']])
    } else if i == 15 {
        (seq!['ら', 'な', 'い'], seq!['る'], seq![seq!['v', '5', 'r']])
    } else if i == 16 {
        (seq!['り', 'ま', 'す'], seq!['る'], seq![seq!['v', '5', 'r']])
    } else if i == 17 {
        (seq!['わ', 'な', 'い'], seq!['う'], seq![seq!['v', '5', 'u']])
    } else if i == 18 {
        (seq!['い', 'ま', 'す'], seq!['う'], seq![seq!['v', '5', 'u']])
    } else if i == 19 {
        (seq!['ば', 'な', 'い'], seq!['ぶ'], seq![seq!['v', '5', 'b']])
    } else if i == 20 {
        (seq!['び', 'ま', 'す'], seq!['ぶ'], seq![seq!['v', '5', 'b']])
    } else if i == 21 {
        (seq!['ま', 'な', 'い'], seq!['む'], seq![seq!['v', '5', 'm']])
    } else if i == 22 {
        (seq!['み', 'ま', 'す'], seq!['む'], seq![seq!['v', '5', 'm']])
    } else if i == 23 {
        (seq!['な', 'な', 'い'], seq!['ぬ'], seq![seq!['v', '5', 'n']])
    } else if i == 24 {
        (seq!['に', 'ま', 'す'], seq!['ぬ'], seq![seq!['v', '5', 'n']])
    } else if i == 25 {
        (seq!['し', 'な', 'い'], seq!['す', 'る'], seq![seq!['v', 's', '-', 'i']])
    } else if i == 26 {
        (seq!['し', 'ま', 'す'], seq!['す', 'る'], seq![seq!['v', 's', '-', 'i']])
    } else if i == 27 {
        (seq!['か', 'っ', 'た'], seq!['い'], seq![seq!['a', 'd', 'j', '-', 'i']])
    } else if i == 28 {
        (seq!['く', 'な', 'い'], seq!['い'], seq![seq!['a', 'd', 'j', '-', 'i']])
    } else if i == 29 {
        (seq!['ま', 'す'], seq!['る'], seq![seq!['v', '1']])
    } else if i == 30 {
        (seq!['な', 'い'], seq!['る'], seq![seq!['v', '1']])
    } else if i == 31 {
        (seq!['ま', 'す'], seq!['る'], seq![seq!['v', '1']])
    } else if i == 32 {
        (seq!['い', 'た'], seq!['く'], seq![seq!['v', '5', 'k']])
    } else if i == 33 {
        (seq!['い', 'て'], seq!['く'], seq![seq!['v', '5', 'k']])
    } else if i == 34 {
        (seq!['い', 'だ'], seq!['ぐ'], seq![seq!['v', '5', 'g']])
    } else if i == 35 {
        (seq!['い', 'で'], seq!['ぐ'], seq![seq!['v', '5', 'g']])
    } else if i == 36 {
        (seq!['し', 'た'], seq!['す'], seq![seq!['v', '5', 's']])
    } else if i == 37 {
        (seq!['し', 'て'], seq!['す'], seq![seq!['v', '5', 's']])
    } else if i == 38 {
        (seq!['っ', 'た'], seq!['つ'], seq![seq!['v', '5', 't']])
    } else if i == 39 {
        (seq!['っ', 'て'], seq!['つ'], seq![seq!['v', '5', 't']])
    } else if i == 40 {
        (seq!['っ', 'た'], seq!['る'], seq![seq!['v', '5', 'r']])
    } else if i == 41 {
        (seq!['っ', 'て'], seq!['る'], seq![seq!['v', '5', 'r']])
    } else if i == 42 {
        (seq!['っ', 'た'], seq!['う'], seq![seq!['v', '5', 'u']])
    } else if i == 43 {
        (seq!['っ', 'て'], seq!['う'], seq![seq!['v', '5', 'u']])
    } else if i == 44 {
        (seq!['ん', 'だ'], seq!['ぶ'], seq![seq!['v', '5', 'b']])
    } else if i == 45 {
        (seq!['ん', 'で'], seq!['ぶ'], seq![seq!['v', '5', 'b']])
    } else if i == 46 {
        (seq!['ん', 'だ'], seq!['む'], seq![seq!['v', '5', 'm']])
    } else if i == 47 {
        (seq!['ん', 'で'], seq!['む'], seq![seq!['v', '5', 'm']])
    } else if i == 48 {
        (seq!['ん', 'だ'], seq!['ぬ'], seq![seq!['v', '5', 'n']])
    } else if i == 49 {
        (seq!['ん', 'で'], seq!['ぬ'], seq![seq!['v', '5', 'n']])
    } else if i == 50 {
        (seq!['し', 'て'], seq!['す', 'る'], seq![seq!['v', 's', '-', 'i']])
    } else if i == 51 {
        (seq!['し', 'た'], seq!['す', 'る'], seq![seq!['v', 's', '-', 'i']])
    } else if i == 52 {
        (seq!['来', 'た'], seq!['来', 'る'], seq![seq!['v', 'k']])
    } else if i == 53 {
        (seq!['来', 'て'], seq!['来', 'る'], seq![seq!['v', 'k']])
    } else if i == 54 {
        (seq!['き', 'た'], seq!['く', 'る'], seq![seq!['v', 'k']])
    } else if i == 55 {
        (seq!['き', 'て'], seq!['く', 'る'], seq![seq!['v', 'k']])
    } else if i == 56 {
        (seq!['く', 'て'], seq!['い'], seq![seq!['a', 'd', 'j', '-', 'i']])
    } else if i == 57 {
        (seq!['て'], seq!['る'], seq![seq!['v', '1']])
    } else if i == 58 {
        (seq!['た'], seq!['る'], seq![seq!['v', '1']])
    } else {
        (seq![], seq![], seq![])
    }
}

/// Rule `i` of the table.
pub fn rule_at(i: usize) -> (r: Rule)
    requires
        i < RULE_COUNT,
    ensures
        rule_view(r) == rule_spec(i as int),
        r.rules_out@.len() == 1,
{
    proof {
        reveal_strlit("adj-i");
        reveal_strlit("v1");
        reveal_strlit("v5");
        reveal_strlit("v5b");
        reveal_strlit("v5g");
        reveal_strlit("v5k");
        reveal_strlit("v5m");
        reveal_strlit("v5n");
        reveal_strlit("v5r");
        reveal_strlit("v5s");
        reveal_strlit("v5t");
        reveal_strlit("v5u");
        reveal_strlit("vk");
        reveal_strlit("vs-i");
        reveal_strlit("い");
        reveal_strlit("いた");
        reveal_strlit("いだ");
        reveal_strlit("いて");
        reveal_strlit("いで");
        reveal_strlit("います");
        reveal_strlit("う");
        reveal_strlit("かった");
        reveal_strlit("かない");
        reveal_strlit("かなかった");
        reveal_strlit("がない");
        reveal_strlit("きた");
        reveal_strlit("きて");
        reveal_strlit("きます");
        reveal_strlit("ぎます");
        reveal_strlit("く");
        reveal_strlit("くて");
        reveal_strlit("くない");
        reveal_strlit("くる");
        reveal_strlit("ぐ");
        reveal_strlit("さない");
        reveal_strlit("した");
        reveal_strlit("して");
        reveal_strlit("しない");
        reveal_strlit("しました");
        reveal_strlit("します");
        reveal_strlit("す");
        reveal_strlit("する");
        reveal_strlit("た");
        reveal_strlit("たない");
        reveal_strlit("ちます");
        reveal_strlit("った");
        reveal_strlit("って");
        reveal_strlit("つ");
        reveal_strlit("て");
        reveal_strlit("ない");
        reveal_strlit("なかった");
        reveal_strlit("なない");
        reveal_strlit("にます");
        reveal_strlit("ぬ");
        reveal_strlit("ばない");
        reveal_strlit("びます");
        reveal_strlit("ぶ");
        reveal_strlit("ました");
        reveal_strlit("まして");
        reveal_strlit("ます");
        reveal_strlit("ますか");
        reveal_strlit("ません");
        reveal_strlit("まない");
        reveal_strlit("みます");
        reveal_strlit("む");
        reveal_strlit("らない");
        reveal_strlit("ります");
        reveal_strlit("る");
        reveal_strlit("わない");
        reveal_strlit("んだ");
        reveal_strlit("んで");
        reveal_strlit("来た");
        reveal_strlit("来て");
        reveal_strlit("来る");
    }
    let r = match i {
        0 => Rule { suffix_in: "かなかった", suffix_out: "く", rules_out: &["v5k"], rules_in: &[] },
        1 => Rule { suffix_in: "なかった", suffix_out: "る", rules_out: &["v1"], rules_in: &[] },
        2 => Rule { suffix_in: "しました", suffix_out: "する", rules_out: &["vs-i"], rules_in: &[] },
        3 => Rule { suffix_in: "ました", suffix_out: "ます", rules_out: &["v5"], rules_in: &[] },
        4 => Rule { suffix_in: "ません", suffix_out: "ます", rules_out: &["v5"], rules_in: &[] },
        5 => Rule { suffix_in: "まして", suffix_out: "ます", rules_out: &["v5"], rules_in: &[] },
        6 => Rule { suffix_in: "ますか", suffix_out: "ます", rules_out: &["v5"], rules_in: &[] },
        7 => Rule { suffix_in: "かない", suffix_out: "く", rules_out: &["v5k"], rules_in: &[] },
        8 => Rule { suffix_in: "きます", suffix_out: "く", rules_out: &["v5k"], rules_in: &[] },
        9 => Rule { suffix_in: "がない", suffix_out: "ぐ", rules_out: &["v5g"], rules_in: &[] },
        10 => Rule { suffix_in: "ぎます", suffix_out: "ぐ", rules_out: &["v5g"], rules_in: &[] },
        11 => Rule { suffix_in: "さない", suffix_out: "す", rules_out: &["v5s"], rules_in: &[] },
        12 => Rule { suffix_in: "します", suffix_out: "す", rules_out: &["v5s"], rules_in: &[] },
        13 => Rule { suffix_in: "たない", suffix_out: "つ", rules_out: &["v5t"], rules_in: &[] },
        14 => Rule { suffix_in: "ちます", suffix_out: "つ", rules_out: &["v5t"], rules_in: &[] },
        15 => Rule { suffix_in: "らない", suffix_out: "る", rules_out: &["v5r"], rules_in: &[] },
        16 => Rule { suffix_in: "ります", suffix_out: "る", rules_out: &["v5r"], rules_in: &[] },
        17 => Rule { suffix_in: "わない", suffix_out: "う", rules_out: &["v5u"], rules_in: &[] },
        18 => Rule { suffix_in: "います", suffix_out: "う", rules_out: &["v5u"], rules_in: &[] },
        19 => Rule { suffix_in: "ばない", suffix_out: "ぶ", rules_out: &["v5b"], rules_in: &[] },
        20 => Rule { suffix_in: "びます", suffix_out: "ぶ", rules_out: &["v5b"], rules_in: &[] },
        21 => Rule { suffix_in: "まない", suffix_out: "む", rules_out: &["v5m"], rules_in: &[] },
        22 => Rule { suffix_in: "みます", suffix_out: "む", rules_out: &["v5m"], rules_in: &[] },
        23 => Rule { suffix_in: "なない", suffix_out: "ぬ", rules_out: &["v5n"], rules_in: &[] },
        24 => Rule { suffix_in: "にます", suffix_out: "ぬ", rules_out: &["v5n"], rules_in: &[] },
        25 => Rule { suffix_in: "しない", suffix_out: "する", rules_out: &["vs-i"], rules_in: &[] },
        26 => Rule { suffix_in: "します", suffix_out: "する", rules_out: &["vs-i"], rules_in: &[] },
        27 => Rule { suffix_in: "かった", suffix_out: "い", rules_out: &["adj-i"], rules_in: &[] },
        28 => Rule { suffix_in: "くない", suffix_out: "い", rules_out: &["adj-i"], rules_in: &[] },
        29 => Rule { suffix_in: "ます", suffix_out: "る", rules_out: &["v1"], rules_in: &[] },
        30 => Rule { suffix_in: "ない", suffix_out: "る", rules_out: &["v1"], rules_in: &[] },
        31 => Rule { suffix_in: "ます", suffix_out: "る", rules_out: &["v1"], rules_in: &[] },
        32 => Rule { suffix_in: "いた", suffix_out: "く", rules_out: &["v5k"], rules_in: &[] },
        33 => Rule { suffix_in: "いて", suffix_out: "く", rules_out: &["v5k"], rules_in: &[] },
        34 => Rule { suffix_in: "いだ", suffix_out: "ぐ", rules_out: &["v5g"], rules_in: &[] },
        35 => Rule { suffix_in: "いで", suffix_out: "ぐ", rules_out: &["v5g"], rules_in: &[] },
        36 => Rule { suffix_in: "した", suffix_out: "す", rules_out: &["v5s"], rules_in: &[] },
        37 => Rule { suffix_in: "して", suffix_out: "す", rules_out: &["v5s"], rules_in: &[] },
        38 => Rule { suffix_in: "った", suffix_out: "つ", rules_out: &["v5t"], rules_in: &[] },
        39 => Rule { suffix_in: "って", suffix_out: "つ", rules_out: &["v5t"], rules_in: &[] },
        40 => Rule { suffix_in: "った", suffix_out: "る", rules_out: &["v5r"], rules_in: &[] },
        41 => Rule { suffix_in: "って", suffix_out: "る", rules_out: &["v5r"], rules_in: &[] },
        42 => Rule { suffix_in: "った", suffix_out: "う", rules_out: &["v5u"], rules_in: &[] },
        43 => Rule { suffix_in: "って", suffix_out: "う", rules_out: &["v5u"], rules_in: &[] },
        44 => Rule { suffix_in: "んだ", suffix_out: "ぶ", rules_out: &["v5b"], rules_in: &[] },
        45 => Rule { suffix_in: "んで", suffix_out: "ぶ", rules_out: &["v5b"], rules_in: &[] },
        46 => Rule { suffix_in: "んだ", suffix_out: "む", rules_out: &["v5m"], rules_in: &[] },
        47 => Rule { suffix_in: "んで", suffix_out: "む", rules_out: &["v5m"], rules_in: &[] },
        48 => Rule { suffix_in: "んだ", suffix_out: "ぬ", rules_out: &["v5n"], rules_in: &[] },
        49 => Rule { suffix_in: "んで", suffix_out: "ぬ", rules_out: &["v5n"], rules_in: &[] },
        50 => Rule { suffix_in: "して", suffix_out: "する", rules_out: &["vs-i"], rules_in: &[] },
        51 => Rule { suffix_in: "した", suffix_out: "する", rules_out: &["vs-i"], rules_in: &[] },
        52 => Rule { suffix_in: "来た", suffix_out: "来る", rules_out: &["vk"], rules_in: &[] },
        53 => Rule { suffix_in: "来て", suffix_out: "来る", rules_out: &["vk"], rules_in: &[] },
        54 => Rule { suffix_in: "きた", suffix_out: "くる", rules_out: &["vk"], rules_in: &[] },
        55 => Rule { suffix_in: "きて", suffix_out: "くる", rules_out: &["vk"], rules_in: &[] },
        56 => Rule { suffix_in: "くて", suffix_out: "い", rules_out: &["adj-i"], rules_in: &[] },
        57 => Rule { suffix_in: "て", suffix_out: "る", rules_out: &["v1"], rules_in: &[] },
        58 => Rule { suffix_in: "た", suffix_out: "る", rules_out: &["v1"], rules_in: &[] },
        _ => Rule { suffix_in: "", suffix_out: "", rules_out: &["v1"], rules_in: &[] },
    };
    assert(rule_view(r) =~~= rule_spec(i as int));
    r
}

/// The whole table, in order.
pub fn rules() -> (r: Vec<Rule>)
    ensures
        r@.len() == RULE_COUNT,
        forall|i: int| 0 <= i < RULE_COUNT ==> rule_view(#[trigger] r@[i]) == rule_spec(i),
{
    let mut out: Vec<Rule> = Vec::new();
    let mut i: usize = 0;
    while i < RULE_COUNT
        invariant
            i <= RULE_COUNT,
            out@.len() == i,
            forall|k: int| 0 <= k < i ==> rule_view(#[trigger] out@[k]) == rule_spec(k),
        decreases RULE_COUNT - i,
    {
        out.push(rule_at(i));
        i = i + 1;
    }
    out
}


/// Whether some candidate in `acc` has stem `stem`.
pub open spec fn has_stem(acc: Seq<CandView>, stem: Seq<char>) -> bool {
    exists|i: int| 0 <= i < acc.len() && (#[trigger] acc[i]).0 == stem
}

/// Candidates after the first `k` rules: the surface itself, then one
/// candidate per rule whose input suffix ends the surface, skipping
/// stems already produced.
pub open spec fn deinflect_upto(surface: Seq<char>, k: int) -> Seq<CandView>
    decreases k,
{
    if k <= 0 {
        seq![(surface, seq![])]
    } else {
        let acc = deinflect_upto(surface, k - 1);
        let r = rule_spec(k - 1);
        if ends_with(surface, r.0) {
            let stem = surface.subrange(0, surface.len() - r.0.len()) + r.1;
            if has_stem(acc, stem) {
                acc
            } else {
                acc.push((stem, r.2))
            }
        } else {
            acc
        }
    }
}

/// What `deinflect(surface)` returns.
pub open spec fn deinflect_spec(surface: Seq<char>) -> Seq<CandView> {
    deinflect_upto(surface, RULE_COUNT as int)
}

fn has_stem_exec(acc: &Vec<Candidate>, stem: &[char]) -> (r: bool)
    ensures
        r == has_stem(cands_view(acc@), stem@),
{
    let mut i: usize = 0;
    while i < acc.len()
        invariant
            i <= acc@.len(),
            forall|t: int| 0 <= t < i ==> (#[trigger] cands_view(acc@)[t]).0 != stem@,
        decreases acc@.len() - i,
    {
        let st = chars_of(acc[i].stem.as_str());
        if eq_chars(st.as_slice(), stem) {
            assert(cands_view(acc@)[i as int].0 == stem@);
            return true;
        }
        i = i + 1;
    }
    false
}

/// Return all deinflection candidates for `surface`, including the
/// identity candidate (the surface itself with no rule requirements).
/// Single-step; chaining is rare in our domain.
pub fn deinflect(surface: &str) -> (r: Vec<Candidate>)
    ensures
        cands_view(r@) == deinflect_spec(surface@),
{
    let s = chars_of(surface);
    let mut out: Vec<Candidate> = Vec::new();
    let none: Vec<&'static str> = Vec::new();
    assert(tags_view(none@) =~= Seq::<Seq<char>>::empty());
    out.push(Candidate { stem: string_of(s.as_slice()), rules_out: none });
    assert(cands_view(out@)[0] == (surface@, Seq::<Seq<char>>::empty()));
    assert(cands_view(out@) =~= deinflect_upto(surface@, 0));
    let mut k: usize = 0;
    while k < RULE_COUNT
        invariant
            k <= RULE_COUNT,
            s@ == surface@,
            cands_view(out@) == deinflect_upto(surface@, k as int),
        decreases RULE_COUNT - k,
    {
        let rule = rule_at(k);
        let sin = chars_of(rule.suffix_in);
        if ends_with_exec(s.as_slice(), sin.as_slice()) {
            let cut = s.len() - sin.len();
            let mut stem = slice_vec(s.as_slice(), 0, cut);
            let sout = chars_of(rule.suffix_out);
            let ghost head = stem@;
            let mut j: usize = 0;
            while j < sout.len()
                invariant
                    j <= sout@.len(),
                    stem@ == head + sout@.take(j as int),
                decreases sout@.len() - j,
            {
                stem.push(sout[j]);
                j = j + 1;
                assert(stem@ =~= head + sout@.take(j as int));
            }
            assert(sout@.take(sout@.len() as int) =~= sout@);
            if !has_stem_exec(&out, stem.as_slice()) {
                let mut tags: Vec<&'static str> = Vec::new();
                let mut t: usize = 0;
                while t < rule.rules_out.len()
                    invariant
                        t <= rule.rules_out@.len(),
                        tags@ == rule.rules_out@.take(t as int),
                    decreases rule.rules_out@.len() - t,
                {
                    tags.push(rule.rules_out[t]);
                    t = t + 1;
                    assert(tags@ =~= rule.rules_out@.take(t as int));
                }
                assert(rule.rules_out@.take(rule.rules_out@.len() as int) =~= rule.rules_out@);
                let ghost before = cands_view(out@);
                out.push(Candidate { stem: string_of(stem.as_slice()), rules_out: tags });
                assert(cands_view(out@) =~= before.push((stem@, rule_spec(k as int).2)));
            }
        }
        k = k + 1;
    }
    out
}

// ----------------------------------------------------------------- laws

/// Input suffix lengths do not increase from rule `i` on.
pub open spec fn longest_first_from(i: int) -> bool
    decreases RULE_COUNT - i,
{
    if i < 0 || i + 1 >= RULE_COUNT {
        true
    } else {
        rule_spec(i).0.len() >= rule_spec(i + 1).0.len() && longest_first_from(i + 1)
    }
}

proof fn lemma_longest_first(i: int, j: int)
    requires
        0 <= i <= j < RULE_COUNT,
        longest_first_from(i),
    ensures
        rule_spec(i).0.len() >= rule_spec(j).0.len(),
    decreases j - i,
{
    if i < j {
        lemma_longest_first(i + 1, j);
    }
}

/// The table lists longer input suffixes before shorter ones.
pub proof fn rule_suffixes_longest_first(i: int, j: int)
    requires
        0 <= i <= j < RULE_COUNT,
    ensures
        rule_spec(i).0.len() >= rule_spec(j).0.len(),
{
    lemma_table_sorted(i);
    lemma_longest_first(i, j);
}

proof fn lemma_table_sorted(k: int)
    requires
        0 <= k < RULE_COUNT,
    ensures
        longest_first_from(k),
    decreases RULE_COUNT - k,
{
    if k + 1 < RULE_COUNT {
        lemma_table_sorted(k + 1);
        assert(rule_spec(k).0.len() >= rule_spec(k + 1).0.len());
    }
}


proof fn lemma_upto_shape(surface: Seq<char>, k: int)
    ensures
        deinflect_upto(surface, k).len() >= 1,
        deinflect_upto(surface, k)[0] == (surface, Seq::<Seq<char>>::empty()),
        forall|i: int, j: int|
            0 <= i < j < deinflect_upto(surface, k).len() ==> (#[trigger] deinflect_upto(
                surface,
                k,
            )[i]).0 != (#[trigger] deinflect_upto(surface, k)[j]).0,
    decreases k,
{
    if k > 0 {
        lemma_upto_shape(surface, k - 1);
        let acc = deinflect_upto(surface, k - 1);
        let r = rule_spec(k - 1);
        if ends_with(surface, r.0) {
            let stem = surface.subrange(0, surface.len() - r.0.len()) + r.1;
            if !has_stem(acc, stem) {
                let n = acc.push((stem, r.2));
                assert forall|i: int, j: int| 0 <= i < j < n.len() implies (#[trigger] n[i]).0
                    != (#[trigger] n[j]).0 by {
                    if j == acc.len() {
                        assert(n[i] == acc[i]);
                        if acc[i].0 == stem {
                            assert(has_stem(acc, stem));
                        }
                    } else {
                        assert(n[i] == acc[i] && n[j] == acc[j]);
                    }
                }
            }
        }
    }
}

/// The first candidate is always the surface itself with no tags, and
/// no stem is offered twice.
pub proof fn deinflect_identity_first_and_stems_distinct(surface: Seq<char>)
    ensures
        deinflect_spec(surface).len() >= 1,
        deinflect_spec(surface)[0] == (surface, Seq::<Seq<char>>::empty()),
        forall|i: int, j: int|
            0 <= i < j < deinflect_spec(surface).len() ==> (#[trigger] deinflect_spec(
                surface,
            )[i]).0 != (#[trigger] deinflect_spec(surface)[j]).0,
{
    lemma_upto_shape(surface, RULE_COUNT as int);
}


/// Rule `r` of the table applies to `surface`: its input suffix ends it.
pub open spec fn rule_applies(surface: Seq<char>, r: int) -> bool {
    0 <= r < RULE_COUNT && ends_with(surface, rule_spec(r).0)
}

/// The stem rule `r` gives for `surface`.
pub open spec fn rule_stem(surface: Seq<char>, r: int) -> Seq<char> {
    surface.subrange(0, surface.len() - rule_spec(r).0.len()) + rule_spec(r).1
}

/// `src` names, for each candidate after the first, the rule it comes
/// from, in increasing table order.
pub open spec fn from_rules(surface: Seq<char>, cands: Seq<CandView>, src: Seq<int>) -> bool {
    &&& src.len() + 1 == cands.len()
    &&& forall|t: int|
        0 <= t < src.len() ==> rule_applies(surface, #[trigger] src[t]) && cands[t + 1] == (
            rule_stem(surface, src[t]),
            rule_spec(src[t]).2,
        )
    &&& forall|a: int, b: int| 0 <= a < b < src.len() ==> #[trigger] src[a] < #[trigger] src[b]
}

proof fn lemma_upto_sources(surface: Seq<char>, k: int) -> (src: Seq<int>)
    requires
        0 <= k <= RULE_COUNT,
    ensures
        from_rules(surface, deinflect_upto(surface, k), src),
        forall|t: int| 0 <= t < src.len() ==> #[trigger] src[t] < k,
        forall|r: int|
            0 <= r < k && rule_applies(surface, r) ==> has_stem(
                deinflect_upto(surface, k),
                #[trigger] rule_stem(surface, r),
            ),
        forall|t: int|
            0 <= t < src.len() ==> !has_stem(deinflect_upto(surface, #[trigger] src[t]), rule_stem(surface, src[t])),
        forall|r: int|
            0 <= r < k && rule_applies(surface, r) && !has_stem(deinflect_upto(surface, r), #[trigger] rule_stem(surface, r))
                ==> exists|t: int| 0 <= t < src.len() && src[t] == r,
    decreases k,
{
    if k == 0 {
        Seq::empty()
    } else {
        let src0 = lemma_upto_sources(surface, k - 1);
        let acc = deinflect_upto(surface, k - 1);
        let r = rule_spec(k - 1);
        if ends_with(surface, r.0) {
            let stem = surface.subrange(0, surface.len() - r.0.len()) + r.1;
            assert(stem == rule_stem(surface, k - 1));
            if has_stem(acc, stem) {
                src0
            } else {
                let n = acc.push((stem, r.2));
                let src = src0.push(k - 1);
                assert forall|t: int| 0 <= t < src.len() implies rule_applies(surface, #[trigger] src[t])
                    && n[t + 1] == (rule_stem(surface, src[t]), rule_spec(src[t]).2) by {
                    if t < src0.len() {
                        assert(src[t] == src0[t]);
                        assert(n[t + 1] == acc[t + 1]);
                    }
                }
                assert forall|a: int, b: int| 0 <= a < b < src.len() implies #[trigger] src[a]
                    < #[trigger] src[b] by {
                    assert(src[a] == src0[a]);
                    if b < src0.len() {
                        assert(src[b] == src0[b]);
                    }
                }
                assert forall|t: int| 0 <= t < src.len() implies !has_stem(
                    deinflect_upto(surface, #[trigger] src[t]),
                    rule_stem(surface, src[t]),
                ) by {
                    if t < src0.len() {
                        assert(src[t] == src0[t]);
                    }
                }
                assert forall|rr: int|
                    0 <= rr < k && rule_applies(surface, rr) && !has_stem(
                        deinflect_upto(surface, rr),
                        #[trigger] rule_stem(surface, rr),
                    ) implies exists|t: int| 0 <= t < src.len() && src[t] == rr by {
                    if rr < k - 1 {
                        let t = choose|t: int| 0 <= t < src0.len() && src0[t] == rr;
                        assert(src[t] == src0[t]);
                    } else {
                        assert(src[src0.len() as int] == rr);
                    }
                }
                assert forall|rr: int| 0 <= rr < k && rule_applies(surface, rr) implies has_stem(
                    n,
                    #[trigger] rule_stem(surface, rr),
                ) by {
                    if rr < k - 1 {
                        let w = choose|w: int| 0 <= w < acc.len() && (#[trigger] acc[w]).0 == rule_stem(surface, rr);
                        assert(n[w] == acc[w]);
                    } else {
                        assert(n[acc.len() as int].0 == stem);
                    }
                }
                src
            }
        } else {
            src0
        }
    }
}

/// `deinflect` offers, after the surface itself, one candidate per
/// applicable rule in table order, each the rule's stem with the rule's
/// tags; a rule is passed over only when its stem was already offered,
/// so every applicable rule's stem is among the candidates.
pub proof fn deinflect_one_candidate_per_rule(surface: Seq<char>)
    ensures
        exists|src: Seq<int>| from_rules(surface, deinflect_spec(surface), src),
        forall|r: int|
            rule_applies(surface, r) ==> has_stem(deinflect_spec(surface), #[trigger] rule_stem(surface, r)),
{
    let src = lemma_upto_sources(surface, RULE_COUNT as int);
    assert(from_rules(surface, deinflect_spec(surface), src));
}


/// `deinflect` in closed form: the surface itself comes first with no
/// tags; no stem is offered twice; every other candidate is, in table
/// order, the stem and tags of a rule whose input suffix ends the
/// surface; and such a rule gives a candidate exactly when its stem was
/// not offered by the surface or an earlier rule. Nothing else is
/// offered, and deinflection takes a single step.
pub proof fn deinflect_closed_form(surface: Seq<char>)
    ensures
        deinflect_spec(surface)[0] == (surface, Seq::<Seq<char>>::empty()),
        forall|i: int, j: int|
            0 <= i < j < deinflect_spec(surface).len() ==> (#[trigger] deinflect_spec(surface)[i]).0
                != (#[trigger] deinflect_spec(surface)[j]).0,
        exists|src: Seq<int>|
            {
                &&& #[trigger] from_rules(surface, deinflect_spec(surface), src)
                &&& forall|r: int|
                    #![trigger rule_stem(surface, r)]
                    rule_applies(surface, r) ==> ((exists|t: int| 0 <= t < src.len() && src[t] == r)
                        <==> !has_stem(deinflect_upto(surface, r), rule_stem(surface, r)))
            },
{
    lemma_upto_shape(surface, RULE_COUNT as int);
    let src = lemma_upto_sources(surface, RULE_COUNT as int);
    assert forall|r: int| #![trigger rule_stem(surface, r)] rule_applies(surface, r) implies ((exists|t: int|
        0 <= t < src.len() && src[t] == r) <==> !has_stem(deinflect_upto(surface, r), rule_stem(surface, r))) by {
        if exists|t: int| 0 <= t < src.len() && src[t] == r {
            let t = choose|t: int| 0 <= t < src.len() && src[t] == r;
            assert(!has_stem(deinflect_upto(surface, src[t]), rule_stem(surface, src[t])));
        }
    }
    assert(from_rules(surface, deinflect_spec(surface), src));
}


// ------------------------------------------------ conjugations undone

/// An earlier rule of the table than `i` turns `surface` into `stem`
/// with tags `tags`.
pub open spec fn earlier_gives(surface: Seq<char>, stem: Seq<char>, i: int, tags: Seq<Seq<char>>) -> bool {
    exists|j: int|
        0 <= j < i && rule_applies(surface, j) && #[trigger] rule_stem(surface, j) == stem && rule_spec(j).2 == tags
}

/// `deinflect(surface)` offers `stem` tagged `tags`, unless a rule
/// before rule `i` already offered that same stem (with its own tags).
pub open spec fn offers(surface: Seq<char>, stem: Seq<char>, tags: Seq<Seq<char>>, i: int) -> bool {
    exists|k: int|
        0 <= k < deinflect_spec(surface).len() && (#[trigger] deinflect_spec(surface)[k]).0 == stem && (
        deinflect_spec(surface)[k].1 == tags || earlier_gives(surface, stem, i, deinflect_spec(surface)[k].1))
}

proof fn lemma_upto_prefix(surface: Seq<char>, a: int, b: int)
    requires
        0 <= a <= b,
    ensures
        deinflect_upto(surface, a).len() <= deinflect_upto(surface, b).len(),
        forall|w: int|
            0 <= w < deinflect_upto(surface, a).len() ==> #[trigger] deinflect_upto(surface, b)[w]
                == deinflect_upto(surface, a)[w],
    decreases b - a,
{
    if a < b {
        lemma_upto_prefix(surface, a, b - 1);
    }
}

proof fn lemma_rule_offered(surface: Seq<char>, i: int)
    requires
        0 <= i < RULE_COUNT,
        rule_applies(surface, i),
        rule_stem(surface, i) != surface,
    ensures
        offers(surface, rule_stem(surface, i), rule_spec(i).2, i),
{
    let stem = rule_stem(surface, i);
    let cands = deinflect_spec(surface);
    let src = lemma_upto_sources(surface, RULE_COUNT as int);
    lemma_upto_shape(surface, i);
    if !has_stem(deinflect_upto(surface, i), stem) {
        let t = choose|t: int| 0 <= t < src.len() && src[t] == i;
        assert(cands[t + 1] == (stem, rule_spec(i).2));
    } else {
        let up = deinflect_upto(surface, i);
        let w = choose|w: int| 0 <= w < up.len() && (#[trigger] up[w]).0 == stem;
        assert(w != 0);
        let si = lemma_upto_sources(surface, i);
        let j = si[w - 1];
        assert(up[w] == (rule_stem(surface, j), rule_spec(j).2));
        lemma_upto_prefix(surface, i, RULE_COUNT as int);
        assert(cands[w] == up[w]);
        assert(earlier_gives(surface, stem, i, cands[w].1));
    }
}

/// `x + tail` ends with `tail`, and dropping it and adding `out` gives
/// `x + out`.
proof fn lemma_swap_suffix(x: Seq<char>, tail: Seq<char>, out: Seq<char>)
    ensures
        ends_with(x + tail, tail),
        (x + tail).subrange(0, (x + tail).len() - tail.len()) + out == x + out,
        (x + tail == x + out) ==> tail == out,
{
    assert((x + tail).subrange(x.len() as int, (x + tail).len() as int) =~= tail);
    assert((x + tail).subrange(0, (x + tail).len() - tail.len()) =~= x);
    if x + tail == x + out {
        assert(tail =~= (x + out).subrange(x.len() as int, (x + out).len() as int));
    }
}

/// Godan verbs: the plain negative, polite, past and te forms of each godan class give back the dictionary form: for every stem `x`, `deinflect(x + suffix)` offers `x` with
/// the dictionary ending, tagged with its class (unless an earlier rule
/// of the table offered the same stem first).
pub proof fn deinflect_undoes_godan_verbs(x: Seq<char>)
    ensures
        offers(x + seq!['か', 'な', 'か', 'っ', 'た'], x + seq!['く'], seq![seq!['v', '5', 'k']], 0),
        offers(x + seq!['か', 'な', 'い'], x + seq!['く'], seq![seq!['v', '5', 'k']], 7),
        offers(x + seq!['き', 'ま', 'す'], x + seq!['く'], seq![seq!['v', '5', 'k']], 8),
        offers(x + seq!['が', 'な', 'い'], x + seq!['ぐ'], seq![seq!['v', '5', 'g']], 9),
        offers(x + seq!['ぎ', 'ま', 'す'], x + seq!['ぐ'], seq![seq!['v', '5', 'g']], 10),
        offers(x + seq!['さ', 'な', 'い'], x + seq!['す'], seq![seq!['v', '5', 's']], 11),
        offers(x + seq!['し', 'ま', 'す'], x + seq!['す'], seq![seq!['v', '5', 's']], 12),
        offers(x + seq!['た', 'な', 'い'], x + seq!['つ'], seq![seq!['v', '5', 't']], 13),
        offers(x + seq!['ち', 'ま', 'す'], x + seq!['つ'], seq![seq!['v', '5', 't']], 14),
        offers(x + seq!['ら', 'な', 'い'], x + seq!['る'], seq![seq!['v', '5', 'r']], 15),
        offers(x + seq!['り', 'ま', 'す'], x + seq!['る'], seq![seq!['v', '5', 'r']], 16),
        offers(x + seq!['わ', 'な', 'い'], x + seq!['う'], seq![seq!['v', '5', 'u']], 17),
        offers(x + seq!['い', 'ま', 'す'], x + seq!['う'], seq![seq!['v', '5', 'u']], 18),
        offers(x + seq!['ば', 'な', 'い'], x + seq!['ぶ'], seq![seq!['v', '5', 'b']], 19),
        offers(x + seq!['び', 'ま', 'す'], x + seq!['ぶ'], seq![seq!['v', '5', 'b']], 20),
        offers(x + seq!['ま', 'な', 'い'], x + seq!['む'], seq![seq!['v', '5', 'm']], 21),
        offers(x + seq!['み', 'ま', 'す'], x + seq!['む'], seq![seq!['v', '5', 'm']], 22),
        offers(x + seq!['な', 'な', 'い'], x + seq!['ぬ'], seq![seq!['v', '5', 'n']], 23),
        offers(x + seq!['に', 'ま', 'す'], x + seq!['ぬ'], seq![seq!['v', '5', 'n']], 24),
        offers(x + seq!['い', 'た'], x + seq!['く'], seq![seq!['v', '5', 'k']], 32),
        offers(x + seq!['い', 'て'], x + seq!['く'], seq![seq!['v', '5', 'k']], 33),
        offers(x + seq!['い', 'だ'], x + seq!['ぐ'], seq![seq!['v', '5', 'g']], 34),
        offers(x + seq!['い', 'で'], x + seq!['ぐ'], seq![seq!['v', '5', 'g']], 35),
        offers(x + seq!['し', 'た'], x + seq!['す'], seq![seq!['v', '5', 's']], 36),
        offers(x + seq!['し', 'て'], x + seq!['す'], seq![seq!['v', '5', 's']], 37),
        offers(x + seq!['っ', 'た'], x + seq!['つ'], seq![seq!['v', '5', 't']], 38),
        offers(x + seq!['っ', 'て'], x + seq!['つ'], seq![seq!['v', '5', 't']], 39),
        offers(x + seq!['っ', 'た'], x + seq!['る'], seq![seq!['v', '5', 'r']], 40),
        offers(x + seq!['っ', 'て'], x + seq!['る'], seq![seq!['v', '5', 'r']], 41),
        offers(x + seq!['っ', 'た'], x + seq!['う'], seq![seq!['v', '5', 'u']], 42),
        offers(x + seq!['っ', 'て'], x + seq!['う'], seq![seq!['v', '5', 'u']], 43),
        offers(x + seq!['ん', 'だ'], x + seq!['ぶ'], seq![seq!['v', '5', 'b']], 44),
        offers(x + seq!['ん', 'で'], x + seq!['ぶ'], seq![seq!['v', '5', 'b']], 45),
        offers(x + seq!['ん', 'だ'], x + seq!['む'], seq![seq!['v', '5', 'm']], 46),
        offers(x + seq!['ん', 'で'], x + seq!['む'], seq![seq!['v', '5', 'm']], 47),
        offers(x + seq!['ん', 'だ'], x + seq!['ぬ'], seq![seq!['v', '5', 'n']], 48),
        offers(x + seq!['ん', 'で'], x + seq!['ぬ'], seq![seq!['v', '5', 'n']], 49),
{
    lemma_swap_suffix(x, seq!['か', 'な', 'か', 'っ', 'た'], seq!['く']);
    assert(rule_spec(0) == (seq!['か', 'な', 'か', 'っ', 'た'], seq!['く'], seq![seq!['v', '5', 'k']]));
    assert(seq!['か', 'な', 'か', 'っ', 'た'] != seq!['く']) by { assert(seq!['か', 'な', 'か', 'っ', 'た'].last() != seq!['く'].last() || seq!['か', 'な', 'か', 'っ', 'た'].len() != seq!['く'].len()); }
    lemma_rule_offered(x + seq!['か', 'な', 'か', 'っ', 'た'], 0);
    lemma_swap_suffix(x, seq!['か', 'な', 'い'], seq!['く']);
    assert(rule_spec(7) == (seq!['か', 'な', 'い'], seq!['く'], seq![seq!['v', '5', 'k']]));
    assert(seq!['か', 'な', 'い'] != seq!['く']) by { assert(seq!['か', 'な', 'い'].last() != seq!['く'].last() || seq!['か', 'な', 'い'].len() != seq!['く'].len()); }
    lemma_rule_offered(x + seq!['か', 'な', 'い'], 7);
    lemma_swap_suffix(x, seq!['き', 'ま', 'す'], seq!['く']);
    assert(rule_spec(8) == (seq!['き', 'ま', 'す'], seq!['く'], seq![seq!['v', '5', 'k']]));
    assert(seq!['き', 'ま', 'す'] != seq!['く']) by { assert(seq!['き', 'ま', 'す'].last() != seq!['く'].last() || seq!['き', 'ま', 'す'].len() != seq!['く'].len()); }
    lemma_rule_offered(x + seq!['き', 'ま', 'す'], 8);
    lemma_swap_suffix(x, seq!['が', 'な', 'い'], seq!['ぐ']);
    assert(rule_spec(9) == (seq!['が', 'な', 'い'], seq!['ぐ'], seq![seq!['v', '5', 'g']]));
    assert(seq!['が', 'な', 'い'] != seq!['ぐ']) by { assert(seq!['が', 'な', 'い'].last() != seq!['ぐ'].last() || seq!['が', 'な', 'い'].len() != seq!['ぐ'].len()); }
    lemma_rule_offered(x + seq!['が', 'な', 'い'], 9);
    lemma_swap_suffix(x, seq!['ぎ', 'ま', 'す'], seq!['ぐ']);
    assert(rule_spec(10) == (seq!['ぎ', 'ま', 'す'], seq!['ぐ'], seq![seq!['v', '5', 'g']]));
    assert(seq!['ぎ', 'ま', 'す'] != seq!['ぐ']) by { assert(seq!['ぎ', 'ま', 'す'].last() != seq!['ぐ'].last() || seq!['ぎ', 'ま', 'す'].len() != seq!['ぐ'].len()); }
    lemma_rule_offered(x + seq!['ぎ', 'ま', 'す'], 10);
    lemma_swap_suffix(x, seq!['さ', 'な', 'い'], seq!['す']);
    assert(rule_spec(11) == (seq!['さ', 'な', 'い'], seq!['す'], seq![seq!['v', '5', 's']]));
    assert(seq!['さ', 'な', 'い'] != seq!['す']) by { assert(seq!['さ', 'な', 'い'].last() != seq!['す'].last() || seq!['さ', 'な', 'い'].len() != seq!['す'].len()); }
    lemma_rule_offered(x + seq!['さ', 'な', 'い'], 11);
    lemma_swap_suffix(x, seq!['し', 'ま', 'す'], seq!['す']);
    assert(rule_spec(12) == (seq!['し', 'ま', 'す'], seq!['す'], seq![seq!['v', '5', 's']]));
    assert(seq!['し', 'ま', 'す'] != seq!['す']) by { assert(seq!['し', 'ま', 'す'].last() != seq!['す'].last() || seq!['し', 'ま', 'す'].len() != seq!['す'].len()); }
    lemma_rule_offered(x + seq!['し', 'ま', 'す'], 12);
    lemma_swap_suffix(x, seq!['た', 'な', 'い'], seq!['つ']);
    assert(rule_spec(13) == (seq!['た', 'な', 'い'], seq!['つ'], seq![seq!['v', '5', 't']]));
    assert(seq!['た', 'な', 'い'] != seq!['つ']) by { assert(seq!['た', 'な', 'い'].last() != seq!['つ'].last() || seq!['た', 'な', 'い'].len() != seq!['つ'].len()); }
    lemma_rule_offered(x + seq!['た', 'な', 'い'], 13);
    lemma_swap_suffix(x, seq!['ち', 'ま', 'す'], seq!['つ']);
    assert(rule_spec(14) == (seq!['ち', 'ま', 'す'], seq!['つ'], seq![seq!['v', '5', 't']]));
    assert(seq!['ち', 'ま', 'す'] != seq!['つ']) by { assert(seq!['ち', 'ま', 'す'].last() != seq!['つ'].last() || seq!['ち', 'ま', 'す'].len() != seq!['つ'].len()); }
    lemma_rule_offered(x + seq!['ち', 'ま', 'す'], 14);
    lemma_swap_suffix(x, seq!['ら', 'な', 'い'], seq!['る']);
    assert(rule_spec(15) == (seq!['ら', 'な', 'い'], seq!['る'], seq![seq!['v', '5', 'r']]));
    assert(seq!['ら', 'な', 'い'] != seq!['る']) by { assert(seq!['ら', 'な', 'い'].last() != seq!['る'].last() || seq!['ら', 'な', 'い'].len() != seq!['る'].len()); }
    lemma_rule_offered(x + seq!['ら', 'な', 'い'], 15);
    lemma_swap_suffix(x, seq!['り', 'ま', 'す'], seq!['る']);
    assert(rule_spec(16) == (seq!['り', 'ま', 'す'], seq!['る'], seq![seq!['v', '5', 'r']]));
    assert(seq!['り', 'ま', 'す'] != seq!['る']) by { assert(seq!['り', 'ま', 'す'].last() != seq!['る'].last() || seq!['り', 'ま', 'す'].len() != seq!['る'].len()); }
    lemma_rule_offered(x + seq!['り', 'ま', 'す'], 16);
    lemma_swap_suffix(x, seq!['わ', 'な', 'い'], seq!['う']);
    assert(rule_spec(17) == (seq!['わ', 'な', 'い'], seq!['う'], seq![seq!['v', '5', 'u']]));
    assert(seq!['わ', 'な', 'い'] != seq!['う']) by { assert(seq!['わ', 'な', 'い'].last() != seq!['う'].last() || seq!['わ', 'な', 'い'].len() != seq!['う'].len()); }
    lemma_rule_offered(x + seq!['わ', 'な', 'い'], 17);
    lemma_swap_suffix(x, seq!['い', 'ま', 'す'], seq!['う']);
    assert(rule_spec(18) == (seq!['い', 'ま', 'す'], seq!['う'], seq![seq!['v', '5', 'u']]));
    assert(seq!['い', 'ま', 'す'] != seq!['う']) by { assert(seq!['い', 'ま', 'す'].last() != seq!['う'].last() || seq!['い', 'ま', 'す'].len() != seq!['う'].len()); }
    lemma_rule_offered(x + seq!['い', 'ま', 'す'], 18);
    lemma_swap_suffix(x, seq!['ば', 'な', 'い'], seq!['ぶ']);
    assert(rule_spec(19) == (seq!['ば', 'な', 'い'], seq!['ぶ'], seq![seq!['v', '5', 'b']]));
    assert(seq!['ば', 'な', 'い'] != seq!['ぶ']) by { assert(seq!['ば', 'な', 'い'].last() != seq!['ぶ'].last() || seq!['ば', 'な', 'い'].len() != seq!['ぶ'].len()); }
    lemma_rule_offered(x + seq!['ば', 'な', 'い'], 19);
    lemma_swap_suffix(x, seq!['び', 'ま', 'す'], seq!['ぶ']);
    assert(rule_spec(20) == (seq!['び', 'ま', 'す'], seq!['ぶ'], seq![seq!['v', '5', 'b']]));
    assert(seq!['び', 'ま', 'す'] != seq!['ぶ']) by { assert(seq!['び', 'ま', 'す'].last() != seq!['ぶ'].last() || seq!['び', 'ま', 'す'].len() != seq!['ぶ'].len()); }
    lemma_rule_offered(x + seq!['び', 'ま', 'す'], 20);
    lemma_swap_suffix(x, seq!['ま', 'な', 'い'], seq!['む']);
    assert(rule_spec(21) == (seq!['ま', 'な', 'い'], seq!['む'], seq![seq!['v', '5', 'm']]));
    assert(seq!['ま', 'な', 'い'] != seq!['む']) by { assert(seq!['ま', 'な', 'い'].last() != seq!['む'].last() || seq!['ま', 'な', 'い'].len() != seq!['む'].len()); }
    lemma_rule_offered(x + seq!['ま', 'な', 'い'], 21);
    lemma_swap_suffix(x, seq!['み', 'ま', 'す'], seq!['む']);
    assert(rule_spec(22) == (seq!['み', 'ま', 'す'], seq!['む'], seq![seq!['v', '5', 'm']]));
    assert(seq!['み', 'ま', 'す'] != seq!['む']) by { assert(seq!['み', 'ま', 'す'].last() != seq!['む'].last() || seq!['み', 'ま', 'す'].len() != seq!['む'].len()); }
    lemma_rule_offered(x + seq!['み', 'ま', 'す'], 22);
    lemma_swap_suffix(x, seq!['な', 'な', 'い'], seq!['ぬ']);
    assert(rule_spec(23) == (seq!['な', 'な', 'い'], seq!['ぬ'], seq![seq!['v', '5', 'n']]));
    assert(seq!['な', 'な', 'い'] != seq!['ぬ']) by { assert(seq!['な', 'な', 'い'].last() != seq!['ぬ'].last() || seq!['な', 'な', 'い'].len() != seq!['ぬ'].len()); }
    lemma_rule_offered(x + seq!['な', 'な', 'い'], 23);
    lemma_swap_suffix(x, seq!['に', 'ま', 'す'], seq!['ぬ']);
    assert(rule_spec(24) == (seq!['に', 'ま', 'す'], seq!['ぬ'], seq![seq!['v', '5', 'n']]));
    assert(seq!['に', 'ま', 'す'] != seq!['ぬ']) by { assert(seq!['に', 'ま', 'す'].last() != seq!['ぬ'].last() || seq!['に', 'ま', 'す'].len() != seq!['ぬ'].len()); }
    lemma_rule_offered(x + seq!['に', 'ま', 'す'], 24);
    lemma_swap_suffix(x, seq!['い', 'た'], seq!['く']);
    assert(rule_spec(32) == (seq!['い', 'た'], seq!['く'], seq![seq!['v', '5', 'k']]));
    assert(seq!['い', 'た'] != seq!['く']) by { assert(seq!['い', 'た'].last() != seq!['く'].last() || seq!['い', 'た'].len() != seq!['く'].len()); }
    lemma_rule_offered(x + seq!['い', 'た'], 32);
    lemma_swap_suffix(x, seq!['い', 'て'], seq!['く']);
    assert(rule_spec(33) == (seq!['い', 'て'], seq!['く'], seq![seq!['v', '5', 'k']]));
    assert(seq!['い', 'て'] != seq!['く']) by { assert(seq!['い', 'て'].last() != seq!['く'].last() || seq!['い', 'て'].len() != seq!['く'].len()); }
    lemma_rule_offered(x + seq!['い', 'て'], 33);
    lemma_swap_suffix(x, seq!['い', 'だ'], seq!['ぐ']);
    assert(rule_spec(34) == (seq!['い', 'だ'], seq!['ぐ'], seq![seq!['v', '5', 'g']]));
    assert(seq!['い', 'だ'] != seq!['ぐ']) by { assert(seq!['い', 'だ'].last() != seq!['ぐ'].last() || seq!['い', 'だ'].len() != seq!['ぐ'].len()); }
    lemma_rule_offered(x + seq!['い', 'だ'], 34);
    lemma_swap_suffix(x, seq!['い', 'で'], seq!['ぐ']);
    assert(rule_spec(35) == (seq!['い', 'で'], seq!['ぐ'], seq![seq!['v', '5', 'g']]));
    assert(seq!['い', 'で'] != seq!['ぐ']) by { assert(seq!['い', 'で'].last() != seq!['ぐ'].last() || seq!['い', 'で'].len() != seq!['ぐ'].len()); }
    lemma_rule_offered(x + seq!['い', 'で'], 35);
    lemma_swap_suffix(x, seq!['し', 'た'], seq!['す']);
    assert(rule_spec(36) == (seq!['し', 'た'], seq!['す'], seq![seq!['v', '5', 's']]));
    assert(seq!['し', 'た'] != seq!['す']) by { assert(seq!['し', 'た'].last() != seq!['す'].last() || seq!['し', 'た'].len() != seq!['す'].len()); }
    lemma_rule_offered(x + seq!['し', 'た'], 36);
    lemma_swap_suffix(x, seq!['し', 'て'], seq!['す']);
    assert(rule_spec(37) == (seq!['し', 'て'], seq!['す'], seq![seq!['v', '5', 's']]));
    assert(seq!['し', 'て'] != seq!['す']) by { assert(seq!['し', 'て'].last() != seq!['す'].last() || seq!['し', 'て'].len() != seq!['す'].len()); }
    lemma_rule_offered(x + seq!['し', 'て'], 37);
    lemma_swap_suffix(x, seq!['っ', 'た'], seq!['つ']);
    assert(rule_spec(38) == (seq!['っ', 'た'], seq!['つ'], seq![seq!['v', '5', 't']]));
    assert(seq!['っ', 'た'] != seq!['つ']) by { assert(seq!['っ', 'た'].last() != seq!['つ'].last() || seq!['っ', 'た'].len() != seq!['つ'].len()); }
    lemma_rule_offered(x + seq!['っ', 'た'], 38);
    lemma_swap_suffix(x, seq!['っ', 'て'], seq!['つ']);
    assert(rule_spec(39) == (seq!['っ', 'て'], seq!['つ'], seq![seq!['v', '5', 't']]));
    assert(seq!['っ', 'て'] != seq!['つ']) by { assert(seq!['っ', 'て'].last() != seq!['つ'].last() || seq!['っ', 'て'].len() != seq!['つ'].len()); }
    lemma_rule_offered(x + seq!['っ', 'て'], 39);
    lemma_swap_suffix(x, seq!['っ', 'た'], seq!['る']);
    assert(rule_spec(40) == (seq!['っ', 'た'], seq!['る'], seq![seq!['v', '5', 'r']]));
    assert(seq!['っ', 'た'] != seq!['る']) by { assert(seq!['っ', 'た'].last() != seq!['る'].last() || seq!['っ', 'た'].len() != seq!['る'].len()); }
    lemma_rule_offered(x + seq!['っ', 'た'], 40);
    lemma_swap_suffix(x, seq!['っ', 'て'], seq!['る']);
    assert(rule_spec(41) == (seq!['っ', 'て'], seq!['る'], seq![seq!['v', '5', 'r']]));
    assert(seq!['っ', 'て'] != seq!['る']) by { assert(seq!['っ', 'て'].last() != seq!['る'].last() || seq!['っ', 'て'].len() != seq!['る'].len()); }
    lemma_rule_offered(x + seq!['っ', 'て'], 41);
    lemma_swap_suffix(x, seq!['っ', 'た'], seq!['う']);
    assert(rule_spec(42) == (seq!['っ', 'た'], seq!['う'], seq![seq!['v', '5', 'u']]));
    assert(seq!['っ', 'た'] != seq!['う']) by { assert(seq!['っ', 'た'].last() != seq!['う'].last() || seq!['っ', 'た'].len() != seq!['う'].len()); }
    lemma_rule_offered(x + seq!['っ', 'た'], 42);
    lemma_swap_suffix(x, seq!['っ', 'て'], seq!['う']);
    assert(rule_spec(43) == (seq!['っ', 'て'], seq!['う'], seq![seq!['v', '5', 'u']]));
    assert(seq!['っ', 'て'] != seq!['う']) by { assert(seq!['っ', 'て'].last() != seq!['う'].last() || seq!['っ', 'て'].len() != seq!['う'].len()); }
    lemma_rule_offered(x + seq!['っ', 'て'], 43);
    lemma_swap_suffix(x, seq!['ん', 'だ'], seq!['ぶ']);
    assert(rule_spec(44) == (seq!['ん', 'だ'], seq!['ぶ'], seq![seq!['v', '5', 'b']]));
    assert(seq!['ん', 'だ'] != seq!['ぶ']) by { assert(seq!['ん', 'だ'].last() != seq!['ぶ'].last() || seq!['ん', 'だ'].len() != seq!['ぶ'].len()); }
    lemma_rule_offered(x + seq!['ん', 'だ'], 44);
    lemma_swap_suffix(x, seq!['ん', 'で'], seq!['ぶ']);
    assert(rule_spec(45) == (seq!['ん', 'で'], seq!['ぶ'], seq![seq!['v', '5', 'b']]));
    assert(seq!['ん', 'で'] != seq!['ぶ']) by { assert(seq!['ん', 'で'].last() != seq!['ぶ'].last() || seq!['ん', 'で'].len() != seq!['ぶ'].len()); }
    lemma_rule_offered(x + seq!['ん', 'で'], 45);
    lemma_swap_suffix(x, seq!['ん', 'だ'], seq!['む']);
    assert(rule_spec(46) == (seq!['ん', 'だ'], seq!['む'], seq![seq!['v', '5', 'm']]));
    assert(seq!['ん', 'だ'] != seq!['む']) by { assert(seq!['ん', 'だ'].last() != seq!['む'].last() || seq!['ん', 'だ'].len() != seq!['む'].len()); }
    lemma_rule_offered(x + seq!['ん', 'だ'], 46);
    lemma_swap_suffix(x, seq!['ん', 'で'], seq!['む']);
    assert(rule_spec(47) == (seq!['ん', 'で'], seq!['む'], seq![seq!['v', '5', 'm']]));
    assert(seq!['ん', 'で'] != seq!['む']) by { assert(seq!['ん', 'で'].last() != seq!['む'].last() || seq!['ん', 'で'].len() != seq!['む'].len()); }
    lemma_rule_offered(x + seq!['ん', 'で'], 47);
    lemma_swap_suffix(x, seq!['ん', 'だ'], seq!['ぬ']);
    assert(rule_spec(48) == (seq!['ん', 'だ'], seq!['ぬ'], seq![seq!['v', '5', 'n']]));
    assert(seq!['ん', 'だ'] != seq!['ぬ']) by { assert(seq!['ん', 'だ'].last() != seq!['ぬ'].last() || seq!['ん', 'だ'].len() != seq!['ぬ'].len()); }
    lemma_rule_offered(x + seq!['ん', 'だ'], 48);
    lemma_swap_suffix(x, seq!['ん', 'で'], seq!['ぬ']);
    assert(rule_spec(49) == (seq!['ん', 'で'], seq!['ぬ'], seq![seq!['v', '5', 'n']]));
    assert(seq!['ん', 'で'] != seq!['ぬ']) by { assert(seq!['ん', 'で'].last() != seq!['ぬ'].last() || seq!['ん', 'で'].len() != seq!['ぬ'].len()); }
    lemma_rule_offered(x + seq!['ん', 'で'], 49);
}

/// Polite ます forms (ました, ません, まして, ますか) give back ます: for every stem `x`, `deinflect(x + suffix)` offers `x` with
/// the dictionary ending, tagged with its class (unless an earlier rule
/// of the table offered the same stem first).
pub proof fn deinflect_undoes_polite_forms(x: Seq<char>)
    ensures
        offers(x + seq!['ま', 'し', 'た'], x + seq!['ま', 'す'], seq![seq!['v', '5']], 3),
        offers(x + seq!['ま', 'せ', 'ん'], x + seq!['ま', 'す'], seq![seq!['v', '5']], 4),
        offers(x + seq!['ま', 'し', 'て'], x + seq!['ま', 'す'], seq![seq!['v', '5']], 5),
        offers(x + seq!['ま', 'す', 'か'], x + seq!['ま', 'す'], seq![seq!['v', '5']], 6),
{
    lemma_swap_suffix(x, seq!['ま', 'し', 'た'], seq!['ま', 'す']);
    assert(rule_spec(3) == (seq!['ま', 'し', 'た'], seq!['ま', 'す'], seq![seq!['v', '5']]));
    assert(seq!['ま', 'し', 'た'] != seq!['ま', 'す']) by { assert(seq!['ま', 'し', 'た'].last() != seq!['ま', 'す'].last() || seq!['ま', 'し', 'た'].len() != seq!['ま', 'す'].len()); }
    lemma_rule_offered(x + seq!['ま', 'し', 'た'], 3);
    lemma_swap_suffix(x, seq!['ま', 'せ', 'ん'], seq!['ま', 'す']);
    assert(rule_spec(4) == (seq!['ま', 'せ', 'ん'], seq!['ま', 'す'], seq![seq!['v', '5']]));
    assert(seq!['ま', 'せ', 'ん'] != seq!['ま', 'す']) by { assert(seq!['ま', 'せ', 'ん'].last() != seq!['ま', 'す'].last() || seq!['ま', 'せ', 'ん'].len() != seq!['ま', 'す'].len()); }
    lemma_rule_offered(x + seq!['ま', 'せ', 'ん'], 4);
    lemma_swap_suffix(x, seq!['ま', 'し', 'て'], seq!['ま', 'す']);
    assert(rule_spec(5) == (seq!['ま', 'し', 'て'], seq!['ま', 'す'], seq![seq!['v', '5']]));
    assert(seq!['ま', 'し', 'て'] != seq!['ま', 'す']) by { assert(seq!['ま', 'し', 'て'].last() != seq!['ま', 'す'].last() || seq!['ま', 'し', 'て'].len() != seq!['ま', 'す'].len()); }
    lemma_rule_offered(x + seq!['ま', 'し', 'て'], 5);
    lemma_swap_suffix(x, seq!['ま', 'す', 'か'], seq!['ま', 'す']);
    assert(rule_spec(6) == (seq!['ま', 'す', 'か'], seq!['ま', 'す'], seq![seq!['v', '5']]));
    assert(seq!['ま', 'す', 'か'] != seq!['ま', 'す']) by { assert(seq!['ま', 'す', 'か'].last() != seq!['ま', 'す'].last() || seq!['ま', 'す', 'か'].len() != seq!['ま', 'す'].len()); }
    lemma_rule_offered(x + seq!['ま', 'す', 'か'], 6);
}

/// Ichidan verbs: ない, ます, なかった, た and て give back る: for every stem `x`, `deinflect(x + suffix)` offers `x` with
/// the dictionary ending, tagged with its class (unless an earlier rule
/// of the table offered the same stem first).
pub proof fn deinflect_undoes_ichidan_verbs(x: Seq<char>)
    ensures
        offers(x + seq!['な', 'か', 'っ', 'た'], x + seq!['る'], seq![seq!['v', '1']], 1),
        offers(x + seq!['ま', 'す'], x + seq!['る'], seq![seq!['v', '1']], 29),
        offers(x + seq!['な', 'い'], x + seq!['る'], seq![seq!['v', '1']], 30),
        offers(x + seq!['ま', 'す'], x + seq!['る'], seq![seq!['v', '1']], 31),
        offers(x + seq!['て'], x + seq!['る'], seq![seq!['v', '1']], 57),
        offers(x + seq!['た'], x + seq!['る'], seq![seq!['v', '1']], 58),
{
    lemma_swap_suffix(x, seq!['な', 'か', 'っ', 'た'], seq!['る']);
    assert(rule_spec(1) == (seq!['な', 'か', 'っ', 'た'], seq!['る'], seq![seq!['v', '1']]));
    assert(seq!['な', 'か', 'っ', 'た'] != seq!['る']) by { assert(seq!['な', 'か', 'っ', 'た'].last() != seq!['る'].last() || seq!['な', 'か', 'っ', 'た'].len() != seq!['る'].len()); }
    lemma_rule_offered(x + seq!['な', 'か', 'っ', 'た'], 1);
    lemma_swap_suffix(x, seq!['ま', 'す'], seq!['る']);
    assert(rule_spec(29) == (seq!['ま', 'す'], seq!['る'], seq![seq!['v', '1']]));
    assert(seq!['ま', 'す'] != seq!['る']) by { assert(seq!['ま', 'す'].last() != seq!['る'].last() || seq!['ま', 'す'].len() != seq!['る'].len()); }
    lemma_rule_offered(x + seq!['ま', 'す'], 29);
    lemma_swap_suffix(x, seq!['な', 'い'], seq!['る']);
    assert(rule_spec(30) == (seq!['な', 'い'], seq!['る'], seq![seq!['v', '1']]));
    assert(seq!['な', 'い'] != seq!['る']) by { assert(seq!['な', 'い'].last() != seq!['る'].last() || seq!['な', 'い'].len() != seq!['る'].len()); }
    lemma_rule_offered(x + seq!['な', 'い'], 30);
    lemma_swap_suffix(x, seq!['ま', 'す'], seq!['る']);
    assert(rule_spec(31) == (seq!['ま', 'す'], seq!['る'], seq![seq!['v', '1']]));
    assert(seq!['ま', 'す'] != seq!['る']) by { assert(seq!['ま', 'す'].last() != seq!['る'].last() || seq!['ま', 'す'].len() != seq!['る'].len()); }
    lemma_rule_offered(x + seq!['ま', 'す'], 31);
    lemma_swap_suffix(x, seq!['て'], seq!['る']);
    assert(rule_spec(57) == (seq!['て'], seq!['る'], seq![seq!['v', '1']]));
    assert(seq!['て'] != seq!['る']) by { assert(seq!['て'].last() != seq!['る'].last() || seq!['て'].len() != seq!['る'].len()); }
    lemma_rule_offered(x + seq!['て'], 57);
    lemma_swap_suffix(x, seq!['た'], seq!['る']);
    assert(rule_spec(58) == (seq!['た'], seq!['る'], seq![seq!['v', '1']]));
    assert(seq!['た'] != seq!['る']) by { assert(seq!['た'].last() != seq!['る'].last() || seq!['た'].len() != seq!['る'].len()); }
    lemma_rule_offered(x + seq!['た'], 58);
}

/// する and 来る: their negative, polite, past and te forms give back the dictionary form: for every stem `x`, `deinflect(x + suffix)` offers `x` with
/// the dictionary ending, tagged with its class (unless an earlier rule
/// of the table offered the same stem first).
pub proof fn deinflect_undoes_irregular_verbs(x: Seq<char>)
    ensures
        offers(x + seq!['し', 'ま', 'し', 'た'], x + seq!['す', 'る'], seq![seq!['v', 's', '-', 'i']], 2),
        offers(x + seq!['し', 'な', 'い'], x + seq!['す', 'る'], seq![seq!['v', 's', '-', 'i']], 25),
        offers(x + seq!['し', 'ま', 'す'], x + seq!['す', 'る'], seq![seq!['v', 's', '-', 'i']], 26),
        offers(x + seq!['し', 'て'], x + seq!['す', 'る'], seq![seq!['v', 's', '-', 'i']], 50),
        offers(x + seq!['し', 'た'], x + seq!['す', 'る'], seq![seq!['v', 's', '-', 'i']], 51),
        offers(x + seq!['来', 'た'], x + seq!['来', 'る'], seq![seq!['v', 'k']], 52),
        offers(x + seq!['来', 'て'], x + seq!['来', 'る'], seq![seq!['v', 'k']], 53),
        offers(x + seq!['き', 'た'], x + seq!['く', 'る'], seq![seq!['v', 'k']], 54),
        offers(x + seq!['き', 'て'], x + seq!['く', 'る'], seq![seq!['v', 'k']], 55),
{
    lemma_swap_suffix(x, seq!['し', 'ま', 'し', 'た'], seq!['す', 'る']);
    assert(rule_spec(2) == (seq!['し', 'ま', 'し', 'た'], seq!['す', 'る'], seq![seq!['v', 's', '-', 'i']]));
    assert(seq!['し', 'ま', 'し', 'た'] != seq!['す', 'る']) by { assert(seq!['し', 'ま', 'し', 'た'].last() != seq!['す', 'る'].last() || seq!['し', 'ま', 'し', 'た'].len() != seq!['す', 'る'].len()); }
    lemma_rule_offered(x + seq!['し', 'ま', 'し', 'た'], 2);
    lemma_swap_suffix(x, seq!['し', 'な', 'い'], seq!['す', 'る']);
    assert(rule_spec(25) == (seq!['し', 'な', 'い'], seq!['す', 'る'], seq![seq!['v', 's', '-', 'i']]));
    assert(seq!['し', 'な', 'い'] != seq!['す', 'る']) by { assert(seq!['し', 'な', 'い'].last() != seq!['す', 'る'].last() || seq!['し', 'な', 'い'].len() != seq!['す', 'る'].len()); }
    lemma_rule_offered(x + seq!['し', 'な', 'い'], 25);
    lemma_swap_suffix(x, seq!['し', 'ま', 'す'], seq!['す', 'る']);
    assert(rule_spec(26) == (seq!['し', 'ま', 'す'], seq!['す', 'る'], seq![seq!['v', 's', '-', 'i']]));
    assert(seq!['し', 'ま', 'す'] != seq!['す', 'る']) by { assert(seq!['し', 'ま', 'す'].last() != seq!['す', 'る'].last() || seq!['し', 'ま', 'す'].len() != seq!['す', 'る'].len()); }
    lemma_rule_offered(x + seq!['し', 'ま', 'す'], 26);
    lemma_swap_suffix(x, seq!['し', 'て'], seq!['す', 'る']);
    assert(rule_spec(50) == (seq!['し', 'て'], seq!['す', 'る'], seq![seq!['v', 's', '-', 'i']]));
    assert(seq!['し', 'て'] != seq!['す', 'る']) by { assert(seq!['し', 'て'].last() != seq!['す', 'る'].last() || seq!['し', 'て'].len() != seq!['す', 'る'].len()); }
    lemma_rule_offered(x + seq!['し', 'て'], 50);
    lemma_swap_suffix(x, seq!['し', 'た'], seq!['す', 'る']);
    assert(rule_spec(51) == (seq!['し', 'た'], seq!['す', 'る'], seq![seq!['v', 's', '-', 'i']]));
    assert(seq!['し', 'た'] != seq!['す', 'る']) by { assert(seq!['し', 'た'].last() != seq!['す', 'る'].last() || seq!['し', 'た'].len() != seq!['す', 'る'].len()); }
    lemma_rule_offered(x + seq!['し', 'た'], 51);
    lemma_swap_suffix(x, seq!['来', 'た'], seq!['来', 'る']);
    assert(rule_spec(52) == (seq!['来', 'た'], seq!['来', 'る'], seq![seq!['v', 'k']]));
    assert(seq!['来', 'た'] != seq!['来', 'る']) by { assert(seq!['来', 'た'].last() != seq!['来', 'る'].last() || seq!['来', 'た'].len() != seq!['来', 'る'].len()); }
    lemma_rule_offered(x + seq!['来', 'た'], 52);
    lemma_swap_suffix(x, seq!['来', 'て'], seq!['来', 'る']);
    assert(rule_spec(53) == (seq!['来', 'て'], seq!['来', 'る'], seq![seq!['v', 'k']]));
    assert(seq!['来', 'て'] != seq!['来', 'る']) by { assert(seq!['来', 'て'].last() != seq!['来', 'る'].last() || seq!['来', 'て'].len() != seq!['来', 'る'].len()); }
    lemma_rule_offered(x + seq!['来', 'て'], 53);
    lemma_swap_suffix(x, seq!['き', 'た'], seq!['く', 'る']);
    assert(rule_spec(54) == (seq!['き', 'た'], seq!['く', 'る'], seq![seq!['v', 'k']]));
    assert(seq!['き', 'た'] != seq!['く', 'る']) by { assert(seq!['き', 'た'].last() != seq!['く', 'る'].last() || seq!['き', 'た'].len() != seq!['く', 'る'].len()); }
    lemma_rule_offered(x + seq!['き', 'た'], 54);
    lemma_swap_suffix(x, seq!['き', 'て'], seq!['く', 'る']);
    assert(rule_spec(55) == (seq!['き', 'て'], seq!['く', 'る'], seq![seq!['v', 'k']]));
    assert(seq!['き', 'て'] != seq!['く', 'る']) by { assert(seq!['き', 'て'].last() != seq!['く', 'る'].last() || seq!['き', 'て'].len() != seq!['く', 'る'].len()); }
    lemma_rule_offered(x + seq!['き', 'て'], 55);
}

/// i-adjectives: かった, くない and くて give back い: for every stem `x`, `deinflect(x + suffix)` offers `x` with
/// the dictionary ending, tagged with its class (unless an earlier rule
/// of the table offered the same stem first).
pub proof fn deinflect_undoes_adjectives(x: Seq<char>)
    ensures
        offers(x + seq!['か', 'っ', 'た'], x + seq!['い'], seq![seq!['a', 'd', 'j', '-', 'i']], 27),
        offers(x + seq!['く', 'な', 'い'], x + seq!['い'], seq![seq!['a', 'd', 'j', '-', 'i']], 28),
        offers(x + seq!['く', 'て'], x + seq!['い'], seq![seq!['a', 'd', 'j', '-', 'i']], 56),
{
    lemma_swap_suffix(x, seq!['か', 'っ', 'た'], seq!['い']);
    assert(rule_spec(27) == (seq!['か', 'っ', 'た'], seq!['い'], seq![seq!['a', 'd', 'j', '-', 'i']]));
    assert(seq!['か', 'っ', 'た'] != seq!['い']) by { assert(seq!['か', 'っ', 'た'].last() != seq!['い'].last() || seq!['か', 'っ', 'た'].len() != seq!['い'].len()); }
    lemma_rule_offered(x + seq!['か', 'っ', 'た'], 27);
    lemma_swap_suffix(x, seq!['く', 'な', 'い'], seq!['い']);
    assert(rule_spec(28) == (seq!['く', 'な', 'い'], seq!['い'], seq![seq!['a', 'd', 'j', '-', 'i']]));
    assert(seq!['く', 'な', 'い'] != seq!['い']) by { assert(seq!['く', 'な', 'い'].last() != seq!['い'].last() || seq!['く', 'な', 'い'].len() != seq!['い'].len()); }
    lemma_rule_offered(x + seq!['く', 'な', 'い'], 28);
    lemma_swap_suffix(x, seq!['く', 'て'], seq!['い']);
    assert(rule_spec(56) == (seq!['く', 'て'], seq!['い'], seq![seq!['a', 'd', 'j', '-', 'i']]));
    assert(seq!['く', 'て'] != seq!['い']) by { assert(seq!['く', 'て'].last() != seq!['い'].last() || seq!['く', 'て'].len() != seq!['い'].len()); }
    lemma_rule_offered(x + seq!['く', 'て'], 56);
}

} // verus!
