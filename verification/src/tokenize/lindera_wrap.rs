//! The per-morpheme tokens the UniDic tokenizer yields, reduced to the
//! fields the segmenter consumes. Running the tokenizer itself happens
//! outside the library; this module turns one raw morpheme into a
//! `LinderaToken` and buckets its part of speech.

use vstd::prelude::*;

use crate::text::{chars_of, eq_chars, starts_with, starts_with_exec, str_is, utf8_len, utf8_width_exec};

verus! {

/// Per-morpheme output of lindera on UniDic.
#[derive(Debug, Clone)]
pub struct LinderaToken {
    pub surface: String,
    /// Byte offset of the surface in the input.
    pub byte_start: usize,
    pub byte_end: usize,
    /// Character offset of the surface in the input.
    pub char_start: usize,
    pub char_end: usize,
    pub lemma: String,
    pub reading: String,
    /// Major POS class (`名詞`/`動詞`/`形容詞`/…).
    pub pos1: String,
    pub pos2: String,
}

/// The coarse bucket of a UniDic major POS class.
pub open spec fn coarse_pos_spec(pos1: Seq<char>) -> Seq<char> {
    if pos1 == seq!['名', '詞'] {
        "noun"@
    } else if pos1 == seq!['動', '詞'] {
        "verb"@
    } else if pos1 == seq!['形', '容', '詞'] {
        "adj"@
    } else if pos1 == seq!['形', '状', '詞'] {
        "adj"@
    } else if pos1 == seq!['助', '動', '詞'] {
        "aux"@
    } else if pos1 == seq!['助', '詞'] {
        "particle"@
    } else if pos1 == seq!['補', '助', '記', '号'] {
        "punctuation"@
    } else if pos1 == seq!['記', '号'] {
        "punctuation"@
    } else if pos1 == seq!['接', '続', '詞'] {
        "conj"@
    } else if pos1 == seq!['感', '動', '詞'] {
        "interj"@
    } else if pos1 == seq!['代', '名', '詞'] {
        "pron"@
    } else if pos1 == seq!['副', '詞'] {
        "adv"@
    } else if pos1 == seq!['連', '体', '詞'] {
        "adn"@
    } else if pos1 == seq!['接', '頭', '辞'] {
        "prefix"@
    } else if pos1 == seq!['接', '尾', '辞'] {
        "suffix"@
    } else {
        "other"@
    }
}

/// Coarse POS bucket used downstream. Only the major class decides.
pub fn coarse_pos(pos1: &str, pos2: &str) -> (r: &'static str)
    ensures
        r@ == coarse_pos_spec(pos1@),
{
    if str_is(pos1, &['名', '詞']) {
        "noun"
    } else if str_is(pos1, &['動', '詞']) {
        "verb"
    } else if str_is(pos1, &['形', '容', '詞']) {
        "adj"
    } else if str_is(pos1, &['形', '状', '詞']) {
        "adj"
    } else if str_is(pos1, &['助', '動', '詞']) {
        "aux"
    } else if str_is(pos1, &['助', '詞']) {
        "particle"
    } else if str_is(pos1, &['補', '助', '記', '号']) {
        "punctuation"
    } else if str_is(pos1, &['記', '号']) {
        "punctuation"
    } else if str_is(pos1, &['接', '続', '詞']) {
        "conj"
    } else if str_is(pos1, &['感', '動', '詞']) {
        "interj"
    } else if str_is(pos1, &['代', '名', '詞']) {
        "pron"
    } else if str_is(pos1, &['副', '詞']) {
        "adv"
    } else if str_is(pos1, &['連', '体', '詞']) {
        "adn"
    } else if str_is(pos1, &['接', '頭', '辞']) {
        "prefix"
    } else if str_is(pos1, &['接', '尾', '辞']) {
        "suffix"
    } else {
        "other"
    }
}

/// The classes a `Token` carries: noun, verb, adj, aux, particle,
/// punctuation, other.
pub open spec fn is_token_class(c: Seq<char>) -> bool {
    ||| c == "noun"@
    ||| c == "verb"@
    ||| c == "adj"@
    ||| c == "aux"@
    ||| c == "particle"@
    ||| c == "punctuation"@
    ||| c == "other"@
}

/// A coarse bucket as a token class: the finer buckets (conjunction,
/// interjection, pronoun, adverb, adnominal, prefix, suffix) are
/// `other`.
pub open spec fn token_class(c: Seq<char>) -> Seq<char> {
    if is_token_class(c) {
        c
    } else {
        "other"@
    }
}

/// The token class of a JMdict part-of-speech tag: `n` and `n-…` are
/// nouns, `v…` verbs, `adj…` adjectives, `aux…` and `cop` auxiliaries,
/// `prt` particles, anything else `other`.
pub open spec fn jmdict_class(tag: Seq<char>) -> Seq<char> {
    if tag == seq!['n'] || starts_with(tag, seq!['n', '-']) {
        "noun"@
    } else if starts_with(tag, seq!['v']) {
        "verb"@
    } else if starts_with(tag, seq!['a', 'd', 'j']) {
        "adj"@
    } else if starts_with(tag, seq!['a', 'u', 'x']) || tag == seq!['c', 'o', 'p'] {
        "aux"@
    } else if tag == seq!['p', 'r', 't'] {
        "particle"@
    } else {
        "other"@
    }
}

pub proof fn lemma_classes(c: Seq<char>, tag: Seq<char>)
    ensures
        is_token_class(token_class(c)),
        is_token_class(jmdict_class(tag)),
        is_token_class("other"@),
{
}

pub fn token_class_exec(c: &'static str) -> (r: &'static str)
    ensures
        r@ == token_class(c@),
{
    let cs = chars_of(c);
    if eq_chars(cs.as_slice(), chars_of("noun").as_slice()) || eq_chars(
        cs.as_slice(),
        chars_of("verb").as_slice(),
    ) || eq_chars(cs.as_slice(), chars_of("adj").as_slice()) || eq_chars(
        cs.as_slice(),
        chars_of("aux").as_slice(),
    ) || eq_chars(cs.as_slice(), chars_of("particle").as_slice()) || eq_chars(
        cs.as_slice(),
        chars_of("punctuation").as_slice(),
    ) || eq_chars(cs.as_slice(), chars_of("other").as_slice()) {
        c
    } else {
        "other"
    }
}

pub fn jmdict_class_exec(tag: &str) -> (r: &'static str)
    ensures
        r@ == jmdict_class(tag@),
{
    let t = chars_of(tag);
    let n: Vec<char> = vec!['n'];
    let n_dash: Vec<char> = vec!['n', '-'];
    let v: Vec<char> = vec!['v'];
    let adj: Vec<char> = vec!['a', 'd', 'j'];
    let aux: Vec<char> = vec!['a', 'u', 'x'];
    let cop: Vec<char> = vec!['c', 'o', 'p'];
    let prt: Vec<char> = vec!['p', 'r', 't'];
    assert(n@ =~= seq!['n'] && n_dash@ =~= seq!['n', '-'] && v@ =~= seq!['v']);
    assert(adj@ =~= seq!['a', 'd', 'j'] && aux@ =~= seq!['a', 'u', 'x']);
    assert(cop@ =~= seq!['c', 'o', 'p'] && prt@ =~= seq!['p', 'r', 't']);
    if eq_chars(t.as_slice(), n.as_slice()) || starts_with_exec(t.as_slice(), n_dash.as_slice()) {
        "noun"
    } else if starts_with_exec(t.as_slice(), v.as_slice()) {
        "verb"
    } else if starts_with_exec(t.as_slice(), adj.as_slice()) {
        "adj"
    } else if starts_with_exec(t.as_slice(), aux.as_slice()) || eq_chars(t.as_slice(), cop.as_slice()) {
        "aux"
    } else if eq_chars(t.as_slice(), prt.as_slice()) {
        "particle"
    } else {
        "other"
    }
}

/// `details[i]` when it exists.
pub open spec fn detail(details: Seq<String>, i: int) -> Option<Seq<char>> {
    if 0 <= i < details.len() {
        Some(details[i]@)
    } else {
        None
    }
}

/// What `token_from_parts` builds from one raw morpheme: UniDic column 0
/// and 1 are the POS classes, the lemma is column 7 (else 10, else the
/// surface), the reading column 17 (else 9, else empty).
pub open spec fn token_spec(
    text: Seq<char>,
    surface: Seq<char>,
    byte_start: int,
    byte_end: int,
    details: Seq<String>,
    t: LinderaToken,
) -> bool {
    &&& t.surface@ == surface
    &&& t.byte_start == byte_start
    &&& t.byte_end == byte_end
    &&& t.char_start <= text.len()
    &&& utf8_len(text.take(t.char_start as int)) == byte_start
    &&& t.char_end == t.char_start + surface.len()
    &&& t.pos1@ == (match detail(details, 0) {
        Some(s) => s,
        None => seq![],
    })
    &&& t.pos2@ == (match detail(details, 1) {
        Some(s) => s,
        None => seq![],
    })
    &&& t.lemma@ == (match detail(details, 7) {
        Some(s) => s,
        None => match detail(details, 10) {
            Some(s) => s,
            None => surface,
        },
    })
    &&& t.reading@ == (match detail(details, 17) {
        Some(s) => s,
        None => match detail(details, 9) {
            Some(s) => s,
            None => seq![],
        },
    })
}

fn detail_or(details: &Vec<String>, i: usize, j: usize, fallback: &str) -> (r: String)
    ensures
        r@ == (match detail(details@, i as int) {
            Some(s) => s,
            None => match detail(details@, j as int) {
                Some(s) => s,
                None => fallback@,
            },
        }),
{
    if i < details.len() {
        details[i].clone()
    } else if j < details.len() {
        details[j].clone()
    } else {
        fallback.to_owned()
    }
}

/// Build the compact token for one morpheme of `text`: `surface` found
/// at bytes `byte_start..byte_end`, with UniDic feature columns
/// `details`. `byte_start` must fall on a character boundary of `text`.
pub fn token_from_parts(
    text: &str,
    surface: &str,
    byte_start: usize,
    byte_end: usize,
    details: &Vec<String>,
) -> (t: LinderaToken)
    requires
        exists|k: int| 0 <= k <= text@.len() && utf8_len(#[trigger] text@.take(k)) == byte_start,
        text@.len() + surface@.len() <= usize::MAX,
    ensures
        token_spec(text@, surface@, byte_start as int, byte_end as int, details@, t),
{
    let chars = chars_of(text);
    let n = chars.len();
    let mut k: usize = 0;
    let mut acc: usize = 0;
    let ghost target = choose|k: int| 0 <= k <= text@.len() && utf8_len(#[trigger] text@.take(k)) == byte_start;
    proof {
        assert(text@.take(0) =~= seq![]);
        lemma_utf8_prefix_mono(text@, k as int, target);
    }
    while acc < byte_start && k < n
        invariant
            n == text@.len(),
            chars@ == text@,
            k <= target <= n,
            acc == utf8_len(text@.take(k as int)),
            utf8_len(text@.take(target)) == byte_start,
        decreases n - k,
    {
        proof {
            if k == target {
                assert(false);
            }
            assert(text@.take(k + 1).drop_last() =~= text@.take(k as int));
            lemma_utf8_prefix_mono(text@, k + 1, target);
        }
        acc = acc + utf8_width_exec(chars[k]);
        k = k + 1;
    }
    proof {
        if k < target {
            lemma_utf8_prefix_strict(text@, k as int, target);
        }
    }
    let sc = chars_of(surface);
    let lemma = detail_or(details, 7, 10, surface);
    let reading = detail_or(details, 17, 9, "");
    let pos1 = detail_or(details, 0, 0, "");
    let pos2 = detail_or(details, 1, 1, "");
    proof {
        reveal_strlit("");
    }
    assert(k == target);
    assert(utf8_len(text@.take(k as int)) == byte_start);
    assert(pos1@ == (match detail(details@, 0) { Some(s) => s, None => seq![] }));
    assert(lemma@ == (match detail(details@, 7) { Some(s) => s, None => match detail(details@, 10) { Some(s) => s, None => surface@ } }));
    let t = LinderaToken {
        surface: surface.to_owned(),
        byte_start,
        byte_end,
        char_start: k,
        char_end: k + sc.len(),
        lemma,
        reading,
        pos1,
        pos2,
    };
    assert(t.surface@ == surface@);
    assert(t.char_end == t.char_start + surface@.len());
    assert(t.pos2@ == (match detail(details@, 1) { Some(s) => s, None => seq![] }));
    assert(t.reading@ == (match detail(details@, 17) { Some(s) => s, None => match detail(details@, 9) { Some(s) => s, None => seq![] } }));
    t
}

proof fn lemma_utf8_prefix_mono(s: Seq<char>, a: int, b: int)
    requires
        0 <= a <= b <= s.len(),
    ensures
        utf8_len(s.take(a)) <= utf8_len(s.take(b)),
    decreases b - a,
{
    if a < b {
        assert(s.take(b).drop_last() =~= s.take(b - 1));
        lemma_utf8_prefix_mono(s, a, b - 1);
    }
}

proof fn lemma_utf8_prefix_strict(s: Seq<char>, a: int, b: int)
    requires
        0 <= a < b <= s.len(),
    ensures
        utf8_len(s.take(a)) < utf8_len(s.take(b)),
{
    assert(s.take(b).drop_last() =~= s.take(b - 1));
    lemma_utf8_prefix_mono(s, a, b - 1);
}


/// One morpheme as the analyser reports it: its surface, its byte span
/// in the text, and its UniDic feature columns.
#[derive(Debug, Clone)]
pub struct RawMorpheme {
    pub surface: String,
    pub byte_start: usize,
    pub byte_end: usize,
    pub details: Vec<String>,
}

/// Byte offset `b` of `text` falls on a character boundary.
pub open spec fn on_char_boundary(text: Seq<char>, b: int) -> bool {
    exists|k: int| 0 <= k <= text.len() && utf8_len(#[trigger] text.take(k)) == b
}

/// The tokens of a whole morpheme stream, one per morpheme and in
/// stream order, each built as `token_from_parts` builds it.
pub fn tokens_from_morphemes(text: &str, raws: &Vec<RawMorpheme>) -> (r: Vec<LinderaToken>)
    requires
        forall|k: int| 0 <= k < raws@.len() ==> on_char_boundary(text@, (#[trigger] raws@[k]).byte_start as int),
        forall|k: int| 0 <= k < raws@.len() ==> text@.len() + (#[trigger] raws@[k]).surface@.len() <= usize::MAX,
    ensures
        r@.len() == raws@.len(),
        forall|k: int|
            0 <= k < raws@.len() ==> token_spec(
                text@,
                (#[trigger] raws@[k]).surface@,
                raws@[k].byte_start as int,
                raws@[k].byte_end as int,
                raws@[k].details@,
                r@[k],
            ),
{
    let mut out: Vec<LinderaToken> = Vec::new();
    let mut i: usize = 0;
    while i < raws.len()
        invariant
            i <= raws@.len(),
            out@.len() == i,
            forall|k: int| 0 <= k < raws@.len() ==> on_char_boundary(text@, (#[trigger] raws@[k]).byte_start as int),
            forall|k: int| 0 <= k < raws@.len() ==> text@.len() + (#[trigger] raws@[k]).surface@.len() <= usize::MAX,
            forall|k: int|
                0 <= k < i ==> token_spec(
                    text@,
                    (#[trigger] raws@[k]).surface@,
                    raws@[k].byte_start as int,
                    raws@[k].byte_end as int,
                    raws@[k].details@,
                    out@[k],
                ),
        decreases raws@.len() - i,
    {
        let m = &raws[i];
        assert(on_char_boundary(text@, raws@[i as int].byte_start as int));
        let t = token_from_parts(text, m.surface.as_str(), m.byte_start, m.byte_end, &m.details);
        out.push(t);
        i = i + 1;
    }
    out
}

} // verus!
