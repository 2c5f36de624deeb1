//! Longest-match dictionary segmentation pass over a sentence.
//!
//! Combines lindera tokenization with JMDict lookups. For each
//! starting character position, we try the longest substring first,
//! deinflect each candidate, and accept the first that matches JMDict
//! with compatible rule tags. Failed positions emit lindera's own
//! token at that offset (or a single-char fallback if even that's
//! absent).

use vstd::prelude::*;

use super::deinflect::{CandView, deinflect, deinflect_spec, cands_view};
use super::jmdict_index::{JmdictEntry, JmdictIndex};
use super::lindera_wrap::{
    LinderaToken, coarse_pos, coarse_pos_spec, jmdict_class, jmdict_class_exec, token_class,
    token_class_exec,
};
use super::{Token, TokenView, tokens_view};
use super::lindera_wrap::{is_token_class, lemma_classes};
use crate::text::{chars_of, eq_chars, string_of, sub_string};

verus! {

/// Heuristic cap so we don't try absurd lookups on long lines.
pub const MAX_SPAN: usize = 16;

/// A dictionary match: entry number, lemma, reading, POS tag.
pub type HitView = (int, Seq<char>, Seq<char>, Seq<char>);

struct DictHit {
    seq: i64,
    lemma: String,
    reading: String,
    pos: String,
}

spec fn hit_view(h: DictHit) -> HitView {
    (h.seq as int, h.lemma@, h.reading@, h.pos@)
}

/// First string of `v`, or `d` when `v` is empty.
pub open spec fn first_or(v: Seq<String>, d: Seq<char>) -> Seq<char> {
    if v.len() > 0 {
        v[0]@
    } else {
        d
    }
}

/// A candidate with rule tags only matches entries carrying one of them;
/// the untagged identity candidate matches any entry.
pub open spec fn compatible(tags: Seq<Seq<char>>, e: JmdictEntry) -> bool {
    tags.len() == 0 || exists|i: int| 0 <= i < e.rules@.len() && tags.contains(#[trigger] e.rules@[i]@)
}

/// The hit an entry yields for a candidate stem.
pub open spec fn hit_of(stem: Seq<char>, e: JmdictEntry) -> HitView {
    (
        e.seq as int,
        first_or(e.kanji@, first_or(e.readings@, stem)),
        first_or(e.readings@, seq![]),
        jmdict_class(first_or(e.pos_tags@, "other"@)),
    )
}

/// The hit of the first compatible entry of `es[j..]`.
pub open spec fn first_compatible(c: CandView, es: Seq<JmdictEntry>, j: int) -> Option<HitView>
    decreases es.len() - j,
{
    if j < 0 || j >= es.len() {
        None
    } else if compatible(c.1, es[j]) {
        Some(hit_of(c.0, es[j]))
    } else {
        first_compatible(c, es, j + 1)
    }
}

/// The first hit over candidates `cs[i..]`, each looked up in `dict`.
pub open spec fn first_hit(cs: Seq<CandView>, i: int, dict: JmdictIndex) -> Option<HitView>
    decreases cs.len() - i,
{
    if i < 0 || i >= cs.len() {
        None
    } else {
        match first_compatible(cs[i], dict.lookup_spec(cs[i].0), 0) {
            Some(h) => Some(h),
            None => first_hit(cs, i + 1, dict),
        }
    }
}

/// The dictionary hit for a substring, trying its deinflections in order.
pub open spec fn try_dict_spec(candidate: Seq<char>, dict: JmdictIndex) -> Option<HitView> {
    first_hit(deinflect_spec(candidate), 0, dict)
}

/// The longest length `len' <= len` whose substring at `pos` hits.
pub open spec fn longest_hit(text: Seq<char>, dict: JmdictIndex, pos: int, len: int) -> Option<
    (int, HitView),
>
    decreases len,
{
    if len < 1 {
        None
    } else {
        match try_dict_spec(text.subrange(pos, pos + len), dict) {
            Some(h) => Some((len, h)),
            None => longest_hit(text, dict, pos, len - 1),
        }
    }
}

/// The lindera token starting at character `pos` (the last one, when
/// several do).
pub open spec fn lindera_at(lts: Seq<LinderaToken>, pos: int, j: int) -> Option<LinderaToken>
    decreases j,
{
    if j <= 0 {
        None
    } else if lts[j - 1].char_start == pos {
        Some(lts[j - 1])
    } else {
        lindera_at(lts, pos, j - 1)
    }
}

/// Lindera tokens whose character spans are non-empty.
pub open spec fn spans_nonempty(lts: Seq<LinderaToken>) -> bool {
    forall|i: int| 0 <= i < lts.len() ==> #[trigger] lts[i].char_start < lts[i].char_end
}

/// Tokens covering `text[pos..]`.
pub open spec fn segment_from(text: Seq<char>, lts: Seq<LinderaToken>, dict: JmdictIndex, pos: int) -> Seq<
    TokenView,
>
    decreases text.len() - pos,
{
    if pos < 0 || pos >= text.len() {
        seq![]
    } else {
        let max_len = if text.len() - pos < MAX_SPAN {
            text.len() - pos
        } else {
            MAX_SPAN as int
        };
        match longest_hit(text, dict, pos, max_len) {
            Some((len, h)) => {
                proof {
                    lemma_longest_hit_len(text, dict, pos, max_len);
                }
                seq![
                    TokenView {
                        span: (pos, pos + len),
                        surface: text.subrange(pos, pos + len),
                        lemma: h.1,
                        reading: h.2,
                        pos: h.3,
                        dict_seq: Some(h.0),
                    },
                ] + segment_from(text, lts, dict, pos + len)
            },
            None => match lindera_at(lts, pos, lts.len() as int) {
                Some(lt) => if lt.char_end <= pos {
                    seq![]
                } else {
                    seq![
                        TokenView {
                            span: (lt.char_start as int, lt.char_end as int),
                            surface: lt.surface@,
                            lemma: lt.lemma@,
                            reading: lt.reading@,
                            pos: token_class(coarse_pos_spec(lt.pos1@)),
                            dict_seq: None,
                        },
                    ] + (if lt.char_end as int <= text.len() {
                        segment_from(text, lts, dict, lt.char_end as int)
                    } else {
                        seq![]
                    })
                },
                None => seq![
                    TokenView {
                        span: (pos, pos + 1),
                        surface: seq![text[pos]],
                        lemma: seq![text[pos]],
                        reading: seq![],
                        pos: "other"@,
                        dict_seq: None,
                    },
                ] + segment_from(text, lts, dict, pos + 1),
            },
        }
    }
}

/// What `segment(text, lindera_tokens, dict)` returns.
pub open spec fn segment_spec(text: Seq<char>, lts: Seq<LinderaToken>, dict: JmdictIndex) -> Seq<
    TokenView,
> {
    segment_from(text, lts, dict, 0)
}

pub proof fn lemma_longest_hit_len(text: Seq<char>, dict: JmdictIndex, pos: int, len: int)
    ensures
        longest_hit(text, dict, pos, len) matches Some((l, _)) ==> 1 <= l <= len,
    decreases len,
{
    if len >= 1 {
        lemma_longest_hit_len(text, dict, pos, len - 1);
    }
}

// ----------------------------------------------------------- exec parts

fn first_string_or(v: &Vec<String>, d: &str) -> (r: String)
    ensures
        r@ == first_or(v@, d@),
{
    if v.len() > 0 {
        v[0].clone()
    } else {
        d.to_owned()
    }
}

fn compatible_exec(tags: &Vec<&'static str>, e: &JmdictEntry) -> (r: bool)
    ensures
        r == compatible(super::deinflect::tags_view(tags@), *e),
{
    let ghost tv = super::deinflect::tags_view(tags@);
    if tags.len() == 0 {
        return true;
    }
    let mut i: usize = 0;
    while i < e.rules.len()
        invariant
            tv == super::deinflect::tags_view(tags@),
            tags@.len() > 0,
            i <= e.rules@.len(),
            forall|t: int| 0 <= t < i ==> !tv.contains(#[trigger] e.rules@[t]@),
        decreases e.rules@.len() - i,
    {
        let rc = chars_of(e.rules[i].as_str());
        let mut k: usize = 0;
        while k < tags.len()
            invariant
                tv == super::deinflect::tags_view(tags@),
                k <= tags@.len(),
                i < e.rules@.len(),
                rc@ == e.rules@[i as int]@,
                forall|t: int| 0 <= t < k ==> tv[t] != rc@,
            decreases tags@.len() - k,
        {
            let tc = chars_of(tags[k]);
            if eq_chars(tc.as_slice(), rc.as_slice()) {
                assert(tv[k as int] == rc@);
                assert(tv.contains(e.rules@[i as int]@));
                return true;
            }
            k = k + 1;
        }
        assert(!tv.contains(rc@));
        i = i + 1;
    }
    false
}

/// `try_dict_spec(candidate, dict)` at run time.
fn try_dict(candidate: &str, dict: &JmdictIndex) -> (r: Option<DictHit>)
    ensures
        match r {
            Some(h) => try_dict_spec(candidate@, *dict) == Some(hit_view(h)),
            None => try_dict_spec(candidate@, *dict) is None,
        },
{
    let cands = deinflect(candidate);
    let ghost cs = cands_view(cands@);
    let mut i: usize = 0;
    while i < cands.len()
        invariant
            cs == cands_view(cands@),
            cs == deinflect_spec(candidate@),
            i <= cands@.len(),
            first_hit(cs, 0, *dict) == first_hit(cs, i as int, *dict),
        decreases cands@.len() - i,
    {
        let cand = &cands[i];
        assert(cs[i as int] == (cand.stem@, super::deinflect::tags_view(cand.rules_out@)));
        let entries = dict.lookup(cand.stem.as_str());
        let mut j: usize = 0;
        while j < entries.len()
            invariant
                j <= entries@.len(),
                entries@.len() == dict.lookup_spec(cand.stem@).len(),
                forall|t: int|
                    0 <= t < entries@.len() ==> *#[trigger] entries@[t] == dict.lookup_spec(
                        cand.stem@,
                    )[t],
                first_compatible(cs[i as int], dict.lookup_spec(cand.stem@), 0) == first_compatible(
                    cs[i as int],
                    dict.lookup_spec(cand.stem@),
                    j as int,
                ),
                i < cs.len(),
                cs == deinflect_spec(candidate@),
                first_hit(cs, 0, *dict) == first_hit(cs, i as int, *dict),
                cs[i as int] == (cand.stem@, super::deinflect::tags_view(cand.rules_out@)),
            decreases entries@.len() - j,
        {
            let entry: &JmdictEntry = entries[j];
            if compatible_exec(&cand.rules_out, entry) {
                let lemma = if entry.kanji.len() > 0 {
                    entry.kanji[0].clone()
                } else {
                    first_string_or(&entry.readings, cand.stem.as_str())
                };
                let reading = first_string_or(&entry.readings, "");
                let tag = first_string_or(&entry.pos_tags, "other");
                let pos = jmdict_class_exec(tag.as_str()).to_owned();
                proof {
                    reveal_strlit("");
                    let es = dict.lookup_spec(cand.stem@);
                    assert(*entry == es[j as int]);
                    assert(first_compatible(cs[i as int], es, j as int) == Some(
                        hit_of(cand.stem@, *entry),
                    ));
                    assert(first_hit(cs, i as int, *dict) == Some(hit_of(cand.stem@, *entry)));
                }
                let h = DictHit { seq: entry.seq, lemma, reading, pos };
                assert(hit_view(h) == hit_of(cand.stem@, *entry));
                return Some(h);
            }
            j = j + 1;
        }
        i = i + 1;
    }
    None
}

/// `longest_hit(text, dict, pos, max_len)` at run time.
fn longest_hit_exec(chars: &[char], dict: &JmdictIndex, pos: usize, max_len: usize) -> (r: Option<
    (usize, DictHit),
>)
    requires
        pos + max_len <= chars@.len(),
    ensures
        match r {
            Some((l, h)) => longest_hit(chars@, *dict, pos as int, max_len as int) == Some(
                (l as int, hit_view(h)),
            ) && 1 <= l <= max_len,
            None => longest_hit(chars@, *dict, pos as int, max_len as int) is None,
        },
{
    let mut len = max_len;
    let n = chars.len();
    while len >= 1
        invariant
            n == chars@.len(),
            pos + max_len <= chars@.len(),
            len <= max_len,
            longest_hit(chars@, *dict, pos as int, max_len as int) == longest_hit(
                chars@,
                *dict,
                pos as int,
                len as int,
            ),
        decreases len,
    {
        let candidate = sub_string(chars, pos, pos + len);
        match try_dict(candidate.as_str(), dict) {
            Some(h) => {
                return Some((len, h));
            },
            None => {},
        }
        len = len - 1;
    }
    None
}

/// The last lindera token starting at character `pos`.
fn lindera_at_exec(lts: &[LinderaToken], pos: usize) -> (r: Option<usize>)
    ensures
        match r {
            Some(j) => j < lts@.len() && lts@[j as int].char_start == pos && lindera_at(lts@, pos as int, lts@.len() as int) == Some(
                lts@[j as int],
            ),
            None => lindera_at(lts@, pos as int, lts@.len() as int) is None,
        },
{
    let mut j = lts.len();
    while j > 0
        invariant
            j <= lts@.len(),
            lindera_at(lts@, pos as int, lts@.len() as int) == lindera_at(lts@, pos as int, j as int),
        decreases j,
    {
        if lts[j - 1].char_start == pos {
            return Some(j - 1);
        }
        j = j - 1;
    }
    None
}

/// Segment `text` against `dict`, using `lindera_tokens` (already
/// produced by the morphological tokenizer) as the per-position
/// fallback when no dictionary match is found.
pub fn segment(text: &str, lindera_tokens: &[LinderaToken], dict: &JmdictIndex) -> (r: Vec<Token>)
    requires
        spans_nonempty(lindera_tokens@),
    ensures
        tokens_view(r@) == segment_spec(text@, lindera_tokens@, *dict),
{
    let chars = chars_of(text);
    let n = chars.len();
    let mut out: Vec<Token> = Vec::new();
    let mut pos: usize = 0;
    assert(tokens_view(out@) + segment_from(text@, lindera_tokens@, *dict, 0) =~= segment_spec(
        text@,
        lindera_tokens@,
        *dict,
    ));
    while pos < n
        invariant
            n == text@.len(),
            chars@ == text@,
            spans_nonempty(lindera_tokens@),
            tokens_view(out@) + segment_from(text@, lindera_tokens@, *dict, pos as int)
                == segment_spec(text@, lindera_tokens@, *dict),
        decreases (if pos <= n {
            n - pos
        } else {
            0
        }),
    {
        let ghost before = tokens_view(out@);
        let max_len = if n - pos < MAX_SPAN {
            n - pos
        } else {
            MAX_SPAN
        };
        let accepted = longest_hit_exec(chars.as_slice(), dict, pos, max_len);
        match accepted {
            Some((l, hit)) => {
                let ghost hv = hit_view(hit);
                let surface = sub_string(chars.as_slice(), pos, pos + l);
                out.push(
                    Token {
                        span: (pos, pos + l),
                        surface,
                        lemma: hit.lemma,
                        reading: hit.reading,
                        pos: hit.pos,
                        dict_seq: Some(hit.seq),
                    },
                );
                proof {
                    let tv = TokenView {
                        span: (pos as int, pos + l),
                        surface: text@.subrange(pos as int, pos + l),
                        lemma: hv.1,
                        reading: hv.2,
                        pos: hv.3,
                        dict_seq: Some(hv.0),
                    };
                    assert(segment_from(text@, lindera_tokens@, *dict, pos as int) == seq![tv]
                        + segment_from(text@, lindera_tokens@, *dict, pos + l));
                    assert(tokens_view(out@) =~= before.push(tv));
                    assert(before.push(tv) + segment_from(text@, lindera_tokens@, *dict, pos + l)
                        =~= before + (seq![tv] + segment_from(text@, lindera_tokens@, *dict, pos + l)));
                }
                pos = pos + l;
            },
            None => {
                match lindera_at_exec(lindera_tokens, pos) {
                    Some(j) => {
                        let lt = &lindera_tokens[j];
                        assert(lt.char_start < lt.char_end);
                        out.push(
                            Token {
                                span: (lt.char_start, lt.char_end),
                                surface: lt.surface.clone(),
                                lemma: lt.lemma.clone(),
                                reading: lt.reading.clone(),
                                pos: token_class_exec(coarse_pos(lt.pos1.as_str(), lt.pos2.as_str())).to_owned(),
                                dict_seq: None,
                            },
                        );
                        proof {
                            let tv = TokenView {
                                span: (lt.char_start as int, lt.char_end as int),
                                surface: lt.surface@,
                                lemma: lt.lemma@,
                                reading: lt.reading@,
                                pos: token_class(coarse_pos_spec(lt.pos1@)),
                                dict_seq: None,
                            };
                            let rest = if lt.char_end as int <= text@.len() {
                                segment_from(text@, lindera_tokens@, *dict, lt.char_end as int)
                            } else {
                                seq![]
                            };
                            assert(segment_from(text@, lindera_tokens@, *dict, pos as int) == seq![tv]
                                + rest);
                            assert(rest == segment_from(text@, lindera_tokens@, *dict, lt.char_end as int));
                            assert(tokens_view(out@) =~= before.push(tv));
                            assert(before.push(tv) + rest =~= before + (seq![tv] + rest));
                        }
                        pos = lt.char_end;
                    },
                    None => {
                        let c = chars[pos];
                        let mut one: Vec<char> = Vec::new();
                        one.push(c);
                        out.push(
                            Token {
                                span: (pos, pos + 1),
                                surface: string_of(one.as_slice()),
                                lemma: string_of(one.as_slice()),
                                reading: String::new(),
                                pos: "other".to_owned(),
                                dict_seq: None,
                            },
                        );
                        proof {
                            let tv = TokenView {
                                span: (pos as int, pos + 1),
                                surface: seq![text@[pos as int]],
                                lemma: seq![text@[pos as int]],
                                reading: seq![],
                                pos: "other"@,
                                dict_seq: None,
                            };
                            assert(one@ =~= seq![c]);
                            assert(segment_from(text@, lindera_tokens@, *dict, pos as int) == seq![tv]
                                + segment_from(text@, lindera_tokens@, *dict, pos + 1));
                            assert(tokens_view(out@) =~= before.push(tv));
                            assert(before.push(tv) + segment_from(text@, lindera_tokens@, *dict, pos + 1)
                                =~= before + (seq![tv] + segment_from(text@, lindera_tokens@, *dict, pos + 1)));
                        }
                        pos = pos + 1;
                    },
                }
            },
        }
    }
    assert(tokens_view(out@) + seq![] =~= tokens_view(out@));
    out
}


// ----------------------------------------------------------------- laws

/// Lindera tokens that end within a text of `n` characters.
pub open spec fn ends_within(lts: Seq<LinderaToken>, n: int) -> bool {
    forall|i: int| 0 <= i < lts.len() ==> #[trigger] lts[i].char_end <= n
}

proof fn lemma_lindera_at(lts: Seq<LinderaToken>, pos: int, j: int, n: int)
    requires
        0 <= j <= lts.len(),
    ensures
        lindera_at(lts, pos, j) matches Some(t) ==> {
            &&& t.char_start == pos
            &&& spans_nonempty(lts) ==> t.char_start < t.char_end
            &&& ends_within(lts, n) ==> t.char_end <= n
        },
    decreases j,
{
    if j > 0 && lts[j - 1].char_start != pos {
        lemma_lindera_at(lts, pos, j - 1, n);
    }
}

/// Spans of consecutive tokens meet, each span is non-empty, the first
/// starts at `pos`, and the last ends at the text's end when every
/// fallback token ends within the text.
pub open spec fn tiles_from(r: Seq<TokenView>, pos: int, n: int, closed: bool) -> bool {
    &&& (r.len() > 0 ==> r[0].span.0 == pos)
    &&& forall|i: int| 0 <= i < r.len() ==> #[trigger] r[i].span.0 < r[i].span.1
    &&& forall|i: int| 0 <= i < r.len() - 1 ==> #[trigger] r[i].span.1 == r[i + 1].span.0
    &&& (closed && r.len() > 0 ==> r.last().span.1 == n)
}

proof fn lemma_tiles_cons(t: TokenView, rest: Seq<TokenView>, pos: int, next: int, n: int, closed: bool)
    requires
        t.span == (pos, next),
        pos < next,
        tiles_from(rest, next, n, closed),
        closed && rest.len() == 0 ==> next == n,
    ensures
        tiles_from(seq![t] + rest, pos, n, closed),
{
    let r = seq![t] + rest;
    assert forall|i: int| 0 <= i < r.len() implies #[trigger] r[i].span.0 < r[i].span.1 by {
        if i > 0 {
            assert(r[i] == rest[i - 1]);
        }
    }
    assert forall|i: int| 0 <= i < r.len() - 1 implies #[trigger] r[i].span.1 == r[i + 1].span.0 by {
        if i > 0 {
            assert(r[i] == rest[i - 1] && r[i + 1] == rest[i]);
        }
    }
    if rest.len() > 0 {
        assert(r.last() == rest.last());
    }
}

proof fn lemma_segment_tiles(text: Seq<char>, lts: Seq<LinderaToken>, dict: JmdictIndex, pos: int)
    requires
        spans_nonempty(lts),
        0 <= pos <= text.len(),
    ensures
        tiles_from(segment_from(text, lts, dict, pos), pos, text.len() as int, ends_within(lts, text.len() as int)),
        (segment_from(text, lts, dict, pos).len() == 0) == (pos == text.len()),
    decreases text.len() - pos,
{
    let n = text.len() as int;
    let closed = ends_within(lts, n);
    if pos < n {
        let max_len = if text.len() - pos < MAX_SPAN {
            text.len() - pos
        } else {
            MAX_SPAN as int
        };
        match longest_hit(text, dict, pos, max_len) {
            Some((len, h)) => {
                lemma_longest_hit_len(text, dict, pos, max_len);
                lemma_segment_tiles(text, lts, dict, pos + len);
                let rest = segment_from(text, lts, dict, pos + len);
                let t = TokenView {
                    span: (pos, pos + len),
                    surface: text.subrange(pos, pos + len),
                    lemma: h.1,
                    reading: h.2,
                    pos: h.3,
                    dict_seq: Some(h.0),
                };
                lemma_tiles_cons(t, rest, pos, pos + len, n, closed);
            },
            None => {
                lemma_lindera_at(lts, pos, lts.len() as int, n);
                match lindera_at(lts, pos, lts.len() as int) {
                    Some(lt) => {
                        let t = TokenView {
                            span: (lt.char_start as int, lt.char_end as int),
                            surface: lt.surface@,
                            lemma: lt.lemma@,
                            reading: lt.reading@,
                            pos: token_class(coarse_pos_spec(lt.pos1@)),
                            dict_seq: None,
                        };
                        if lt.char_end as int <= n {
                            lemma_segment_tiles(text, lts, dict, lt.char_end as int);
                            let rest = segment_from(text, lts, dict, lt.char_end as int);
                            lemma_tiles_cons(t, rest, pos, lt.char_end as int, n, closed);
                        } else {
                            lemma_tiles_cons(t, seq![], pos, lt.char_end as int, n, closed);
                            assert(seq![t] + seq![] =~= seq![t]);
                        }
                    },
                    None => {
                        lemma_segment_tiles(text, lts, dict, pos + 1);
                        let rest = segment_from(text, lts, dict, pos + 1);
                        let t = TokenView {
                            span: (pos, pos + 1),
                            surface: seq![text[pos]],
                            lemma: seq![text[pos]],
                            reading: seq![],
                            pos: "other"@,
                            dict_seq: None,
                        };
                        lemma_tiles_cons(t, rest, pos, pos + 1, n, closed);
                    },
                }
            },
        }
    }
}

/// The tokens of `segment` cover the line left to right without gaps
/// or overlaps: the first starts at character 0, each ends where the
/// next starts, none is empty, and the last ends at the end of the line
/// whenever every lindera token ends within it. An empty line gives no
/// token, any other line at least one.
pub proof fn segment_spans_tile(text: Seq<char>, lts: Seq<LinderaToken>, dict: JmdictIndex)
    requires
        spans_nonempty(lts),
    ensures
        tiles_from(segment_spec(text, lts, dict), 0, text.len() as int, ends_within(lts, text.len() as int)),
        (segment_spec(text, lts, dict).len() == 0) == (text.len() == 0),
{
    lemma_segment_tiles(text, lts, dict, 0);
}

// ------------------------------------------------------ per-token laws

/// Every lindera token lies within the text and its surface is the text
/// in its span (as the tokenizer produces them).
pub open spec fn surfaces_match(lts: Seq<LinderaToken>, text: Seq<char>) -> bool {
    forall|k: int|
        0 <= k < lts.len() ==> #[trigger] lts[k].char_end <= text.len() && lts[k].surface@
            == text.subrange(lts[k].char_start as int, lts[k].char_end as int)
}

/// The longest substring length tried at `p`.
pub open spec fn max_span_at(n: int, p: int) -> int {
    if n - p < MAX_SPAN {
        n - p
    } else {
        MAX_SPAN as int
    }
}

/// What holds of each token of a segmentation: its class is one of the
/// coarse ones; its surface is the text in its span (given tokenizer
/// surfaces that are); a dictionary token is the longest substring at
/// its start (at most `MAX_SPAN` characters) that hits the dictionary,
/// with the hit's entry number; any other token starts where no
/// substring hits.
pub open spec fn token_facts(text: Seq<char>, lts: Seq<LinderaToken>, dict: JmdictIndex, t: TokenView) -> bool {
    let p = t.span.0;
    let l0 = t.span.1 - p;
    let m = max_span_at(text.len() as int, p);
    &&& is_token_class(t.pos)
    &&& (surfaces_match(lts, text) ==> 0 <= p <= t.span.1 <= text.len() && t.surface == text.subrange(
        p,
        t.span.1,
    ))
    &&& match t.dict_seq {
        Some(s) => {
            &&& 1 <= l0 <= m
            &&& try_dict_spec(text.subrange(p, p + l0), dict) matches Some(h) && h.0 == s
            &&& forall|l: int| l0 < l <= m ==> #[trigger] try_dict_spec(text.subrange(p, p + l), dict) is None
        },
        None => forall|l: int| 1 <= l <= m ==> #[trigger] try_dict_spec(text.subrange(p, p + l), dict) is None,
    }
}

proof fn lemma_longest_hit_max(text: Seq<char>, dict: JmdictIndex, pos: int, len: int)
    ensures
        longest_hit(text, dict, pos, len) matches Some((l, h)) ==> 1 <= l <= len && try_dict_spec(
            text.subrange(pos, pos + l),
            dict,
        ) == Some(h) && forall|l2: int| l < l2 <= len ==> #[trigger] try_dict_spec(
            text.subrange(pos, pos + l2),
            dict,
        ) is None,
        longest_hit(text, dict, pos, len) is None ==> forall|l2: int|
            1 <= l2 <= len ==> #[trigger] try_dict_spec(text.subrange(pos, pos + l2), dict) is None,
    decreases len,
{
    if len >= 1 {
        lemma_longest_hit_max(text, dict, pos, len - 1);
    }
}

proof fn lemma_lindera_at_member(lts: Seq<LinderaToken>, pos: int, j: int)
    requires
        0 <= j <= lts.len(),
    ensures
        lindera_at(lts, pos, j) matches Some(t) ==> exists|k: int| 0 <= k < j && lts[k] == t,
    decreases j,
{
    if j > 0 && lts[j - 1].char_start != pos {
        lemma_lindera_at_member(lts, pos, j - 1);
    }
}

proof fn lemma_first_compatible_class(c: CandView, es: Seq<JmdictEntry>, j: int)
    ensures
        first_compatible(c, es, j) matches Some(h) ==> is_token_class(h.3),
    decreases es.len() - j,
{
    if 0 <= j < es.len() {
        if compatible(c.1, es[j]) {
            lemma_classes(seq![], first_or(es[j].pos_tags@, "other"@));
        } else {
            lemma_first_compatible_class(c, es, j + 1);
        }
    }
}

proof fn lemma_first_hit_class(cs: Seq<CandView>, i: int, dict: JmdictIndex)
    ensures
        first_hit(cs, i, dict) matches Some(h) ==> is_token_class(h.3),
    decreases cs.len() - i,
{
    if 0 <= i < cs.len() {
        lemma_first_compatible_class(cs[i], dict.lookup_spec(cs[i].0), 0);
        lemma_first_hit_class(cs, i + 1, dict);
    }
}

/// A dictionary hit's part of speech is one of the coarse classes.
proof fn lemma_hit_class(candidate: Seq<char>, dict: JmdictIndex)
    ensures
        try_dict_spec(candidate, dict) matches Some(h) ==> is_token_class(h.3),
{
    lemma_first_hit_class(deinflect_spec(candidate), 0, dict);
}

proof fn lemma_segment_facts(text: Seq<char>, lts: Seq<LinderaToken>, dict: JmdictIndex, pos: int)
    requires
        spans_nonempty(lts),
        0 <= pos <= text.len(),
    ensures
        forall|i: int|
            0 <= i < segment_from(text, lts, dict, pos).len() ==> token_facts(
                text,
                lts,
                dict,
                #[trigger] segment_from(text, lts, dict, pos)[i],
            ),
    decreases text.len() - pos,
{
    let n = text.len() as int;
    if pos < n {
        let max_len = max_span_at(n, pos);
        lemma_longest_hit_max(text, dict, pos, max_len);
        let seg = segment_from(text, lts, dict, pos);
        match longest_hit(text, dict, pos, max_len) {
            Some((len, h)) => {
                lemma_classes(seq![], h.3);
                lemma_segment_facts(text, lts, dict, pos + len);
                let rest = segment_from(text, lts, dict, pos + len);
                assert forall|i: int| 0 <= i < seg.len() implies token_facts(text, lts, dict, #[trigger] seg[i]) by {
                    if i > 0 {
                        assert(seg[i] == rest[i - 1]);
                    } else {
                        let t = seg[0];
                        assert(t.span == (pos, pos + len));
                        lemma_hit_class(text.subrange(pos, pos + len), dict);
                    }
                }
            },
            None => {
                lemma_lindera_at(lts, pos, lts.len() as int, n);
                lemma_lindera_at_member(lts, pos, lts.len() as int);
                match lindera_at(lts, pos, lts.len() as int) {
                    Some(lt) => {
                        lemma_classes(coarse_pos_spec(lt.pos1@), seq![]);
                        if lt.char_end as int <= n {
                            lemma_segment_facts(text, lts, dict, lt.char_end as int);
                        }
                        assert forall|i: int| 0 <= i < seg.len() implies token_facts(text, lts, dict, #[trigger] seg[i]) by {
                            if i > 0 {
                                assert(seg[i] == segment_from(text, lts, dict, lt.char_end as int)[i - 1]);
                            } else {
                                if surfaces_match(lts, text) {
                                    let k = choose|k: int| 0 <= k < lts.len() && lts[k] == lt;
                                    assert(lts[k].char_end <= text.len());
                                }
                            }
                        }
                    },
                    None => {
                        lemma_classes(seq![], seq![]);
                        lemma_segment_facts(text, lts, dict, pos + 1);
                        let rest = segment_from(text, lts, dict, pos + 1);
                        assert forall|i: int| 0 <= i < seg.len() implies token_facts(text, lts, dict, #[trigger] seg[i]) by {
                            if i > 0 {
                                assert(seg[i] == rest[i - 1]);
                            } else {
                                assert(text.subrange(pos, pos + 1) =~= seq![text[pos]]);
                            }
                        }
                    },
                }
            },
        }
    }
}

/// Each token of `segment` carries one of the coarse classes (noun,
/// verb, adj, aux, particle, punctuation, other); its surface is the
/// text in its span whenever the tokenizer's surfaces are; and the
/// dictionary pass takes the longest match first: a dictionary token is
/// the longest substring of at most `MAX_SPAN` characters at its start
/// that the dictionary knows (through deinflection), and any other
/// token starts where no such substring is known.
pub proof fn segment_tokens_are_longest_matches(text: Seq<char>, lts: Seq<LinderaToken>, dict: JmdictIndex)
    requires
        spans_nonempty(lts),
    ensures
        forall|i: int|
            0 <= i < segment_spec(text, lts, dict).len() ==> token_facts(
                text,
                lts,
                dict,
                #[trigger] segment_spec(text, lts, dict)[i],
            ),
{
    lemma_segment_facts(text, lts, dict, 0);
}


/// Entry `j` of the lookup of candidate `i` is compatible with it.
pub open spec fn hit_at(cs: Seq<CandView>, dict: JmdictIndex, i: int, j: int) -> bool {
    &&& 0 <= i < cs.len()
    &&& 0 <= j < dict.lookup_spec(cs[i].0).len()
    &&& compatible(cs[i].1, dict.lookup_spec(cs[i].0)[j])
}

proof fn lemma_first_compatible(c: CandView, es: Seq<JmdictEntry>, j0: int)
    requires
        0 <= j0 <= es.len(),
    ensures
        first_compatible(c, es, j0) is None ==> forall|j: int| j0 <= j < es.len() ==> !compatible(c.1, #[trigger] es[j]),
        first_compatible(c, es, j0) is Some ==> exists|j: int|
            j0 <= j < es.len() && compatible(c.1, #[trigger] es[j]) && first_compatible(c, es, j0) == Some(hit_of(c.0, es[j]))
                && forall|j2: int| j0 <= j2 < j ==> !compatible(c.1, #[trigger] es[j2]),
    decreases es.len() - j0,
{
    if j0 < es.len() {
        lemma_first_compatible(c, es, j0 + 1);
        if compatible(c.1, es[j0]) {
            assert(compatible(c.1, es[j0]));
        }
    }
}

proof fn lemma_first_hit(cs: Seq<CandView>, i0: int, dict: JmdictIndex)
    requires
        0 <= i0 <= cs.len(),
    ensures
        first_hit(cs, i0, dict) is None ==> forall|i: int, j: int| i0 <= i ==> !#[trigger] hit_at(cs, dict, i, j),
        first_hit(cs, i0, dict) is Some ==> exists|i: int, j: int|
            i0 <= i && #[trigger] hit_at(cs, dict, i, j) && first_hit(cs, i0, dict) == Some(
                hit_of(cs[i].0, dict.lookup_spec(cs[i].0)[j]),
            ) && forall|i2: int, j2: int| i0 <= i2 && #[trigger] hit_at(cs, dict, i2, j2) ==> i < i2 || (i == i2 && j <= j2),
    decreases cs.len() - i0,
{
    if i0 < cs.len() {
        let es = dict.lookup_spec(cs[i0].0);
        lemma_first_compatible(cs[i0], es, 0);
        lemma_first_hit(cs, i0 + 1, dict);
        match first_compatible(cs[i0], es, 0) {
            Some(h) => {
                let j = choose|j: int|
                    0 <= j < es.len() && compatible(cs[i0].1, #[trigger] es[j]) && first_compatible(cs[i0], es, 0) == Some(hit_of(cs[i0].0, es[j]))
                        && forall|j2: int| 0 <= j2 < j ==> !compatible(cs[i0].1, #[trigger] es[j2]);
                assert(hit_at(cs, dict, i0, j));
            },
            None => {
                assert forall|i: int, j: int| i0 <= i && #[trigger] hit_at(cs, dict, i, j) implies i0 + 1 <= i by {
                    if i == i0 {
                        assert(!compatible(cs[i0].1, es[j]));
                    }
                }
            },
        }
    }
}

/// The dictionary hit of a substring comes from the first entry, in
/// lookup order, of the first of its deinflection candidates that has
/// a compatible entry; there is none exactly when no candidate has one.
pub proof fn try_dict_takes_first_compatible(candidate: Seq<char>, dict: JmdictIndex, i: int, j: int)
    ensures
        try_dict_spec(candidate, dict) is None <==> !exists|i2: int, j2: int|
            #[trigger] hit_at(deinflect_spec(candidate), dict, i2, j2),
        hit_at(deinflect_spec(candidate), dict, i, j) && (forall|i2: int, j2: int|
            #[trigger] hit_at(deinflect_spec(candidate), dict, i2, j2) ==> i < i2 || (i == i2 && j <= j2))
            ==> try_dict_spec(candidate, dict) == Some(
            hit_of(deinflect_spec(candidate)[i].0, dict.lookup_spec(deinflect_spec(candidate)[i].0)[j]),
        ),
{
    let cs = deinflect_spec(candidate);
    lemma_first_hit(cs, 0, dict);
    if first_hit(cs, 0, dict) is Some {
        let (a, b) = choose|a: int, b: int|
            0 <= a && #[trigger] hit_at(cs, dict, a, b) && first_hit(cs, 0, dict) == Some(
                hit_of(cs[a].0, dict.lookup_spec(cs[a].0)[b]),
            ) && forall|i2: int, j2: int| 0 <= i2 && #[trigger] hit_at(cs, dict, i2, j2) ==> a < i2 || (a == i2 && b <= j2);
        if hit_at(cs, dict, i, j) && (forall|i2: int, j2: int| #[trigger] hit_at(cs, dict, i2, j2) ==> i < i2 || (i == i2 && j <= j2)) {
            assert(a == i && b == j);
        }
    }
}


/// Entry `e` is what the dictionary gives for `c`, a deinflection
/// candidate of `surface`.
pub open spec fn entry_for(dict: JmdictIndex, surface: Seq<char>, c: Seq<char>, e: JmdictEntry) -> bool {
    &&& exists|k: int| 0 <= k < deinflect_spec(surface).len() && (#[trigger] deinflect_spec(surface)[k]).0 == c
    &&& dict.lookup_spec(c).contains(e)
}

/// A dictionary token carries the fields of the entry it hit: its
/// number, its first reading (empty for an entry without one), its first
/// kanji form as the lemma (else its first reading, else the candidate
/// looked up), and the coarse class of its first POS tag.
pub open spec fn carries_entry(dict: JmdictIndex, t: TokenView) -> bool {
    match t.dict_seq {
        Some(n) => exists|c: Seq<char>, e: JmdictEntry|
            #[trigger] entry_for(dict, t.surface, c, e) && e.seq == n && t.reading == (if e.readings@.len() > 0 {
                e.readings@[0]@
            } else {
                Seq::<char>::empty()
            }) && t.lemma == (if e.kanji@.len() > 0 {
                e.kanji@[0]@
            } else if e.readings@.len() > 0 {
                e.readings@[0]@
            } else {
                c
            }) && t.pos == jmdict_class(if e.pos_tags@.len() > 0 {
                e.pos_tags@[0]@
            } else {
                "other"@
            }),
        None => true,
    }
}

proof fn lemma_hit_entry(surface: Seq<char>, dict: JmdictIndex)
    ensures
        try_dict_spec(surface, dict) matches Some(h) ==> exists|c: Seq<char>, e: JmdictEntry|
            #[trigger] entry_for(dict, surface, c, e) && h == hit_of(c, e),
{
    let cs = deinflect_spec(surface);
    lemma_first_hit(cs, 0, dict);
    if try_dict_spec(surface, dict) is Some {
        let (i, j) = choose|i: int, j: int|
            0 <= i && #[trigger] hit_at(cs, dict, i, j) && first_hit(cs, 0, dict) == Some(
                hit_of(cs[i].0, dict.lookup_spec(cs[i].0)[j]),
            ) && forall|i2: int, j2: int| 0 <= i2 && #[trigger] hit_at(cs, dict, i2, j2) ==> i < i2 || (i == i2 && j <= j2);
        let c = cs[i].0;
        let e = dict.lookup_spec(c)[j];
        assert(dict.lookup_spec(c).contains(e));
        assert(entry_for(dict, surface, c, e));
    }
}

proof fn lemma_segment_entries(text: Seq<char>, lts: Seq<LinderaToken>, dict: JmdictIndex, pos: int)
    requires
        0 <= pos <= text.len(),
    ensures
        forall|i: int|
            0 <= i < segment_from(text, lts, dict, pos).len() ==> carries_entry(
                dict,
                #[trigger] segment_from(text, lts, dict, pos)[i],
            ),
    decreases text.len() - pos,
{
    let n = text.len() as int;
    if pos < n {
        let max_len = max_span_at(n, pos);
        lemma_longest_hit_max(text, dict, pos, max_len);
        let seg = segment_from(text, lts, dict, pos);
        match longest_hit(text, dict, pos, max_len) {
            Some((len, h)) => {
                lemma_segment_entries(text, lts, dict, pos + len);
                let rest = segment_from(text, lts, dict, pos + len);
                let surface = text.subrange(pos, pos + len);
                lemma_hit_entry(surface, dict);
                assert forall|i: int| 0 <= i < seg.len() implies carries_entry(dict, #[trigger] seg[i]) by {
                    if i > 0 {
                        assert(seg[i] == rest[i - 1]);
                    } else {
                        let (c, e) = choose|c: Seq<char>, e: JmdictEntry|
                            #[trigger] entry_for(dict, surface, c, e) && h == hit_of(c, e);
                        assert(seg[0].surface == surface);
                        assert(entry_for(dict, seg[0].surface, c, e));
                    }
                }
            },
            None => {
                match lindera_at(lts, pos, lts.len() as int) {
                    Some(lt) => {
                        if lt.char_end > pos && lt.char_end as int <= n {
                            lemma_segment_entries(text, lts, dict, lt.char_end as int);
                            assert forall|i: int| 0 <= i < seg.len() implies carries_entry(dict, #[trigger] seg[i]) by {
                                if i > 0 {
                                    assert(seg[i] == segment_from(text, lts, dict, lt.char_end as int)[i - 1]);
                                }
                            }
                        }
                    },
                    None => {
                        lemma_segment_entries(text, lts, dict, pos + 1);
                        let rest = segment_from(text, lts, dict, pos + 1);
                        assert forall|i: int| 0 <= i < seg.len() implies carries_entry(dict, #[trigger] seg[i]) by {
                            if i > 0 {
                                assert(seg[i] == rest[i - 1]);
                            }
                        }
                    },
                }
            },
        }
    }
}

/// Every dictionary token of a segmentation carries the fields of the
/// dictionary entry it hit through one of its deinflection candidates:
/// the entry's number, its first reading, its first kanji form (else
/// first reading) as the lemma, and its first POS tag's coarse class.
pub proof fn segment_tokens_carry_their_entry(text: Seq<char>, lts: Seq<LinderaToken>, dict: JmdictIndex)
    ensures
        forall|i: int|
            0 <= i < segment_spec(text, lts, dict).len() ==> carries_entry(
                dict,
                #[trigger] segment_spec(text, lts, dict)[i],
            ),
{
    lemma_segment_entries(text, lts, dict, 0);
}

} // verus!
