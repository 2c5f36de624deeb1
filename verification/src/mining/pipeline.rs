//! Mining a sentence into a Hibi card. The library decides the clip
//! window, the glosses and the card itself; extracting the clip and
//! still, uploading them and posting the card happen in the server.

use vstd::prelude::*;

use crate::hibi::model::{CardRequest, FuriganaPair, KanjiEntry};
use crate::library::lines::SubtitleLine;
use crate::media::stream::texts;
use crate::paths::opt_text;
use crate::tokenize::Token;
use crate::tokenize::jmdict_index::{JmdictEntry, JmdictIndex};
use crate::text::eq_chars;
use crate::text::chars_of;

verus! {

/// A mining request.
#[derive(Debug, Clone)]
pub struct MineRequest {
    pub video_id: i64,
    pub line_id: i64,
    pub focus_word: String,
    pub focus_word_reading: String,
    /// Audio kept before the line, in milliseconds (default 500).
    pub pad_before_ms: i64,
    /// Audio kept after the line, in milliseconds (default 500).
    pub pad_after_ms: i64,
    pub user_english_override: Option<String>,
    pub user_grammar_override: Option<String>,
    pub tags: Vec<String>,
}

/// What a mined card was stored as.
#[derive(Debug, Clone)]
pub struct MineResponse {
    pub card_id: String,
    pub audio_key: String,
    pub image_key: String,
}

/// The padding used when a request names none.
pub fn default_pad() -> (r: i64)
    ensures
        r == 500,
{
    500
}

/// `x / 2` rounded toward zero, as Rust's integer division does.
pub open spec fn half_toward_zero(x: int) -> int {
    if x >= 0 {
        x / 2
    } else {
        -((-x) / 2)
    }
}

/// The audio clip `[start, end]` and the still's instant for a line:
/// the line padded on both sides (never before zero), and the line's
/// midpoint.
pub open spec fn clip_window(start_ms: int, end_ms: int, pad_before: int, pad_after: int) -> (int, int, int) {
    let s = start_ms - pad_before;
    (if s > 0 { s } else { 0 }, end_ms + pad_after, half_toward_zero(start_ms + end_ms))
}

/// The clip window of a line. The sums must fit in `i64` (the
/// arithmetic overflows otherwise).
pub fn clip_bounds(start_ms: i64, end_ms: i64, pad_before_ms: i64, pad_after_ms: i64) -> (r: (i64, i64, i64))
    requires
        i64::MIN <= start_ms - pad_before_ms <= i64::MAX,
        i64::MIN <= end_ms + pad_after_ms <= i64::MAX,
        i64::MIN <= start_ms + end_ms <= i64::MAX,
    ensures
        (r.0 as int, r.1 as int, r.2 as int) == clip_window(
            start_ms as int,
            end_ms as int,
            pad_before_ms as int,
            pad_after_ms as int,
        ),
{
    let s = start_ms - pad_before_ms;
    let start = if s > 0 { s } else { 0 };
    let end = end_ms + pad_after_ms;
    let sum: i128 = start_ms as i128 + end_ms as i128;
    let mid: i128 = if sum >= 0 {
        sum / 2
    } else {
        -((-sum) / 2)
    };
    (start, end, mid as i64)
}

/// At most the first three glosses of an entry.
pub open spec fn top_glosses(e: JmdictEntry) -> Seq<Seq<char>> {
    let g = texts(e.glosses@);
    if g.len() > 3 {
        g.take(3)
    } else {
        g
    }
}

/// The first token whose lemma is `focus`.
pub open spec fn first_with_lemma(ts: Seq<Token>, focus: Seq<char>, i: int) -> Option<int>
    decreases ts.len() - i,
{
    if i < 0 || i >= ts.len() {
        None
    } else if ts[i].lemma@ == focus {
        Some(i)
    } else {
        first_with_lemma(ts, focus, i + 1)
    }
}

/// The glosses on a card: from the dictionary entry the line's first
/// token with the focus word as lemma was matched to, if there is one;
/// else from the first entry found under the focus word; else none.
pub open spec fn card_glosses(tokens: Option<Seq<Token>>, focus: Seq<char>, dict: JmdictIndex) -> Seq<Seq<char>> {
    let by_token = match tokens {
        Some(ts) => match first_with_lemma(ts, focus, 0) {
            Some(i) => match ts[i].dict_seq {
                Some(seq) => if dict.entry_map().contains_key(seq) {
                    Some(top_glosses(dict.entry_map()[seq]))
                } else {
                    None
                },
                None => None,
            },
            None => None,
        },
        None => None,
    };
    match by_token {
        Some(g) => g,
        None => if dict.lookup_spec(focus).len() > 0 {
            top_glosses(dict.lookup_spec(focus)[0])
        } else {
            Seq::empty()
        },
    }
}

fn first_glosses(e: &JmdictEntry) -> (r: Vec<String>)
    ensures
        texts(r@) == top_glosses(*e),
{
    let n = if e.glosses.len() > 3 { 3 } else { e.glosses.len() };
    let mut out: Vec<String> = Vec::new();
    let mut i: usize = 0;
    while i < n
        invariant
            i <= n,
            n <= e.glosses@.len(),
            n == (if e.glosses@.len() > 3 { 3 } else { e.glosses@.len() }),
            texts(out@) == texts(e.glosses@).take(i as int),
        decreases n - i,
    {
        let g = e.glosses[i].clone();
        let ghost before = out@;
        out.push(g);
        assert(texts(out@) =~= texts(before).push(e.glosses@[i as int]@));
        i = i + 1;
        assert(texts(out@) =~= texts(e.glosses@).take(i as int));
    }
    assert(texts(e.glosses@).take(e.glosses@.len() as int) =~= texts(e.glosses@));
    out
}

/// The glosses for the card's focus word. `tokens` are the line's stored
/// tokens, when they could be read.
pub fn focus_glosses(tokens: Option<&[Token]>, focus: &str, jmdict: &JmdictIndex) -> (r: Vec<String>)
    ensures
        texts(r@) == card_glosses(
            match tokens {
                Some(ts) => Some(ts@),
                None => None,
            },
            focus@,
            *jmdict,
        ),
{
    let f = chars_of(focus);
    match tokens {
        Some(ts) => {
            let mut i: usize = 0;
            let mut found: Option<usize> = None;
            while i < ts.len()
                invariant
                    i <= ts@.len(),
                    f@ == focus@,
                    found is None ==> first_with_lemma(ts@, focus@, 0) == first_with_lemma(ts@, focus@, i as int),
                    found matches Some(k) ==> first_with_lemma(ts@, focus@, 0) == Some(k as int) && k < ts@.len(),
                decreases ts@.len() - i,
            {
                if found.is_none() {
                    let l = chars_of(ts[i].lemma.as_str());
                    if eq_chars(l.as_slice(), f.as_slice()) {
                        found = Some(i);
                    }
                }
                i = i + 1;
            }
            match found {
                Some(k) => match ts[k].dict_seq {
                    Some(seq) => match jmdict.entry(seq) {
                        Some(e) => {
                            return first_glosses(e);
                        },
                        None => {},
                    },
                    None => {},
                },
                None => {},
            }
        },
        None => {},
    }
    let hits = jmdict.lookup(focus);
    if hits.len() > 0 {
        first_glosses(hits[0])
    } else {
        let out: Vec<String> = Vec::new();
        assert(texts(out@) =~= Seq::<Seq<char>>::empty());
        out
    }
}

/// The card for a mined line: the line's text, the focus word with its
/// furigana, the user's English and grammar overrides or else the stored
/// translation and note, the glosses, the kanji, the uploaded media and
/// the video's source tag.
pub fn card_request(
    req: &MineRequest,
    line: &SubtitleLine,
    source: String,
    furigana: Vec<FuriganaPair>,
    glosses: Vec<String>,
    kanji_list: Vec<KanjiEntry>,
    image_key: String,
    audio_key: String,
) -> (c: CardRequest)
    ensures
        c.sentence@ == line.raw_text@,
        c.focus_word@ == req.focus_word@,
        c.focus_word_reading@ == req.focus_word_reading@,
        c.furigana@ == furigana@,
        c.english@ == (match req.user_english_override {
            Some(e) => e@,
            None => match line.translation {
                Some(t) => t@,
                None => Seq::<char>::empty(),
            },
        }),
        c.glosses@ == glosses@,
        opt_text(c.grammar_note) == (match req.user_grammar_override {
            Some(g) => Some(g@),
            None => opt_text(line.grammar_note),
        }),
        c.kanji_list@ == kanji_list@,
        opt_text(c.image_key) == Some(image_key@),
        opt_text(c.audio_key) == Some(audio_key@),
        c.source@ == source@,
        texts(c.tags@) == texts(req.tags@),
{
    let english = match &req.user_english_override {
        Some(e) => e.clone(),
        None => match &line.translation {
            Some(t) => t.clone(),
            None => String::new(),
        },
    };
    let grammar_note = match &req.user_grammar_override {
        Some(g) => Some(g.clone()),
        None => match &line.grammar_note {
            Some(g) => Some(g.clone()),
            None => None,
        },
    };
    let mut tags: Vec<String> = Vec::new();
    let mut i: usize = 0;
    while i < req.tags.len()
        invariant
            i <= req.tags@.len(),
            texts(tags@) == texts(req.tags@).take(i as int),
        decreases req.tags@.len() - i,
    {
        let t = req.tags[i].clone();
        let ghost before = tags@;
        tags.push(t);
        assert(texts(tags@) =~= texts(before).push(req.tags@[i as int]@));
        i = i + 1;
        assert(texts(tags@) =~= texts(req.tags@).take(i as int));
    }
    assert(texts(req.tags@).take(req.tags@.len() as int) =~= texts(req.tags@));
    CardRequest {
        sentence: line.raw_text.clone(),
        focus_word: req.focus_word.clone(),
        focus_word_reading: req.focus_word_reading.clone(),
        furigana,
        english,
        glosses,
        grammar_note,
        kanji_list,
        image_key: Some(image_key),
        audio_key: Some(audio_key),
        source,
        tags,
    }
}

} // verus!
