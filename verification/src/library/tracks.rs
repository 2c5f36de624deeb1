//! Selecting the Japanese audio and subtitle tracks of a probed file.
//!
//! Heuristics, in order:
//! 1. A stream whose language tag is `jpn` or `ja`.
//! 2. Among several such streams, the first whose title does not look
//!    like signs, songs, forced or commentary tracks.
//! 3. Otherwise the first of them; with none, no track is selected and
//!    the caller decides how to fall back.

use vstd::prelude::*;

use crate::media::{Stream, StreamKind};
use crate::text::{chars_of, find, find_from_exec, lower_ascii, lower_ascii_exec, str_is};

verus! {

/// The tracks chosen for an import.
#[derive(Debug)]
pub struct TrackSelection {
    pub audio_idx: Option<usize>,
    pub subtitle_idx: Option<usize>,
    pub subtitle_format: Option<String>,
}

/// Language tagged Japanese: `jpn` or `ja`.
pub open spec fn is_jp(s: Stream) -> bool {
    match s.language {
        Some(l) => l@ == seq!['j', 'p', 'n'] || l@ == seq!['j', 'a'],
        None => false,
    }
}

/// The title words that mark a secondary track.
pub open spec fn alt_words() -> Seq<Seq<char>> {
    seq![
        seq!['s', 'i', 'g', 'n'],
        seq!['s', 'o', 'n', 'g'],
        seq!['f', 'o', 'r', 'c', 'e', 'd'],
        seq!['c', 'o', 'm', 'm', 'e', 'n', 't', 'a', 'r', 'y'],
        seq!['k', 'a', 'r', 'a', 'o', 'k', 'e'],
    ]
}

/// A title that, ASCII case ignored, contains one of the marker words.
pub open spec fn alt_title(t: Seq<char>) -> bool {
    exists|k: int| 0 <= k < alt_words().len() && find(lower_ascii(t), #[trigger] alt_words()[k]) is Some
}

/// The stream's title looks like signs/songs/forced/commentary/karaoke.
pub open spec fn is_alt(s: Stream) -> bool {
    match s.title {
        Some(t) => alt_title(t@),
        None => false,
    }
}

/// A Japanese stream of `kind`.
pub open spec fn candidate(s: Stream, kind: StreamKind) -> bool {
    s.codec_type == kind && is_jp(s)
}

/// The first position at or after `j` whose stream satisfies `p`.
pub open spec fn first_from(ss: Seq<Stream>, p: spec_fn(Stream) -> bool, j: int) -> Option<int>
    decreases ss.len() - j,
{
    if j < 0 || j >= ss.len() {
        None
    } else if p(ss[j]) {
        Some(j)
    } else {
        first_from(ss, p, j + 1)
    }
}

/// The position of the track chosen for `kind`: the first Japanese one
/// that does not look secondary, else the first Japanese one.
pub open spec fn pick(ss: Seq<Stream>, kind: StreamKind) -> Option<int> {
    match first_from(ss, |s: Stream| candidate(s, kind) && !is_alt(s), 0) {
        Some(j) => Some(j),
        None => first_from(ss, |s: Stream| candidate(s, kind), 0),
    }
}

pub proof fn lemma_first_from(ss: Seq<Stream>, p: spec_fn(Stream) -> bool, j: int)
    requires
        0 <= j,
    ensures
        first_from(ss, p, j) matches Some(k) ==> j <= k < ss.len() && p(ss[k]) && (forall|t: int|
            j <= t < k ==> !p(#[trigger] ss[t])),
        first_from(ss, p, j) is None ==> forall|t: int| j <= t < ss.len() ==> !p(#[trigger] ss[t]),
    decreases ss.len() - j,
{
    if j < ss.len() && !p(ss[j]) {
        lemma_first_from(ss, p, j + 1);
    }
}

fn is_japanese(s: &Stream) -> (r: bool)
    ensures
        r == is_jp(*s),
{
    match &s.language {
        Some(l) => str_is(l.as_str(), &['j', 'p', 'n']) || str_is(l.as_str(), &['j', 'a']),
        None => false,
    }
}

fn contains_word(t: &[char], w: &[char]) -> (r: bool)
    ensures
        r == (find(t@, w@) is Some),
{
    find_from_exec(t, w, 0).is_some()
}

fn looks_like_alt(s: &Stream) -> (r: bool)
    ensures
        r == is_alt(*s),
{
    match &s.title {
        None => false,
        Some(title) => {
            let t = lower_ascii_exec(chars_of(title.as_str()).as_slice());
            let words: [&[char]; 5] = [
                &['s', 'i', 'g', 'n'],
                &['s', 'o', 'n', 'g'],
                &['f', 'o', 'r', 'c', 'e', 'd'],
                &['c', 'o', 'm', 'm', 'e', 'n', 't', 'a', 'r', 'y'],
                &['k', 'a', 'r', 'a', 'o', 'k', 'e'],
            ];
            assert(words@.map_values(|w: &[char]| w@) =~= alt_words());
            let mut k: usize = 0;
            while k < 5
                invariant
                    k <= 5,
                    t@ == lower_ascii(title@),
                    s.title == Some(*title),
                    words@.len() == 5,
                    words@.map_values(|w: &[char]| w@) == alt_words(),
                    forall|m: int| 0 <= m < k ==> find(t@, #[trigger] alt_words()[m]) is None,
                decreases 5 - k,
            {
                assert(words@[k as int]@ == alt_words()[k as int]);
                if contains_word(t.as_slice(), words[k]) {
                    assert(find(lower_ascii(title@), alt_words()[k as int]) is Some);
                    return true;
                }
                k = k + 1;
            }
            false
        },
    }
}

fn pick_jp(streams: &[Stream], kind: StreamKind) -> (r: Option<&Stream>)
    ensures
        match pick(streams@, kind) {
            Some(j) => r == Some(&streams@[j]),
            None => r is None,
        },
{
    let ghost ss = streams@;
    let ghost main = |s: Stream| candidate(s, kind) && !is_alt(s);
    let ghost any = |s: Stream| candidate(s, kind);
    proof {
        lemma_first_from(ss, main, 0);
        lemma_first_from(ss, any, 0);
    }
    let mut first: Option<usize> = None;
    let mut i: usize = 0;
    while i < streams.len()
        invariant
            i <= ss.len(),
            ss == streams@,
            main == (|s: Stream| candidate(s, kind) && !is_alt(s)),
            any == (|s: Stream| candidate(s, kind)),
            forall|t: int| 0 <= t < i ==> !main(#[trigger] ss[t]),
            first matches Some(f) ==> f < i && first_from(ss, any, 0) == Some(f as int),
            first is None ==> forall|t: int| 0 <= t < i ==> !any(#[trigger] ss[t]),
        decreases ss.len() - i,
    {
        let s = &streams[i];
        if s.codec_type == kind && is_japanese(s) {
            if first.is_none() {
                proof {
                    lemma_first_from(ss, any, 0);
                    if first_from(ss, any, 0) != Some(i as int) {
                        assert(first_from(ss, any, 0) matches Some(k) && k < i);
                    }
                }
                first = Some(i);
            }
            if !looks_like_alt(s) {
                proof {
                    lemma_first_from(ss, main, 0);
                    if first_from(ss, main, 0) != Some(i as int) {
                        assert(first_from(ss, main, 0) matches Some(k) && k < i);
                    }
                }
                return Some(s);
            }
        }
        i = i + 1;
    }
    proof {
        lemma_first_from(ss, main, 0);
        lemma_first_from(ss, any, 0);
        if first is None && first_from(ss, any, 0) is Some {
            assert(first_from(ss, any, 0) matches Some(k) && any(ss[k]));
        }
    }
    match first {
        Some(f) => Some(&streams[f]),
        None => None,
    }
}

/// The index of the picked stream of `kind`, if any.
pub open spec fn picked_index(ss: Seq<Stream>, kind: StreamKind) -> Option<usize> {
    match pick(ss, kind) {
        Some(j) => Some(ss[j].index),
        None => None,
    }
}

/// Picks the Japanese audio and subtitle tracks of `streams`, with the
/// codec of the chosen subtitle track as its format.
pub fn select_japanese(streams: &[Stream]) -> (sel: TrackSelection)
    ensures
        sel.audio_idx == picked_index(streams@, StreamKind::Audio),
        sel.subtitle_idx == picked_index(streams@, StreamKind::Subtitle),
        match pick(streams@, StreamKind::Subtitle) {
            Some(j) => sel.subtitle_format matches Some(f) && f@ == streams@[j].codec_name@,
            None => sel.subtitle_format is None,
        },
{
    let audio = pick_jp(streams, StreamKind::Audio);
    let audio_idx = match audio {
        Some(s) => Some(s.index),
        None => None,
    };
    let subtitle = pick_jp(streams, StreamKind::Subtitle);
    match subtitle {
        Some(s) => TrackSelection {
            audio_idx,
            subtitle_idx: Some(s.index),
            subtitle_format: Some(s.codec_name.clone()),
        },
        None => TrackSelection { audio_idx, subtitle_idx: None, subtitle_format: None },
    }
}

/// The image-based subtitle codecs (not OCR'd in this version).
pub open spec fn image_format(format: Seq<char>) -> bool {
    ||| format == seq!['p', 'g', 's']
    ||| format == seq!['h', 'd', 'm', 'v', '_', 'p', 'g', 's', '_', 's', 'u', 'b', 't', 'i', 't', 'l', 'e']
    ||| format == seq!['d', 'v', 'd', '_', 's', 'u', 'b', 't', 'i', 't', 'l', 'e']
    ||| format == seq!['d', 'v', 'b', '_', 's', 'u', 'b', 't', 'i', 't', 'l', 'e']
    ||| format == seq!['x', 's', 'u', 'b']
}

/// `true` if the chosen subtitle format is image-based (these cannot be
/// OCR'd in this version).
pub fn is_image_subtitle(format: &str) -> (r: bool)
    ensures
        r == image_format(format@),
{
    str_is(format, &['p', 'g', 's'])
        || str_is(format, &['h', 'd', 'm', 'v', '_', 'p', 'g', 's', '_', 's', 'u', 'b', 't', 'i', 't', 'l', 'e'])
        || str_is(format, &['d', 'v', 'd', '_', 's', 'u', 'b', 't', 'i', 't', 'l', 'e'])
        || str_is(format, &['d', 'v', 'b', '_', 's', 'u', 'b', 't', 'i', 't', 'l', 'e'])
        || str_is(format, &['x', 's', 'u', 'b'])
}

/// The track chosen for a kind is a Japanese track of that kind; none is
/// chosen only when there is no such track; a track that does not look
/// like signs/songs/commentary is preferred whenever one exists, and the
/// choice is always the earliest track of its class.
pub proof fn pick_prefers_dialogue(ss: Seq<Stream>, kind: StreamKind)
    ensures
        pick(ss, kind) matches Some(j) ==> 0 <= j < ss.len() && candidate(ss[j], kind),
        pick(ss, kind) is None <==> forall|t: int| 0 <= t < ss.len() ==> !candidate(#[trigger] ss[t], kind),
        (exists|t: int| 0 <= t < ss.len() && candidate(#[trigger] ss[t], kind) && !is_alt(ss[t]))
            ==> (pick(ss, kind) matches Some(j) && !is_alt(ss[j]) && forall|t: int|
            0 <= t < j ==> !(candidate(#[trigger] ss[t], kind) && !is_alt(ss[t]))),
        (forall|t: int| 0 <= t < ss.len() && candidate(#[trigger] ss[t], kind) ==> is_alt(ss[t]))
            ==> (pick(ss, kind) matches Some(j) ==> forall|t: int|
            0 <= t < j ==> !candidate(#[trigger] ss[t], kind)),
{
    let main = |s: Stream| candidate(s, kind) && !is_alt(s);
    let any = |s: Stream| candidate(s, kind);
    lemma_first_from(ss, main, 0);
    lemma_first_from(ss, any, 0);
    if exists|t: int| 0 <= t < ss.len() && candidate(#[trigger] ss[t], kind) && !is_alt(ss[t]) {
        let t = choose|t: int| 0 <= t < ss.len() && candidate(#[trigger] ss[t], kind) && !is_alt(ss[t]);
        assert(main(ss[t]));
    }
    if pick(ss, kind) is None {
        assert forall|t: int| 0 <= t < ss.len() implies !candidate(#[trigger] ss[t], kind) by {
            assert(!any(ss[t]));
        }
    } else {
        if forall|t: int| 0 <= t < ss.len() ==> !candidate(#[trigger] ss[t], kind) {
            if let Some(j) = pick(ss, kind) {
                assert(candidate(ss[j], kind));
            }
        }
    }
}

} // verus!
