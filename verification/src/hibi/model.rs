//! Schema for Hibi API endpoints we consume. Their JSON encodings live
//! with the HTTP client; these are the plain values.

use vstd::prelude::*;

verus! {

/// One `{base, reading}` furigana segment.
#[derive(Debug, Clone, PartialEq, Eq)]
pub struct FuriganaPair {
    pub base: String,
    pub reading: String,
}

/// A kanji of the mined sentence with its WaniKani data.
#[derive(Debug, Clone)]
pub struct KanjiEntry {
    pub kanji: String,
    pub meaning: String,
    pub wanikani_level: Option<i64>,
}

/// The card posted to `/v1/cards`.
#[derive(Debug, Clone)]
pub struct CardRequest {
    pub sentence: String,
    pub focus_word: String,
    pub focus_word_reading: String,
    pub furigana: Vec<FuriganaPair>,
    pub english: String,
    pub glosses: Vec<String>,
    /// Nullable in the API: `None` is sent as JSON null.
    pub grammar_note: Option<String>,
    pub kanji_list: Vec<KanjiEntry>,
    pub image_key: Option<String>,
    pub audio_key: Option<String>,
    pub source: String,
    pub tags: Vec<String>,
}

#[derive(Debug, Clone)]
pub struct CreatedCard {
    pub id: String,
}

#[derive(Debug, Clone)]
pub struct UploadKey {
    pub key: String,
}

#[derive(Debug, Clone)]
pub struct KnownWord {
    pub lemma: String,
    pub reading: String,
    /// "learning" | "known" | "ignored"
    pub status: String,
}

#[derive(Debug, Clone)]
pub struct KnownWordsResp {
    pub items: Vec<KnownWord>,
}

#[derive(Debug, Clone)]
pub struct WordStatusReq {
    pub lemma: String,
    pub reading: String,
    /// `Some("learning"|"known"|"ignored")` or `None` to clear.
    pub status: Option<String>,
}

#[derive(Debug, Clone)]
pub struct WordStatus {
    pub lemma: String,
    pub reading: String,
    pub status: Option<String>,
}

} // verus!
