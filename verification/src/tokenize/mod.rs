//! Tokenisation: deinflection, the JMDict index and the longest-match
//! segmenter.

use vstd::prelude::*;

pub mod deinflect;
pub mod jmdict_index;
pub mod lindera_wrap;
pub mod segment;

verus! {

/// Final token shape persisted to `subtitle_lines.tokens_json`.
#[derive(Debug, PartialEq, Eq)]
pub struct Token {
    /// Character offsets into the line, `[start, end)`.
    pub span: (usize, usize),
    /// Surface form as it appears in the line.
    pub surface: String,
    /// Dictionary form (lemma) — what JMdict and the user "know".
    pub lemma: String,
    /// Kana reading (katakana from UniDic; we keep as-is).
    pub reading: String,
    /// Coarse POS tag (`noun`, `verb`, `adj`, `aux`, `particle`,
    /// `punctuation`, `other`).
    pub pos: String,
    /// JMdict ent_seq if we successfully matched into the dictionary,
    /// otherwise `None`.
    pub dict_seq: Option<i64>,
}

/// A token as plain values.
pub struct TokenView {
    pub span: (int, int),
    pub surface: Seq<char>,
    pub lemma: Seq<char>,
    pub reading: Seq<char>,
    pub pos: Seq<char>,
    pub dict_seq: Option<int>,
}

impl View for Token {
    type V = TokenView;

    open spec fn view(&self) -> TokenView {
        TokenView {
            span: (self.span.0 as int, self.span.1 as int),
            surface: self.surface@,
            lemma: self.lemma@,
            reading: self.reading@,
            pos: self.pos@,
            dict_seq: match self.dict_seq {
                Some(s) => Some(s as int),
                None => None,
            },
        }
    }
}

pub open spec fn tokens_view(v: Seq<Token>) -> Seq<TokenView> {
    Seq::new(v.len(), |i: int| v[i]@)
}

} // verus!
