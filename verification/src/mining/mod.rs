//! Sentence mining: furigana alignment, kanji enrichment and the card
//! assembled for Hibi.

pub mod furigana;
pub mod kanji;
pub mod pipeline;
