use vstd::prelude::*;

verus! {

/// Per-line model output.
#[derive(Debug, Clone, PartialEq, Eq)]
pub struct LineTranslation {
    pub idx: i64,
    pub english: String,
    pub grammar_note: String,
    pub tone_tags: Vec<String>,
}

/// The shape the model returns: `{ "lines": [...] }`.
#[derive(Debug, Clone)]
pub struct TranslationBatch {
    pub lines: Vec<LineTranslation>,
}

} // verus!
