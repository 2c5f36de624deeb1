//! The stored subtitle lines of a video. Reading and writing the
//! `subtitle_lines` table happens outside the library.

use vstd::prelude::*;

verus! {

/// One row of `subtitle_lines`.
#[derive(Debug, Clone)]
pub struct SubtitleLine {
    pub id: i64,
    pub video_id: i64,
    pub idx: i64,
    pub start_ms: i64,
    pub end_ms: i64,
    pub raw_text: String,
    pub tokens_json: Option<String>,
    pub translation: Option<String>,
    pub grammar_note: Option<String>,
    pub tone_tags: Option<String>,
}

/// A line's id with its timing only.
#[derive(Debug, Clone)]
pub struct TimestampOnly {
    pub id: i64,
    pub start_ms: i64,
    pub end_ms: i64,
}

} // verus!
