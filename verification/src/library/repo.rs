//! Rows of the `videos` table as the library builds them. Reading and
//! writing the table happens outside the library.

use vstd::prelude::*;

use super::model::VideoStatus;

verus! {

/// A video about to be inserted.
#[derive(Debug)]
pub struct NewVideo {
    pub path: String,
    pub title: String,
    pub source_tag: String,
    pub duration_ms: i64,
    pub jp_audio_idx: Option<i64>,
    pub jp_subtitle_idx: Option<i64>,
    pub subtitle_format: Option<String>,
    pub status: VideoStatus,
}

} // verus!
