//! The import pipeline's decisions. The server drives a video through
//! extracting → parsing (→ ready), writing the status at each step so
//! the front end can poll; any failure sets the status to `error` with
//! the cause. The library decides whether a video can be imported.

use vstd::prelude::*;

use super::tracks::{image_format, is_image_subtitle};
use crate::text::{push_text, string_of};

verus! {

/// Why an import cannot go on.
#[derive(Debug)]
pub enum ImportError {
    /// The file has no Japanese subtitle track.
    NoSubtitleTrack,
    /// No subtitle format was recorded with the track.
    NoSubtitleFormat,
    /// The subtitle track is image-based (not OCR'd in this version).
    ImageSubtitles(String),
    /// The subtitle track parsed to no dialogue.
    NoDialogue,
}

impl ImportError {
    /// The cause written to the video's `error_message`.
    pub fn message(&self) -> (r: String)
        ensures
            r@ == match *self {
                ImportError::NoSubtitleTrack => "no Japanese subtitle track on this file"@,
                ImportError::NoSubtitleFormat => "no subtitle format recorded"@,
                ImportError::ImageSubtitles(f) => "image-based subtitles ("@ + f@ + ") not supported"@,
                ImportError::NoDialogue => "subtitle track has 0 dialogue lines"@,
            },
    {
        let mut v: Vec<char> = Vec::new();
        match self {
            ImportError::NoSubtitleTrack => push_text(&mut v, "no Japanese subtitle track on this file"),
            ImportError::NoSubtitleFormat => push_text(&mut v, "no subtitle format recorded"),
            ImportError::ImageSubtitles(f) => {
                push_text(&mut v, "image-based subtitles (");
                push_text(&mut v, f.as_str());
                push_text(&mut v, ") not supported");
            },
            ImportError::NoDialogue => push_text(&mut v, "subtitle track has 0 dialogue lines"),
        }
        string_of(v.as_slice())
    }
}

/// The subtitle stream to extract and its format, if the video can be
/// imported: it needs a Japanese subtitle track, a recorded format, and
/// a text-based format.
pub fn import_source(jp_subtitle_idx: Option<i64>, subtitle_format: Option<&str>) -> (r: Result<
    (i64, String),
    ImportError,
>)
    ensures
        match r {
            Ok((idx, f)) => jp_subtitle_idx == Some(idx) && (subtitle_format matches Some(g) && f@
                == g@ && !image_format(g@)),
            Err(ImportError::NoSubtitleTrack) => jp_subtitle_idx is None,
            Err(ImportError::NoSubtitleFormat) => jp_subtitle_idx is Some && subtitle_format is None,
            Err(ImportError::ImageSubtitles(f)) => jp_subtitle_idx is Some && (
            subtitle_format matches Some(g) && f@ == g@ && image_format(g@)),
            Err(ImportError::NoDialogue) => false,
        },
{
    let idx = match jp_subtitle_idx {
        Some(i) => i,
        None => {
            return Err(ImportError::NoSubtitleTrack);
        },
    };
    let format = match subtitle_format {
        Some(f) => f,
        None => {
            return Err(ImportError::NoSubtitleFormat);
        },
    };
    if is_image_subtitle(format) {
        return Err(ImportError::ImageSubtitles(format.to_owned()));
    }
    Ok((idx, format.to_owned()))
}

/// A parsed subtitle track must hold at least one line.
pub fn check_parsed(n_lines: usize) -> (r: Result<(), ImportError>)
    ensures
        r is Ok <==> n_lines > 0,
        r matches Err(e) ==> e is NoDialogue,
{
    if n_lines == 0 {
        Err(ImportError::NoDialogue)
    } else {
        Ok(())
    }
}

} // verus!
