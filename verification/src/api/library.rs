//! Import of a file already inside the library directory, and metadata
//! edits. The library checks the request and builds the new row; path
//! canonicalisation, probing and the database happen in the server.

use vstd::prelude::*;

use crate::error::AppError;
use crate::library::model::VideoStatus;
use crate::library::repo::NewVideo;
use crate::library::tracks::{TrackSelection, image_format, is_image_subtitle};
use crate::media::stream::text;
use crate::paths::{file_stem, file_stem_of, opt_text, path_under, starts_with_path};
use crate::text::{push_text, string_of};

verus! {

/// Only files under the library directory may be imported by path.
pub fn check_under_library(abs: &str, library_dir: &str) -> (r: Result<(), AppError>)
    ensures
        r is Ok <==> path_under(abs@, library_dir@),
        r matches Err(e) ==> (e matches AppError::BadRequest(m) && m@ == "path must live under library dir "@
            + library_dir@),
{
    if starts_with_path(abs, library_dir) {
        Ok(())
    } else {
        let mut v: Vec<char> = Vec::new();
        push_text(&mut v, "path must live under library dir ");
        push_text(&mut v, library_dir);
        Err(AppError::BadRequest(string_of(v.as_slice())))
    }
}

pub open spec fn idx_i64(o: Option<usize>) -> Option<i64> {
    match o {
        Some(x) => Some(x as i64),
        None => None,
    }
}

/// The row an import by path inserts, from the probe's duration and the
/// chosen tracks: refused when the chosen subtitle track is image-based;
/// title and source tag default to the file's stem (or `untitled`).
pub fn import_video(
    abs: &str,
    title: Option<String>,
    source_tag: Option<String>,
    duration_ms: i64,
    sel: &TrackSelection,
) -> (r: Result<NewVideo, AppError>)
    ensures
        r is Err <==> (sel.subtitle_format matches Some(f) && image_format(f@)),
        r matches Err(e) ==> (e matches AppError::BadRequest(m) && sel.subtitle_format matches Some(f)
            && m@ == "image-based subtitle ("@ + f@ + ") not supported"@),
        r matches Ok(v) ==> {
            let stem = match file_stem_of(abs@) {
                Some(s) => s,
                None => "untitled"@,
            };
            &&& v.path@ == abs@
            &&& v.title@ == (match title {
                Some(t) => t@,
                None => stem,
            })
            &&& v.source_tag@ == (match source_tag {
                Some(t) => t@,
                None => stem,
            })
            &&& v.duration_ms == duration_ms
            &&& v.jp_audio_idx == idx_i64(sel.audio_idx)
            &&& v.jp_subtitle_idx == idx_i64(sel.subtitle_idx)
            &&& opt_text(v.subtitle_format) == opt_text(sel.subtitle_format)
            &&& v.status == VideoStatus::Probing
        },
{
    match &sel.subtitle_format {
        Some(fmt) => {
            if is_image_subtitle(fmt.as_str()) {
                let mut v: Vec<char> = Vec::new();
                push_text(&mut v, "image-based subtitle (");
                push_text(&mut v, fmt.as_str());
                push_text(&mut v, ") not supported");
                return Err(AppError::BadRequest(string_of(v.as_slice())));
            }
        },
        None => {},
    }
    let stem = match file_stem(abs) {
        Some(s) => s,
        None => text("untitled"),
    };
    let title = match title {
        Some(t) => t,
        None => stem.clone(),
    };
    let source_tag = match source_tag {
        Some(t) => t,
        None => stem,
    };
    let jp_audio_idx = match sel.audio_idx {
        Some(x) => Some(x as i64),
        None => None,
    };
    let jp_subtitle_idx = match sel.subtitle_idx {
        Some(x) => Some(x as i64),
        None => None,
    };
    let subtitle_format = match &sel.subtitle_format {
        Some(f) => Some(f.clone()),
        None => None,
    };
    Ok(
        NewVideo {
            path: text(abs),
            title,
            source_tag,
            duration_ms,
            jp_audio_idx,
            jp_subtitle_idx,
            subtitle_format,
            status: VideoStatus::Probing,
        },
    )
}

/// A metadata edit must change the title, the source tag, or both.
pub fn check_patch(title: Option<&str>, source_tag: Option<&str>) -> (r: Result<(), AppError>)
    ensures
        r is Ok <==> (title is Some || source_tag is Some),
        r matches Err(e) ==> (e matches AppError::BadRequest(m) && m@
            == "specify at least one of title, source_tag"@),
{
    if title.is_none() && source_tag.is_none() {
        Err(AppError::BadRequest(text("specify at least one of title, source_tag")))
    } else {
        Ok(())
    }
}

} // verus!
