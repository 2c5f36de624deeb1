//! Browser-driven import: upload media (then probe it), upload a
//! subtitle file, create the video. The library decides file names,
//! formats, the track summary and the new row; receiving the multipart
//! bodies, writing files and running ffprobe happen in the server.

use vstd::prelude::*;

use crate::error::AppError;
use crate::library::model::VideoStatus;
use crate::library::repo::NewVideo;
use crate::library::tracks::{image_format, is_image_subtitle};
use crate::media::Stream;
use crate::media::stream::text;
use crate::paths::{file_name, file_name_of, file_stem, file_stem_of, opt_text};
use crate::text::{chars_of, ends_with, ends_with_exec, lower_ascii, lower_ascii_exec, push_text, string_of};

verus! {

/// Whether `c` is alphabetic or numeric in Unicode.
pub uninterp spec fn alphanumeric(c: char) -> bool;

/// ASCII letters and digits.
pub open spec fn ascii_alnum(c: char) -> bool {
    ('a' <= c && c <= 'z') || ('A' <= c && c <= 'Z') || ('0' <= c && c <= '9')
}

/// `char::is_alphanumeric`: the Unicode `Alphabetic` property or a
/// numeric general category; among ASCII characters exactly the letters
/// and digits.
#[verifier::external_body]
fn is_alphanumeric(c: char) -> (r: bool)
    ensures
        r == (if (c as u32) < 0x80 {
            ascii_alnum(c)
        } else {
            alphanumeric(c)
        }),
{
    c.is_alphanumeric()
}

/// A character kept in an upload's file name.
pub open spec fn keeps(c: char) -> bool {
    (if (c as u32) < 0x80 {
        ascii_alnum(c)
    } else {
        alphanumeric(c)
    }) || c == '.' || c == '-' || c == '_'
}

/// The file name a client-supplied name is stored under: its last path
/// component (or `upload.bin`), every character other than letters,
/// digits, `.`, `-` and `_` replaced by `_`, and `upload.bin` if nothing
/// is left.
pub open spec fn sanitized(name: Seq<char>) -> Seq<char> {
    let base = match file_name_of(name) {
        Some(n) => n,
        None => "upload.bin"@,
    };
    let cleaned = base.map_values(|c: char| if keeps(c) { c } else { '_' });
    if cleaned.len() == 0 {
        "upload.bin"@
    } else {
        cleaned
    }
}

pub fn sanitize_filename(name: &str) -> (r: String)
    ensures
        r@ == sanitized(name@),
{
    let base = match file_name(name) {
        Some(n) => n,
        None => text("upload.bin"),
    };
    let cs = chars_of(base.as_str());
    let mut out: Vec<char> = Vec::new();
    let mut i: usize = 0;
    while i < cs.len()
        invariant
            i <= cs@.len(),
            out@ == cs@.take(i as int).map_values(|c: char| if keeps(c) { c } else { '_' }),
        decreases cs@.len() - i,
    {
        let c = cs[i];
        let keep = is_alphanumeric(c) || c == '.' || c == '-' || c == '_';
        out.push(if keep { c } else { '_' });
        i = i + 1;
        assert(out@ =~= cs@.take(i as int).map_values(|c: char| if keeps(c) { c } else { '_' }));
    }
    assert(cs@.take(cs@.len() as int) =~= cs@);
    if out.len() == 0 {
        text("upload.bin")
    } else {
        string_of(out.as_slice())
    }
}

/// A stored upload's name is a single, non-empty path component: it
/// holds no `/` or `\`, whatever the client sent.
pub proof fn sanitized_is_one_component(name: Seq<char>)
    ensures
        sanitized(name).len() > 0,
        forall|i: int|
            0 <= i < sanitized(name).len() ==> #[trigger] sanitized(name)[i] != '/' && sanitized(
                name,
            )[i] != '\\',
{
    reveal_strlit("upload.bin");
    let base = match file_name_of(name) {
        Some(n) => n,
        None => "upload.bin"@,
    };
    let cleaned = base.map_values(|c: char| if keeps(c) { c } else { '_' });
    assert forall|i: int| 0 <= i < cleaned.len() implies #[trigger] cleaned[i] != '/' && cleaned[i]
        != '\\' by {
        let c = base[i];
        assert(!keeps('/') && !keeps('\\'));
    }
}

/// The name an upload is stored under: the upload time stamp, a dash,
/// and the sanitised client name (or `fallback` when the client gave
/// none).
pub open spec fn stored_name(stamp: Seq<char>, client_name: Option<Seq<char>>, fallback: Seq<char>) -> Seq<
    char,
> {
    stamp + seq!['-'] + sanitized(
        match client_name {
            Some(o) => o,
            None => fallback,
        },
    )
}

pub fn stored_upload_name(stamp: &str, client_name: Option<&str>, fallback: &str) -> (r: String)
    ensures
        r@ == stored_name(
            stamp@,
            match client_name {
                Some(o) => Some(o@),
                None => None,
            },
            fallback@,
        ),
{
    let safe = match client_name {
        Some(o) => sanitize_filename(o),
        None => sanitize_filename(fallback),
    };
    let mut v: Vec<char> = Vec::new();
    push_text(&mut v, stamp);
    v.push('-');
    push_text(&mut v, safe.as_str());
    string_of(v.as_slice())
}

/// The subtitle format of an uploaded file, by its extension (ASCII
/// case ignored): `.srt`; `.ass` or `.ssa`; `.vtt`.
pub open spec fn format_of_name(name: Seq<char>) -> Option<Seq<char>> {
    let lower = lower_ascii(name);
    if ends_with(lower, ".srt"@) {
        Some("srt"@)
    } else if ends_with(lower, ".ass"@) || ends_with(lower, ".ssa"@) {
        Some("ass"@)
    } else if ends_with(lower, ".vtt"@) {
        Some("vtt"@)
    } else {
        None
    }
}

pub fn subtitle_format(name: &str) -> (r: Option<&'static str>)
    ensures
        match r {
            Some(f) => format_of_name(name@) == Some(f@),
            None => format_of_name(name@) is None,
        },
{
    let lower = lower_ascii_exec(chars_of(name).as_slice());
    if ends_with_exec(lower.as_slice(), chars_of(".srt").as_slice()) {
        Some("srt")
    } else if ends_with_exec(lower.as_slice(), chars_of(".ass").as_slice()) || ends_with_exec(
        lower.as_slice(),
        chars_of(".ssa").as_slice(),
    ) {
        Some("ass")
    } else if ends_with_exec(lower.as_slice(), chars_of(".vtt").as_slice()) {
        Some("vtt")
    } else {
        None
    }
}

/// A probed track as the upload response shows it.
#[derive(Debug, Clone)]
pub struct TrackJson {
    pub index: usize,
    pub codec_name: String,
    pub language: Option<String>,
    pub title: Option<String>,
    pub is_image: bool,
}

pub fn track_json(s: &Stream) -> (t: TrackJson)
    ensures
        t.index == s.index,
        t.codec_name@ == s.codec_name@,
        opt_text(t.language) == opt_text(s.language),
        opt_text(t.title) == opt_text(s.title),
        t.is_image == image_format(s.codec_name@),
{
    let language = match &s.language {
        Some(l) => Some(l.clone()),
        None => None,
    };
    let title = match &s.title {
        Some(l) => Some(l.clone()),
        None => None,
    };
    TrackJson {
        index: s.index,
        codec_name: s.codec_name.clone(),
        language,
        title,
        is_image: is_image_subtitle(s.codec_name.as_str()),
    }
}

/// The body of `POST /library/create`.
#[derive(Debug, Clone)]
pub struct CreateReq {
    pub path: String,
    pub title: Option<String>,
    pub source_tag: Option<String>,
    pub jp_audio_idx: Option<i64>,
    /// Either the embedded subtitle stream index (with the format the
    /// probe reported) or a sidecar path with its format.
    pub jp_subtitle_idx: Option<i64>,
    pub subtitle_format: Option<String>,
    pub subtitle_sidecar_path: Option<String>,
}

/// The answer to `POST /library/create`.
#[derive(Debug, Clone)]
pub struct CreateResp {
    pub video_id: i64,
    pub status: VideoStatus,
}

/// The name a created video falls back on: the file's stem, or
/// `untitled`.
pub open spec fn stem_or_untitled(path: Seq<char>) -> Seq<char> {
    match file_stem_of(path) {
        Some(s) => s,
        None => "untitled"@,
    }
}

/// The row a create request inserts for the media at `path` (as given
/// in the request) of probed duration `duration_ms`: title and source
/// tag default to the file's stem, the tracks are as requested, and the
/// import starts at `Probing`.
pub fn new_video(req: &CreateReq, duration_ms: i64) -> (v: NewVideo)
    ensures
        v.path@ == req.path@,
        v.title@ == (match req.title {
            Some(t) => t@,
            None => stem_or_untitled(req.path@),
        }),
        v.source_tag@ == (match req.source_tag {
            Some(t) => t@,
            None => stem_or_untitled(req.path@),
        }),
        v.duration_ms == duration_ms,
        v.jp_audio_idx == req.jp_audio_idx,
        v.jp_subtitle_idx == req.jp_subtitle_idx,
        opt_text(v.subtitle_format) == opt_text(req.subtitle_format),
        v.status == VideoStatus::Probing,
{
    let stem = match file_stem(req.path.as_str()) {
        Some(s) => s,
        None => text("untitled"),
    };
    let title = match &req.title {
        Some(t) => t.clone(),
        None => stem.clone(),
    };
    let source_tag = match &req.source_tag {
        Some(t) => t.clone(),
        None => stem,
    };
    let subtitle_format = match &req.subtitle_format {
        Some(f) => Some(f.clone()),
        None => None,
    };
    NewVideo {
        path: req.path.clone(),
        title,
        source_tag,
        duration_ms,
        jp_audio_idx: req.jp_audio_idx,
        jp_subtitle_idx: req.jp_subtitle_idx,
        subtitle_format,
        status: VideoStatus::Probing,
    }
}

/// The error a failed insert is answered with: a second import of the
/// same media (a uniqueness violation) is a conflict, anything else an
/// internal error carrying the database's message.
pub fn insert_error(unique_violation: bool, message: String) -> (e: AppError)
    ensures
        unique_violation ==> (e matches AppError::Conflict(m) && m@ == "media already imported"@),
        !unique_violation ==> (e matches AppError::Other(m) && m@ == message@),
{
    if unique_violation {
        AppError::Conflict(text("media already imported"))
    } else {
        AppError::Other(message)
    }
}

} // verus!
