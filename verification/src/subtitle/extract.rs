//! Choosing how an extracted subtitle stream is stored and parsed. The
//! extraction itself (running ffmpeg) happens outside the library.

use vstd::prelude::*;

use super::ass::ass_parse;
use super::srt::srt_parse;
use super::{Line, LineView, SubtitleError, ass, lines_view, srt};
use crate::text::str_is;

verus! {

pub open spec fn lit_ass() -> Seq<char> {
    seq!['a', 's', 's']
}

pub open spec fn lit_srt() -> Seq<char> {
    seq!['s', 'r', 't']
}

pub open spec fn lit_vtt() -> Seq<char> {
    seq!['v', 't', 't']
}

/// The file extension ffmpeg is asked to write a subtitle stream of
/// codec `format` as: ASS/SSA stay ASS, SubRip is SRT, WebVTT is VTT,
/// anything else is converted to SRT.
pub open spec fn format_ext(format: Seq<char>) -> Seq<char> {
    if format == lit_ass() || format == seq!['s', 's', 'a'] {
        lit_ass()
    } else if format == seq!['s', 'u', 'b', 'r', 'i', 'p'] || format == lit_srt() {
        lit_srt()
    } else if format == seq!['w', 'e', 'b', 'v', 't', 't'] || format == lit_vtt() {
        lit_vtt()
    } else {
        lit_srt()
    }
}

/// Subtitle stream codec_name as reported by ffprobe, mapped to the
/// container we'll ask ffmpeg to remux into.
pub fn ext_for_format(format: &str) -> (r: &'static str)
    ensures
        r@ == format_ext(format@),
{
    proof {
        reveal_strlit("ass");
        reveal_strlit("srt");
        reveal_strlit("vtt");
    }
    if str_is(format, &['a', 's', 's']) || str_is(format, &['s', 's', 'a']) {
        "ass"
    } else if str_is(format, &['s', 'u', 'b', 'r', 'i', 'p']) || str_is(format, &['s', 'r', 't']) {
        "srt"
    } else if str_is(format, &['w', 'e', 'b', 'v', 't', 't']) || str_is(format, &['v', 't', 't']) {
        "vtt"
    } else {
        "srt"
    }
}

/// The ffmpeg subtitle codec that writes files of extension `ext`.
pub open spec fn ext_codec(ext: Seq<char>) -> Seq<char> {
    if ext == lit_ass() {
        lit_ass()
    } else if ext == lit_vtt() {
        seq!['w', 'e', 'b', 'v', 't', 't']
    } else {
        lit_srt()
    }
}

/// The ffmpeg `-c:s` codec for an output of extension `ext`.
pub fn codec_for_ext(ext: &str) -> (r: &'static str)
    ensures
        r@ == ext_codec(ext@),
{
    proof {
        reveal_strlit("ass");
        reveal_strlit("webvtt");
        reveal_strlit("srt");
    }
    if str_is(ext, &['a', 's', 's']) {
        "ass"
    } else if str_is(ext, &['v', 't', 't']) {
        "webvtt"
    } else {
        "srt"
    }
}

/// Parse the text of an extracted subtitle file: ASS files with the ASS
/// parser, everything else with the SRT parser.
pub fn parse_extracted(ext: &str, body: &str) -> (r: Result<Vec<Line>, SubtitleError>)
    ensures
        match r {
            Ok(lines) => (if ext@ == lit_ass() {
                ass_parse(body@)
            } else {
                srt_parse(body@)
            }) == Ok::<Seq<LineView>, SubtitleError>(lines_view(lines@)),
            Err(e) => (if ext@ == lit_ass() {
                ass_parse(body@)
            } else {
                srt_parse(body@)
            }) == Err::<Seq<LineView>, SubtitleError>(e),
        },
{
    if str_is(ext, &['a', 's', 's']) {
        ass::parse(body)
    } else {
        srt::parse(body)
    }
}

} // verus!
