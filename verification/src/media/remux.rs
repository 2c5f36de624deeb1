//! One-shot remux during import: a faststart MP4 beside the source, with
//! the video copied and the audio re-encoded to AAC unless it already
//! plays in MP4. The library decides the output path and the ffmpeg
//! command line; running ffmpeg and checking timestamps happen outside.

use vstd::prelude::*;

use super::stream::{
    audio_codec_args, audio_map, audio_map_arg, audio_plan, plan_for,
    push_audio_codec_args, text, texts,
};
use crate::paths::{file_stem, file_stem_of, join, joined, parent, parent_of};
use crate::text::{chars_of, string_of};

verus! {

/// An existing remux output is kept when it was modified no earlier than
/// its source and is not empty (times as counts since a common epoch).
pub fn up_to_date(src_mtime: u64, out_mtime: u64, out_len: u64) -> (b: bool)
    ensures
        b == (out_mtime >= src_mtime && out_len > 0),
{
    out_mtime >= src_mtime && out_len > 0
}

/// Where the remuxed MP4 of `source` lives: the source's directory (or
/// `.`), and the source's stem (or `video`) followed by `.remuxed.mp4`.
pub open spec fn remuxed_path(source: Seq<char>) -> Seq<char> {
    let stem = match file_stem_of(source) {
        Some(s) => s,
        None => "video"@,
    };
    let dir = match parent_of(source) {
        Some(p) => p,
        None => "."@,
    };
    joined(dir, stem + ".remuxed.mp4"@)
}

/// Returns the path the remuxed MP4 will live at — same dir as the
/// source, with `.remuxed.mp4` appended to the stem.
pub fn remuxed_path_for(source: &str) -> (r: String)
    ensures
        r@ == remuxed_path(source@),
{
    let stem = match file_stem(source) {
        Some(s) => s,
        None => text("video"),
    };
    let dir = match parent(source) {
        Some(p) => p,
        None => text("."),
    };
    let mut name = chars_of(stem.as_str());
    let suffix = chars_of(".remuxed.mp4");
    let mut i: usize = 0;
    let ghost base = name@;
    while i < suffix.len()
        invariant
            i <= suffix@.len(),
            suffix@ == ".remuxed.mp4"@,
            name@ == base + suffix@.take(i as int),
        decreases suffix@.len() - i,
    {
        name.push(suffix[i]);
        i = i + 1;
        assert(name@ =~= base + suffix@.take(i as int));
    }
    assert(suffix@.take(suffix@.len() as int) =~= suffix@);
    let file = string_of(name.as_slice());
    join(dir.as_str(), file.as_str())
}

/// The ffmpeg arguments that remux `source` into `out`.
pub open spec fn remux_args_spec(
    source: Seq<char>,
    audio_idx: Option<i64>,
    audio_codec: Seq<char>,
    out: Seq<char>,
) -> Seq<Seq<char>> {
    seq!["-y"@, "-loglevel"@, "error"@, "-i"@, source, "-map"@, "0:v:0"@, "-map"@, audio_map(audio_idx), "-c:v"@, "copy"@]
        + audio_codec_args(plan_for(audio_codec)) + seq!["-movflags"@, "+faststart"@, "-f"@, "mp4"@, out]
}

/// The command line of the one-shot remux of `source` to `out`, mapping
/// the chosen Japanese audio stream if known.
pub fn remux_args(source: &str, audio_idx: Option<i64>, audio_codec: &str, out: &str) -> (r: Vec<
    String,
>)
    ensures
        texts(r@) == remux_args_spec(source@, audio_idx, audio_codec@, out@),
{
    let plan = audio_plan(audio_codec);
    let mut args: Vec<String> = Vec::new();
    args.push(text("-y"));
    args.push(text("-loglevel"));
    args.push(text("error"));
    args.push(text("-i"));
    args.push(text(source));
    args.push(text("-map"));
    args.push(text("0:v:0"));
    args.push(text("-map"));
    args.push(audio_map_arg(audio_idx));
    args.push(text("-c:v"));
    args.push(text("copy"));
    let ghost head = texts(args@);
    push_audio_codec_args(&mut args, plan);
    let ghost with_codec = texts(args@);
    args.push(text("-movflags"));
    args.push(text("+faststart"));
    args.push(text("-f"));
    args.push(text("mp4"));
    args.push(text(out));
    assert(texts(args@) =~= with_codec + seq!["-movflags"@, "+faststart"@, "-f"@, "mp4"@, out@]);
    assert(head =~= seq!["-y"@, "-loglevel"@, "error"@, "-i"@, source@, "-map"@, "0:v:0"@, "-map"@, audio_map(audio_idx), "-c:v"@, "copy"@]);
    args
}

} // verus!
