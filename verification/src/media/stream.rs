//! Streaming remux to fragmented MP4. The library decides the ffmpeg
//! command line; spawning ffmpeg and piping its output happen outside.

use vstd::prelude::*;

use crate::text::{int_text, push_i64, str_is, string_of};

verus! {

/// Whether the source's audio is already compatible with MP4 (so it can
/// be copied) or needs transcoding to AAC.
#[derive(Debug, Clone, Copy, PartialEq, Eq, Structural)]
pub enum AudioPlan {
    Copy,
    Aac,
}

/// AAC, MP3 and ALAC play in browsers inside MP4; AC3/EAC3/DTS/TrueHD/
/// FLAC/Opus and everything else are transcoded.
pub open spec fn plan_for(codec_name: Seq<char>) -> AudioPlan {
    if codec_name == seq!['a', 'a', 'c'] || codec_name == seq!['m', 'p', '3'] || codec_name
        == seq!['a', 'l', 'a', 'c'] {
        AudioPlan::Copy
    } else {
        AudioPlan::Aac
    }
}

pub fn audio_plan(codec_name: &str) -> (p: AudioPlan)
    ensures
        p == plan_for(codec_name@),
{
    if str_is(codec_name, &['a', 'a', 'c']) || str_is(codec_name, &['m', 'p', '3']) || str_is(
        codec_name,
        &['a', 'l', 'a', 'c'],
    ) {
        AudioPlan::Copy
    } else {
        AudioPlan::Aac
    }
}

/// The text `s`, as a `String`.
pub fn text(s: &str) -> (r: String)
    ensures
        r@ == s@,
{
    s.to_owned()
}

/// The `-map` argument for the audio: the chosen stream `0:<idx>`, else
/// the first audio stream if there is one.
pub open spec fn audio_map(audio_idx: Option<i64>) -> Seq<char> {
    match audio_idx {
        Some(i) => seq!['0', ':'] + int_text(i as int),
        None => "0:a:0?"@,
    }
}

/// The audio codec arguments of `plan`.
pub open spec fn audio_codec_args(plan: AudioPlan) -> Seq<Seq<char>> {
    match plan {
        AudioPlan::Copy => seq!["-c:a"@, "copy"@],
        AudioPlan::Aac => seq!["-c:a"@, "aac"@, "-b:a"@, "160k"@],
    }
}

pub open spec fn texts(v: Seq<String>) -> Seq<Seq<char>> {
    v.map_values(|s: String| s@)
}

pub fn audio_map_arg(audio_idx: Option<i64>) -> (r: String)
    ensures
        r@ == audio_map(audio_idx),
{
    match audio_idx {
        Some(i) => {
            let mut v: Vec<char> = Vec::new();
            v.push('0');
            v.push(':');
            push_i64(&mut v, i);
            assert(v@ =~= seq!['0', ':'] + int_text(i as int));
            string_of(v.as_slice())
        },
        None => text("0:a:0?"),
    }
}

/// Appends the codec arguments of `plan`.
pub fn push_audio_codec_args(args: &mut Vec<String>, plan: AudioPlan)
    ensures
        texts(final(args)@) == texts(old(args)@) + audio_codec_args(plan),
{
    let ghost start = texts(args@);
    args.push(text("-c:a"));
    match plan {
        AudioPlan::Copy => {
            args.push(text("copy"));
        },
        AudioPlan::Aac => {
            args.push(text("aac"));
            args.push(text("-b:a"));
            args.push(text("160k"));
        },
    }
    assert(texts(args@) =~= start + audio_codec_args(plan));
}

/// The ffmpeg arguments that remux `path` to fragmented MP4 on stdout,
/// optionally seeking to `start` (seconds, as ffmpeg text) first.
pub open spec fn stream_args_spec(
    path: Seq<char>,
    audio_idx: Option<i64>,
    plan: AudioPlan,
    start: Option<Seq<char>>,
) -> Seq<Seq<char>> {
    let head = seq!["-loglevel"@, "error"@, "-y"@];
    let seek = match start {
        Some(s) => seq!["-ss"@, s],
        None => Seq::empty(),
    };
    head + seek + seq!["-i"@, path, "-map"@, "0:v:0"@, "-map"@, audio_map(audio_idx), "-c:v"@, "copy"@]
        + audio_codec_args(plan) + seq![
        "-movflags"@,
        "frag_keyframe+empty_moov+default_base_moof"@,
        "-f"@,
        "mp4"@,
        "pipe:1"@,
    ]
}

/// The command line for a streaming remux of `path`.
pub fn stream_args(path: &str, audio_idx: Option<i64>, plan: AudioPlan, start: Option<&str>) -> (r:
    Vec<String>)
    ensures
        texts(r@) == stream_args_spec(
            path@,
            audio_idx,
            plan,
            match start {
                Some(s) => Some(s@),
                None => None,
            },
        ),
{
    let mut args: Vec<String> = Vec::new();
    args.push(text("-loglevel"));
    args.push(text("error"));
    args.push(text("-y"));
    match start {
        Some(s) => {
            args.push(text("-ss"));
            args.push(text(s));
        },
        None => {},
    }
    args.push(text("-i"));
    args.push(text(path));
    args.push(text("-map"));
    args.push(text("0:v:0"));
    args.push(text("-map"));
    args.push(audio_map_arg(audio_idx));
    args.push(text("-c:v"));
    args.push(text("copy"));
    let ghost mid = texts(args@);
    push_audio_codec_args(&mut args, plan);
    let ghost with_codec = texts(args@);
    args.push(text("-movflags"));
    args.push(text("frag_keyframe+empty_moov+default_base_moof"));
    args.push(text("-f"));
    args.push(text("mp4"));
    args.push(text("pipe:1"));
    assert(texts(args@) =~= with_codec + seq![
        "-movflags"@,
        "frag_keyframe+empty_moov+default_base_moof"@,
        "-f"@,
        "mp4"@,
        "pipe:1"@,
    ]);
    assert(mid =~= seq!["-loglevel"@, "error"@, "-y"@] + (match start {
        Some(s) => seq!["-ss"@, s@],
        None => Seq::<Seq<char>>::empty(),
    }) + seq!["-i"@, path@, "-map"@, "0:v:0"@, "-map"@, audio_map(audio_idx), "-c:v"@, "copy"@]);
    args
}

} // verus!
