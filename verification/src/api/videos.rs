//! Playback decisions: how a video's audio is streamed and what type a
//! thumbnail is served as. Probing, spawning ffmpeg and reading files
//! happen in the server.

use vstd::prelude::*;

use crate::media::stream::{AudioPlan, audio_plan, plan_for};
use crate::media::{Stream, StreamKind};
use crate::text::{chars_of, ends_with, ends_with_exec};

verus! {

/// The stream whose codec decides the audio plan: the one at the stored
/// Japanese audio index, else the first audio stream.
pub open spec fn plan_stream(streams: Seq<Stream>, audio_idx: Option<i64>, i: int) -> Option<int>
    decreases streams.len() - i,
{
    if i < 0 || i >= streams.len() {
        None
    } else if (match audio_idx {
        Some(idx) => streams[i].index as i64 == idx,
        None => streams[i].codec_type == StreamKind::Audio,
    }) {
        Some(i)
    } else {
        plan_stream(streams, audio_idx, i + 1)
    }
}

/// The audio plan for streaming: by the codec of the deciding stream,
/// or by an empty codec name (transcode) when there is none.
pub open spec fn streaming_plan(streams: Seq<Stream>, audio_idx: Option<i64>) -> AudioPlan {
    match plan_stream(streams, audio_idx, 0) {
        Some(i) => plan_for(streams[i].codec_name@),
        None => plan_for(Seq::empty()),
    }
}

/// The audio plan for streaming a probed file. A file that cannot be
/// probed is always transcoded (the server decides that before calling).
pub fn pick_plan(streams: &[Stream], audio_idx: Option<i64>) -> (p: AudioPlan)
    ensures
        p == streaming_plan(streams@, audio_idx),
{
    let mut i: usize = 0;
    while i < streams.len()
        invariant
            i <= streams@.len(),
            plan_stream(streams@, audio_idx, 0) == plan_stream(streams@, audio_idx, i as int),
        decreases streams@.len() - i,
    {
        let s = &streams[i];
        let hit = match audio_idx {
            Some(idx) => s.index as i64 == idx,
            None => s.codec_type == StreamKind::Audio,
        };
        if hit {
            return audio_plan(s.codec_name.as_str());
        }
        i = i + 1;
    }
    assert(plan_stream(streams@, audio_idx, 0) is None);
    let empty = "";
    proof {
        reveal_strlit("");
    }
    assert(empty@ =~= Seq::<char>::empty());
    audio_plan(empty)
}

/// The content type of a thumbnail, by the file's extension.
pub open spec fn thumbnail_type(path: Seq<char>) -> Seq<char> {
    if ends_with(path, ".webp"@) {
        "image/webp"@
    } else if ends_with(path, ".png"@) {
        "image/png"@
    } else {
        "image/jpeg"@
    }
}

pub fn thumbnail_content_type(path: &str) -> (r: &'static str)
    ensures
        r@ == thumbnail_type(path@),
{
    let p = chars_of(path);
    if ends_with_exec(p.as_slice(), chars_of(".webp").as_slice()) {
        "image/webp"
    } else if ends_with_exec(p.as_slice(), chars_of(".png").as_slice()) {
        "image/png"
    } else {
        "image/jpeg"
    }
}

} // verus!
