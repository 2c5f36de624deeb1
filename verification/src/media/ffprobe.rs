//! The part of an ffprobe report the server consumes: stream kinds,
//! codecs, language and title tags.

use vstd::prelude::*;

use crate::text::str_is;

verus! {

/// What an ffprobe stream carries.
#[derive(Debug, Clone, Copy, PartialEq, Eq, Structural)]
pub enum StreamKind {
    Video,
    Audio,
    Subtitle,
    Other,
}

/// One stream of a media file.
#[derive(Debug, Clone)]
pub struct Stream {
    pub index: usize,
    pub codec_type: StreamKind,
    pub codec_name: String,
    pub language: Option<String>,
    pub title: Option<String>,
}

/// The probe summary: duration and streams in declaration order.
#[derive(Debug, Clone)]
pub struct Probe {
    pub duration_ms: i64,
    pub streams: Vec<Stream>,
}

/// The kind an ffprobe `codec_type` names: `video`, `audio` and
/// `subtitle` are recognised, anything else (or nothing) is `Other`.
pub open spec fn kind_named(codec_type: Option<Seq<char>>) -> StreamKind {
    match codec_type {
        Some(t) => if t == seq!['v', 'i', 'd', 'e', 'o'] {
            StreamKind::Video
        } else if t == seq!['a', 'u', 'd', 'i', 'o'] {
            StreamKind::Audio
        } else if t == seq!['s', 'u', 'b', 't', 'i', 't', 'l', 'e'] {
            StreamKind::Subtitle
        } else {
            StreamKind::Other
        },
        None => StreamKind::Other,
    }
}

pub open spec fn opt_view(o: Option<&str>) -> Option<Seq<char>> {
    match o {
        Some(s) => Some(s@),
        None => None,
    }
}

/// Classifies an ffprobe `codec_type`.
pub fn stream_kind(codec_type: Option<&str>) -> (k: StreamKind)
    ensures
        k == kind_named(opt_view(codec_type)),
{
    match codec_type {
        Some(t) => if str_is(t, &['v', 'i', 'd', 'e', 'o']) {
            StreamKind::Video
        } else if str_is(t, &['a', 'u', 'd', 'i', 'o']) {
            StreamKind::Audio
        } else if str_is(t, &['s', 'u', 'b', 't', 'i', 't', 'l', 'e']) {
            StreamKind::Subtitle
        } else {
            StreamKind::Other
        },
        None => StreamKind::Other,
    }
}

/// A stream from the raw ffprobe fields: the kind classified, a missing
/// codec name read as empty, the tags kept as given.
pub fn stream_from_raw(
    index: usize,
    codec_type: Option<&str>,
    codec_name: Option<String>,
    language: Option<String>,
    title: Option<String>,
) -> (s: Stream)
    ensures
        s.index == index,
        s.codec_type == kind_named(opt_view(codec_type)),
        s.codec_name@ == (match codec_name {
            Some(n) => n@,
            None => Seq::<char>::empty(),
        }),
        s.language == language,
        s.title == title,
{
    let name = match codec_name {
        Some(n) => n,
        None => String::new(),
    };
    Stream { index, codec_type: stream_kind(codec_type), codec_name: name, language, title }
}

/// The streams of `kind`, in declaration order.
pub open spec fn of_kind(streams: Seq<Stream>, kind: StreamKind) -> Seq<Stream> {
    streams.filter(|s: Stream| s.codec_type == kind)
}

impl Probe {
    /// Streams of the given kind, in declaration order.
    pub fn streams_of(&self, kind: StreamKind) -> (r: Vec<&Stream>)
        ensures
            r@.map_values(|s: &Stream| *s) == of_kind(self.streams@, kind),
    {
        let mut out: Vec<&Stream> = Vec::new();
        let mut i: usize = 0;
        while i < self.streams.len()
            invariant
                i <= self.streams@.len(),
                out@.map_values(|s: &Stream| *s) == of_kind(self.streams@.take(i as int), kind),
            decreases self.streams@.len() - i,
        {
            let s = &self.streams[i];
            let ghost before = out@;
            proof {
                reveal(Seq::filter);
            }
            let ghost pre = self.streams@.take(i as int + 1);
            assert(pre.drop_last() =~= self.streams@.take(i as int));
            assert(pre.last() == self.streams@[i as int]);
            assert(of_kind(pre, kind) == (if pre.last().codec_type == kind {
                of_kind(pre.drop_last(), kind).push(pre.last())
            } else {
                of_kind(pre.drop_last(), kind)
            }));
            if s.codec_type == kind {
                out.push(s);
                assert(out@.map_values(|s: &Stream| *s) =~= before.map_values(|s: &Stream| *s).push(*s));
            }
            i = i + 1;
        }
        assert(self.streams@.take(self.streams@.len() as int) =~= self.streams@);
        out
    }
}

} // verus!
