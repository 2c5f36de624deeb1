//! Media facts: the ffprobe stream model and the ffmpeg invocations the
//! server runs. Running the tools happens outside the library.

pub mod ffprobe;
pub mod remux;
pub mod stream;

pub use ffprobe::{Probe, Stream, StreamKind};
