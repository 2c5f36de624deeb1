//! Subtitle lines and the SRT / ASS parsers that produce them.

use vstd::prelude::*;

pub mod ass;
pub mod extract;
pub mod input;
pub mod srt;
pub mod timing;

verus! {

/// One subtitle line as parsed from SRT/ASS.
#[derive(Debug, Clone, PartialEq, Eq)]
pub struct Line {
    pub idx: usize,
    pub start_ms: i64,
    pub end_ms: i64,
    pub text: String,
}

/// A subtitle line as plain mathematical values.
pub struct LineView {
    pub idx: int,
    pub start_ms: int,
    pub end_ms: int,
    pub text: Seq<char>,
}

impl View for Line {
    type V = LineView;

    open spec fn view(&self) -> LineView {
        LineView {
            idx: self.idx as int,
            start_ms: self.start_ms as int,
            end_ms: self.end_ms as int,
            text: self.text@,
        }
    }
}

/// The views of a list of lines.
pub open spec fn lines_view(v: Seq<Line>) -> Seq<LineView> {
    Seq::new(v.len(), |i: int| v[i]@)
}

/// Why a subtitle file could not be parsed.
#[derive(Debug, Clone, Copy, PartialEq, Eq, Structural)]
pub enum SubtitleError {
    /// An SRT block had no line at all.
    EmptyBlock,
    /// An SRT block's first line is no timing line and no second line follows.
    ExpectedTimestampLine,
    /// A timing line has no `-->`.
    MissingArrow,
    /// A timestamp does not have the `H:MM:SS` shape.
    InvalidTimestamp,
    /// The hours field is no integer.
    BadHours,
    /// The minutes field is no integer.
    BadMinutes,
    /// The seconds field is no integer.
    BadSeconds,
    /// An ASS timestamp has no `.` before its centiseconds.
    MissingCentiseconds,
    /// The centiseconds field is no integer.
    BadCentiseconds,
    /// The first three bytes of an SRT fraction end inside a character.
    FractionSplitsChar,
    /// A timestamp does not fit in 64-bit milliseconds.
    Overflow,
    /// An ASS file has no `[Events]` section.
    NoEventsSection,
    /// The `[Events]` section has no `Format:` line.
    NoFormatLine,
    /// The `Format:` line names no `Start` column.
    MissingStartColumn,
    /// The `Format:` line names no `End` column.
    MissingEndColumn,
    /// The `Format:` line names no `Text` column.
    MissingTextColumn,
}

} // verus!
