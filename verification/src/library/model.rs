use vstd::prelude::*;

use crate::text::{chars_of, eq_chars};

verus! {

/// Pipeline status, advanced step by step while an import runs.
#[derive(Debug, Clone, Copy, PartialEq, Eq, Structural)]
pub enum VideoStatus {
    Probing,
    Extracting,
    Parsing,
    Tokenizing,
    Translating,
    Remuxing,
    Ready,
    Error,
}

/// The lowercase wire name of each status.
pub open spec fn status_name(s: VideoStatus) -> Seq<char> {
    match s {
        VideoStatus::Probing => "probing"@,
        VideoStatus::Extracting => "extracting"@,
        VideoStatus::Parsing => "parsing"@,
        VideoStatus::Tokenizing => "tokenizing"@,
        VideoStatus::Translating => "translating"@,
        VideoStatus::Remuxing => "remuxing"@,
        VideoStatus::Ready => "ready"@,
        VideoStatus::Error => "error"@,
    }
}

/// The status a wire name denotes, if any.
pub open spec fn status_of(s: Seq<char>) -> Option<VideoStatus> {
    if s == "probing"@ {
        Some(VideoStatus::Probing)
    } else if s == "extracting"@ {
        Some(VideoStatus::Extracting)
    } else if s == "parsing"@ {
        Some(VideoStatus::Parsing)
    } else if s == "tokenizing"@ {
        Some(VideoStatus::Tokenizing)
    } else if s == "translating"@ {
        Some(VideoStatus::Translating)
    } else if s == "remuxing"@ {
        Some(VideoStatus::Remuxing)
    } else if s == "ready"@ {
        Some(VideoStatus::Ready)
    } else if s == "error"@ {
        Some(VideoStatus::Error)
    } else {
        None
    }
}

impl VideoStatus {
    pub fn as_str(self) -> (r: &'static str)
        ensures
            r@ == status_name(self),
    {
        match self {
            VideoStatus::Probing => "probing",
            VideoStatus::Extracting => "extracting",
            VideoStatus::Parsing => "parsing",
            VideoStatus::Tokenizing => "tokenizing",
            VideoStatus::Translating => "translating",
            VideoStatus::Remuxing => "remuxing",
            VideoStatus::Ready => "ready",
            VideoStatus::Error => "error",
        }
    }
}


impl VideoStatus {
    /// The status whose wire name is `s`.
    pub fn parse(s: &str) -> (r: Option<VideoStatus>)
        ensures
            r == status_of(s@),
    {
        let c = chars_of(s);
        let probing = chars_of("probing");
        let extracting = chars_of("extracting");
        let parsing = chars_of("parsing");
        let tokenizing = chars_of("tokenizing");
        let translating = chars_of("translating");
        let remuxing = chars_of("remuxing");
        let ready = chars_of("ready");
        let error = chars_of("error");
        if eq_chars(c.as_slice(), probing.as_slice()) {
            Some(VideoStatus::Probing)
        } else if eq_chars(c.as_slice(), extracting.as_slice()) {
            Some(VideoStatus::Extracting)
        } else if eq_chars(c.as_slice(), parsing.as_slice()) {
            Some(VideoStatus::Parsing)
        } else if eq_chars(c.as_slice(), tokenizing.as_slice()) {
            Some(VideoStatus::Tokenizing)
        } else if eq_chars(c.as_slice(), translating.as_slice()) {
            Some(VideoStatus::Translating)
        } else if eq_chars(c.as_slice(), remuxing.as_slice()) {
            Some(VideoStatus::Remuxing)
        } else if eq_chars(c.as_slice(), ready.as_slice()) {
            Some(VideoStatus::Ready)
        } else if eq_chars(c.as_slice(), error.as_slice()) {
            Some(VideoStatus::Error)
        } else {
            None
        }
    }
}

/// Reading back the wire name of a status gives the status again, and
/// a name that parses is the wire name of what it parses to.
pub proof fn status_name_round_trip(s: VideoStatus, name: Seq<char>)
    ensures
        status_of(status_name(s)) == Some(s),
        status_of(name) matches Some(t) ==> status_name(t) == name,
{
    reveal_strlit("probing");
    reveal_strlit("extracting");
    reveal_strlit("parsing");
    reveal_strlit("tokenizing");
    reveal_strlit("translating");
    reveal_strlit("remuxing");
    reveal_strlit("ready");
    reveal_strlit("error");
    // Names of equal length differ at their second character.
    assert("probing"@[1] != "parsing"@[1]);
    assert("extracting"@[1] != "tokenizing"@[1]);
    assert("ready"@[1] != "error"@[1]);
    assert("probing"@.len() == 7 && "parsing"@.len() == 7);
    assert("extracting"@.len() == 10 && "tokenizing"@.len() == 10);
    assert("translating"@.len() == 11 && "remuxing"@.len() == 8);
    assert("ready"@.len() == 5 && "error"@.len() == 5);
    assert("probing"@ != "parsing"@);
    assert("extracting"@ != "tokenizing"@);
    assert("ready"@ != "error"@);
}

} // verus!
