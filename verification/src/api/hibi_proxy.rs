//! The known-words list forwarded from Hibi is cached server-side for a
//! minute to avoid hammering Hibi during a watch; a word-status change
//! invalidates it. The cache's rules live here; the clock reading, the
//! lock and the Hibi calls are the server's.

use vstd::prelude::*;

use crate::hibi::model::KnownWord;

verus! {

/// How long a fetched known-words list is served, in milliseconds.
pub const KNOWN_TTL_MS: u64 = 60_000;

/// Process-wide cache of the Hibi known-words list: the list and the
/// time it was fetched (milliseconds on a monotonic clock).
pub struct KnownCache {
    entry: Option<(u64, Vec<KnownWord>)>,
}

/// The milliseconds between `then` and `now` (zero if the clock reads
/// earlier, as `Instant::elapsed` saturates).
pub open spec fn elapsed(then: u64, now: u64) -> int {
    if now >= then {
        now - then
    } else {
        0
    }
}

impl KnownCache {
    /// The cached list and when it was fetched, if any.
    pub closed spec fn entry(&self) -> Option<(u64, Seq<KnownWord>)> {
        match self.entry {
            Some((t, items)) => Some((t, items@)),
            None => None,
        }
    }

    /// What a read at `now` is served: the cached list while it is
    /// younger than the time to live.
    pub open spec fn served(&self, now: u64) -> Option<Seq<KnownWord>> {
        match self.entry() {
            Some((t, items)) => if elapsed(t, now) < KNOWN_TTL_MS {
                Some(items)
            } else {
                None
            },
            None => None,
        }
    }

    pub fn new() -> (r: Self)
        ensures
            r.entry() is None,
    {
        KnownCache { entry: None }
    }

    /// The list to answer with at `now` without asking Hibi, if fresh.
    pub fn fresh(&self, now_ms: u64) -> (r: Option<&Vec<KnownWord>>)
        ensures
            match r {
                Some(items) => self.served(now_ms) == Some(items@),
                None => self.served(now_ms) is None,
            },
    {
        match &self.entry {
            Some((t, items)) => {
                let age = if now_ms >= *t { now_ms - *t } else { 0 };
                if age < KNOWN_TTL_MS {
                    Some(items)
                } else {
                    None
                }
            },
            None => None,
        }
    }

    /// Remembers the list Hibi gave at `now`.
    pub fn store(&mut self, now_ms: u64, items: Vec<KnownWord>)
        ensures
            final(self).entry() == Some((now_ms, items@)),
    {
        self.entry = Some((now_ms, items));
    }

    /// Forgets the cached list, so the next read asks Hibi.
    pub fn invalidate(&mut self)
        ensures
            final(self).entry() is None,
    {
        self.entry = None;
    }
}

/// A list stored at `t` is what reads are served until the time to live
/// has passed since `t`, and nothing after; after an invalidation
/// nothing is served.
pub proof fn known_cache_serves_what_was_stored(c: KnownCache, t: u64, items: Seq<KnownWord>, now: u64)
    ensures
        c.entry() == Some((t, items)) ==> (c.served(now) == Some(items) <==> elapsed(t, now)
            < KNOWN_TTL_MS),
        c.entry() == Some((t, items)) && elapsed(t, now) >= KNOWN_TTL_MS ==> c.served(now) is None,
        c.entry() is None ==> c.served(now) is None,
{
}


/// What to do with Hibi's answer to the known-words request.
#[derive(Debug, Clone, Copy, PartialEq, Eq, Structural)]
pub enum KnownWordsReply {
    /// A success: decode the list.
    Decode,
    /// Hibi failed on its side (5xx): answer with an empty list.
    Empty,
    /// Any other status: report the error.
    Fail,
}

/// The answer for an upstream HTTP status: a success is decoded, a
/// server error soft-fails to an empty list, anything else is an error.
pub fn known_words_reply(status: u16) -> (r: KnownWordsReply)
    ensures
        r == (if 200 <= status < 300 {
            KnownWordsReply::Decode
        } else if 500 <= status < 600 {
            KnownWordsReply::Empty
        } else {
            KnownWordsReply::Fail
        }),
{
    if 200 <= status && status < 300 {
        KnownWordsReply::Decode
    } else if 500 <= status && status < 600 {
        KnownWordsReply::Empty
    } else {
        KnownWordsReply::Fail
    }
}

} // verus!
