//! Bearer-token gate for `/api/*` (except `/api/health`).
//!
//! The bearer is a static value loaded from `NUKU_TOKEN`. Single user
//! behind Tailscale; this is defence in depth, not real authentication.
//! The token is taken from an `Authorization: Bearer <token>` header, or
//! else from a `token=<percent-encoded token>` query parameter, and is
//! compared with the expected one in constant time.

use vstd::prelude::*;
use vstd::utf8::encode_utf8_decode_utf8;

use crate::error::AppError;
use crate::paths::opt_text;
use crate::text::{
    chars_of, eq_chars, match_at, find_from_exec, lemma_find_from_bounds, slice_vec, split,
    split_exec, split_once, starts_with, starts_with_exec, string_of, views,
};

verus! {

/// The text `s` percent-decoded (`%` and two hex digits give a byte),
/// then read as UTF-8 with invalid sequences replaced.
pub uninterp spec fn percent_decoded(s: Seq<char>) -> Seq<char>;

/// `percent_encoding::percent_decode_str(s).decode_utf8_lossy()`. Text
/// without `%` decodes to itself: its bytes pass unchanged and are
/// valid UTF-8.
#[verifier::external_body]
fn percent_decode(s: &str) -> (r: String)
    ensures
        r@ == percent_decoded(s@),
        !s@.contains('%') ==> r@ == s@,
{
    percent_encoding::percent_decode_str(s).decode_utf8_lossy().into_owned()
}

/// `ConstantTimeEq::ct_eq` of `subtle` on byte slices, converted to
/// `bool`: true exactly when the slices have the same length and bytes.
#[verifier::external_body]
fn ct_eq(a: &[u8], b: &[u8]) -> (r: bool)
    ensures
        r == (a@ == b@),
{
    bool::from(subtle::ConstantTimeEq::ct_eq(a, b))
}

/// The token of an `Authorization` header: what follows `Bearer `.
pub open spec fn header_token(h: Seq<char>) -> Option<Seq<char>> {
    if starts_with(h, "Bearer "@) {
        Some(h.skip(7))
    } else {
        None
    }
}

/// The decoded value of the first `token=` pair among the `&`-separated
/// pairs `kvs[i..]`.
pub open spec fn token_pair_from(kvs: Seq<Seq<char>>, i: int) -> Option<Seq<char>>
    decreases kvs.len() - i,
{
    if i < 0 || i >= kvs.len() {
        None
    } else {
        match split_once(kvs[i], seq!['=']) {
            Some((k, v)) if k == "token"@ => Some(percent_decoded(v)),
            _ => token_pair_from(kvs, i + 1),
        }
    }
}

/// The token of a query string.
pub open spec fn query_token(q: Seq<char>) -> Option<Seq<char>> {
    token_pair_from(split(q, seq!['&']), 0)
}

/// The token a request presents: the header's if it has one, else the
/// query's.
pub open spec fn presented(header: Option<Seq<char>>, query: Option<Seq<char>>) -> Option<Seq<char>> {
    match header {
        Some(h) if header_token(h) is Some => header_token(h),
        _ => match query {
            Some(q) => query_token(q),
            None => None,
        },
    }
}

pub open spec fn opt_str(o: Option<&str>) -> Option<Seq<char>> {
    match o {
        Some(s) => Some(s@),
        None => None,
    }
}

fn header_token_exec(h: &str) -> (r: Option<String>)
    ensures
        opt_text(r) == header_token(h@),
{
    proof {
        reveal_strlit("Bearer ");
    }
    let cs = chars_of(h);
    let tag = chars_of("Bearer ");
    if starts_with_exec(cs.as_slice(), tag.as_slice()) {
        let rest = slice_vec(cs.as_slice(), 7, cs.len());
        assert(rest@ =~= h@.skip(7));
        Some(string_of(rest.as_slice()))
    } else {
        None
    }
}

fn query_token_exec(q: &str) -> (r: Option<String>)
    ensures
        opt_text(r) == query_token(q@),
{
    proof {
        reveal_strlit("token");
    }
    let cs = chars_of(q);
    let amp: [char; 1] = ['&'];
    assert(amp@ =~= seq!['&']);
    let kvs = split_exec(cs.as_slice(), &amp);
    let eq: Vec<char> = vec!['='];
    assert(eq@ =~= seq!['=']);
    let key = chars_of("token");
    let mut i: usize = 0;
    while i < kvs.len()
        invariant
            i <= kvs@.len(),
            views(kvs@) == split(q@, seq!['&']),
            key@ == "token"@,
            eq@ == seq!['='],
            token_pair_from(views(kvs@), 0) == token_pair_from(views(kvs@), i as int),
        decreases kvs@.len() - i,
    {
        let kv = &kvs[i];
        assert(views(kvs@)[i as int] == kv@);
        proof {
            lemma_find_from_bounds(kv@, seq!['='], 0);
        }
        match find_from_exec(kv.as_slice(), eq.as_slice(), 0) {
            Some(j) => {
                let n = kv.len();
                assert(match_at(kv@, seq!['='], j as int));
                let k = slice_vec(kv.as_slice(), 0, j);
                if eq_chars(k.as_slice(), key.as_slice()) {
                    let v = slice_vec(kv.as_slice(), j + 1, n);
                    let value = string_of(v.as_slice());
                    return Some(percent_decode(value.as_str()));
                }
            },
            None => {},
        }
        assert(token_pair_from(views(kvs@), i as int) == token_pair_from(views(kvs@), i + 1));
        i = i + 1;
    }
    None
}

/// The token a request presents, from its `Authorization` header text
/// and its query string.
pub fn presented_token(authorization: Option<&str>, query: Option<&str>) -> (r: Option<String>)
    ensures
        opt_text(r) == presented(opt_str(authorization), opt_str(query)),
{
    match authorization {
        Some(h) => match header_token_exec(h) {
            Some(t) => {
                return Some(t);
            },
            None => {},
        },
        None => {},
    }
    match query {
        Some(q) => query_token_exec(q),
        None => None,
    }
}

/// Lets a request through when it presents exactly the expected token;
/// answers `Unauthorised` otherwise.
pub fn require_bearer(expected: &str, authorization: Option<&str>, query: Option<&str>) -> (r: Result<
    (),
    AppError,
>)
    ensures
        r is Ok <==> presented(opt_str(authorization), opt_str(query)) == Some(expected@),
        r matches Err(e) ==> e is Unauthorised,
{
    match presented_token(authorization, query) {
        None => Err(AppError::Unauthorised),
        Some(t) => {
            let ok = ct_eq(expected.as_bytes(), t.as_str().as_bytes());
            proof {
                encode_utf8_decode_utf8(expected@);
                encode_utf8_decode_utf8(t@);
            }
            if ok {
                Ok(())
            } else {
                Err(AppError::Unauthorised)
            }
        },
    }
}

} // verus!
