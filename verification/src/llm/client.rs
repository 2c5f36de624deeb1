//! The chat-completion client's plain parts: messages, cleaning up the
//! model's reply, and shortening text for error messages. The HTTP
//! exchange itself happens outside the library.

use vstd::prelude::*;

use crate::text::{
    Strip, chars_of, ends_with, ends_with_exec, slice_vec, starts_with, starts_with_exec,
    string_of, trim_range, trim_ws,
};

verus! {

/// Single OpenAI-style message.
#[derive(Debug, Clone)]
pub struct ChatMessage {
    pub role: &'static str,
    pub content: String,
}

/// The reply with a surrounding Markdown code fence (```` ```json ````,
/// ```` ```JSON ```` or bare ```` ``` ````) and outer whitespace removed.
pub open spec fn strip_fence(s: Seq<char>) -> Seq<char> {
    let t = trim_ws(s);
    let body = if starts_with(t, "```json"@) {
        t.skip(7)
    } else if starts_with(t, "```JSON"@) {
        t.skip(7)
    } else if starts_with(t, "```"@) {
        t.skip(3)
    } else {
        t
    };
    let inner = if ends_with(body, "```"@) {
        body.take(body.len() - 3)
    } else {
        body
    };
    trim_ws(inner)
}

/// Some models wrap JSON in ```` ```json ... ``` ```` fences even with
/// JSON mode requested; strip them defensively.
pub fn strip_code_fence(s: &str) -> (r: String)
    ensures
        r@ == strip_fence(s@),
{
    proof {
        reveal_strlit("```json");
        reveal_strlit("```JSON");
        reveal_strlit("```");
    }
    let all = chars_of(s);
    let (a, b) = trim_range(all.as_slice(), 0, all.len(), Strip::Whitespace);
    assert(all@.subrange(0, all@.len() as int) =~= s@);
    let t = slice_vec(all.as_slice(), a, b);
    let json_tag = chars_of("```json");
    let upper_tag = chars_of("```JSON");
    let fence = chars_of("```");
    let from: usize = if starts_with_exec(t.as_slice(), json_tag.as_slice()) {
        7
    } else if starts_with_exec(t.as_slice(), upper_tag.as_slice()) {
        7
    } else if starts_with_exec(t.as_slice(), fence.as_slice()) {
        3
    } else {
        0
    };
    assert(t@.skip(0) =~= t@);
    let body = slice_vec(t.as_slice(), from, t.len());
    assert(body@ =~= t@.skip(from as int));
    let to: usize = if ends_with_exec(body.as_slice(), fence.as_slice()) {
        body.len() - 3
    } else {
        body.len()
    };
    let (c, d) = trim_range(body.as_slice(), 0, to, Strip::Whitespace);
    assert(body@.subrange(0, to as int) =~= body@.take(to as int));
    assert(body@.take(body@.len() as int) =~= body@);
    let out = slice_vec(body.as_slice(), c, d);
    string_of(out.as_slice())
}

/// `s` cut to its first `n` characters with an ellipsis appended, when
/// it is longer than `n` characters; `s` itself otherwise.
pub open spec fn truncated(s: Seq<char>, n: int) -> Seq<char> {
    if s.len() > n {
        s.take(n) + seq!['…']
    } else {
        s
    }
}

/// Shortens `s` for an error message or a snippet of a reply body.
pub fn truncate(s: &str, n: usize) -> (r: String)
    ensures
        r@ == truncated(s@, n as int),
{
    let cs = chars_of(s);
    if cs.len() <= n {
        return string_of(cs.as_slice());
    }
    let mut out = slice_vec(cs.as_slice(), 0, n);
    out.push('…');
    assert(out@ =~= s@.take(n as int) + seq!['…']);
    string_of(out.as_slice())
}

/// The two messages of a translation request: the fixed system prompt
/// and the chunk's user text.
pub fn chat_messages(system: &str, user: String) -> (r: Vec<ChatMessage>)
    ensures
        r@.len() == 2,
        r@[0].role@ == "system"@,
        r@[0].content@ == system@,
        r@[1].role@ == "user"@,
        r@[1].content@ == user@,
{
    let mut v: Vec<ChatMessage> = Vec::new();
    v.push(ChatMessage { role: "system", content: system.to_owned() });
    v.push(ChatMessage { role: "user", content: user });
    v
}

} // verus!
