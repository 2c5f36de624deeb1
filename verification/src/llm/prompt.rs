//! Prompt text for batched subtitle translation.

use vstd::prelude::*;

use crate::library::lines::SubtitleLine;
use crate::text::{chars_of, int_text, push_chars, push_i64, string_of};

verus! {

/// Prompt version; a change invalidates the response cache. Bump when
/// the system prompt or schema changes meaningfully.
pub const PROMPT_VERSION: &'static str = "2026-05-17.v1";

pub const SYSTEM: &'static str = "You are translating Japanese anime/show subtitles for a language learner. For each TARGET line, produce:\n- english: natural English translation\n- grammar_note: ONE short sentence (max 100 chars) explaining the key grammar point in the line. Empty string if nothing notable.\n- tone_tags: array from {keigo, casual_female, casual_male, rough_male, polite, kansai_ben, tohoku_ben, archaic, child_speech} or empty.\n\nUse the CONTEXT lines for pronoun/reference resolution but only output entries for TARGET lines.\n\nOutput strict JSON: { \"lines\": [{ \"idx\": <int>, \"english\": \"...\", \"grammar_note\": \"...\", \"tone_tags\": [...] }] }.";

/// A line's text on one line: newlines become spaces.
pub open spec fn one_line(s: Seq<char>) -> Seq<char> {
    s.map_values(|c: char| if c == '\n' { ' ' } else { c })
}

/// Context lines, each as `- <text>\n`.
pub open spec fn context_text(ls: Seq<SubtitleLine>) -> Seq<char>
    decreases ls.len(),
{
    if ls.len() == 0 {
        Seq::empty()
    } else {
        context_text(ls.drop_last()) + "- "@ + one_line(ls.last().raw_text@) + "\n"@
    }
}

/// Target lines, each as `[idx=<idx>] <text>\n`.
pub open spec fn target_text(ls: Seq<SubtitleLine>) -> Seq<char>
    decreases ls.len(),
{
    if ls.len() == 0 {
        Seq::empty()
    } else {
        target_text(ls.drop_last()) + "[idx="@ + int_text(ls.last().idx as int) + "] "@ + one_line(
            ls.last().raw_text@,
        ) + "\n"@
    }
}

/// The user message of a chunk: optional context before, the targets,
/// optional context after.
pub open spec fn user_text(
    before: Seq<SubtitleLine>,
    targets: Seq<SubtitleLine>,
    after: Seq<SubtitleLine>,
) -> Seq<char> {
    let head = if before.len() > 0 {
        "CONTEXT (before):\n"@ + context_text(before) + "\n"@
    } else {
        Seq::empty()
    };
    let tail = if after.len() > 0 {
        "\nCONTEXT (after):\n"@ + context_text(after)
    } else {
        Seq::empty()
    };
    head + "TARGETS:\n"@ + target_text(targets) + tail
}

pub open spec fn derefs(ls: Seq<&SubtitleLine>) -> Seq<SubtitleLine> {
    ls.map_values(|l: &SubtitleLine| *l)
}

fn push_one_line(out: &mut Vec<char>, text: &str)
    ensures
        final(out)@ == old(out)@ + one_line(text@),
{
    let cs = chars_of(text);
    let ghost start = out@;
    let mut i: usize = 0;
    while i < cs.len()
        invariant
            i <= cs@.len(),
            out@ == start + one_line(cs@.take(i as int)),
        decreases cs@.len() - i,
    {
        let c = cs[i];
        out.push(if c == '\n' { ' ' } else { c });
        i = i + 1;
        assert(out@ =~= start + one_line(cs@.take(i as int)));
    }
    assert(cs@.take(cs@.len() as int) =~= cs@);
}

fn push_context(out: &mut Vec<char>, ls: &[&SubtitleLine])
    ensures
        final(out)@ == old(out)@ + context_text(derefs(ls@)),
{
    let dash = chars_of("- ");
    let nl = chars_of("\n");
    let ghost start = out@;
    let mut i: usize = 0;
    while i < ls.len()
        invariant
            i <= ls@.len(),
            dash@ == "- "@,
            nl@ == "\n"@,
            out@ == start + context_text(derefs(ls@.take(i as int))),
        decreases ls@.len() - i,
    {
        let ghost pre = derefs(ls@.take(i as int + 1));
        assert(pre.drop_last() =~= derefs(ls@.take(i as int)));
        assert(pre.last() == *ls@[i as int]);
        push_chars(out, dash.as_slice());
        push_one_line(out, ls[i].raw_text.as_str());
        push_chars(out, nl.as_slice());
        i = i + 1;
        assert(out@ =~= start + context_text(derefs(ls@.take(i as int))));
    }
    assert(ls@.take(ls@.len() as int) =~= ls@);
}

fn push_targets(out: &mut Vec<char>, ls: &[&SubtitleLine])
    ensures
        final(out)@ == old(out)@ + target_text(derefs(ls@)),
{
    let open = chars_of("[idx=");
    let close = chars_of("] ");
    let nl = chars_of("\n");
    let ghost start = out@;
    let mut i: usize = 0;
    while i < ls.len()
        invariant
            i <= ls@.len(),
            open@ == "[idx="@,
            close@ == "] "@,
            nl@ == "\n"@,
            out@ == start + target_text(derefs(ls@.take(i as int))),
        decreases ls@.len() - i,
    {
        let ghost pre = derefs(ls@.take(i as int + 1));
        assert(pre.drop_last() =~= derefs(ls@.take(i as int)));
        assert(pre.last() == *ls@[i as int]);
        push_chars(out, open.as_slice());
        push_i64(out, ls[i].idx);
        push_chars(out, close.as_slice());
        push_one_line(out, ls[i].raw_text.as_str());
        push_chars(out, nl.as_slice());
        i = i + 1;
        assert(out@ =~= start + target_text(derefs(ls@.take(i as int))));
    }
    assert(ls@.take(ls@.len() as int) =~= ls@);
}

/// Builds the user message of a chunk. `before` and `after` are context
/// lines (not translated); `targets` are the lines the model must
/// answer for, each marked with its `idx`.
pub fn user_message(
    before: &[&SubtitleLine],
    targets: &[&SubtitleLine],
    after: &[&SubtitleLine],
) -> (r: String)
    ensures
        r@ == user_text(derefs(before@), derefs(targets@), derefs(after@)),
{
    let mut buf: Vec<char> = Vec::new();
    if before.len() > 0 {
        let h = chars_of("CONTEXT (before):\n");
        push_chars(&mut buf, h.as_slice());
        push_context(&mut buf, before);
        buf.push('\n');
        assert(buf@ =~= "CONTEXT (before):\n"@ + context_text(derefs(before@)) + "\n"@) by {
            reveal_strlit("\n");
        }
    }
    let ghost head = buf@;
    let t = chars_of("TARGETS:\n");
    push_chars(&mut buf, t.as_slice());
    push_targets(&mut buf, targets);
    let ghost mid = buf@;
    if after.len() > 0 {
        let h = chars_of("\nCONTEXT (after):\n");
        push_chars(&mut buf, h.as_slice());
        push_context(&mut buf, after);
    }
    assert(buf@ =~= user_text(derefs(before@), derefs(targets@), derefs(after@)));
    string_of(buf.as_slice())
}

} // verus!
