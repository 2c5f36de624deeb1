//! What both parsers tolerate in their input: a leading byte-order mark
//! and any mix of CRLF, lone CR and LF line endings.

use vstd::prelude::*;

use super::ass::ass_parse;
use super::srt::{normalize_newlines, srt_parse, strip_bom};

verus! {

pub open spec fn has_cr(s: Seq<char>) -> bool {
    exists|i: int| 0 <= i < s.len() && s[i] == '\r'
}

proof fn lemma_normalized_has_no_cr(s: Seq<char>)
    ensures
        !has_cr(normalize_newlines(s)),
    decreases s.len(),
{
    if s.len() > 0 {
        let rest = if s[0] == '\r' && s.len() > 1 && s[1] == '\n' {
            s.skip(2)
        } else {
            s.drop_first()
        };
        lemma_normalized_has_no_cr(rest);
        let head: char = if s[0] == '\r' {
            '\n'
        } else {
            s[0]
        };
        assert(normalize_newlines(s) == seq![head] + normalize_newlines(rest));
        assert forall|i: int| 0 <= i < normalize_newlines(s).len() implies normalize_newlines(s)[i] != '\r' by {
            if i > 0 {
                assert(normalize_newlines(s)[i] == normalize_newlines(rest)[i - 1]);
            }
        }
    }
}

proof fn lemma_normalize_without_cr(s: Seq<char>)
    requires
        !has_cr(s),
    ensures
        normalize_newlines(s) == s,
    decreases s.len(),
{
    if s.len() > 0 {
        assert(s[0] != '\r');
        let rest = s.drop_first();
        assert(!has_cr(rest)) by {
            if has_cr(rest) {
                let i = choose|i: int| 0 <= i < rest.len() && rest[i] == '\r';
                assert(s[i + 1] == '\r');
            }
        }
        lemma_normalize_without_cr(rest);
        assert(seq![s[0]] + rest =~= s);
    }
}

/// Normalising line endings twice is normalising them once.
pub proof fn normalize_newlines_idempotent(s: Seq<char>)
    ensures
        normalize_newlines(normalize_newlines(s)) == normalize_newlines(s),
{
    lemma_normalized_has_no_cr(s);
    lemma_normalize_without_cr(normalize_newlines(s));
}

proof fn lemma_prepared_input(input: Seq<char>)
    ensures
        normalize_newlines(strip_bom(normalize_newlines(input))) == normalize_newlines(strip_bom(input)),
{
    normalize_newlines_idempotent(input);
    if input.len() > 0 && input[0] == '\u{feff}' {
        assert(normalize_newlines(input) == seq![input[0]] + normalize_newlines(input.drop_first()));
        assert((seq![input[0]] + normalize_newlines(input.drop_first())).drop_first() =~= normalize_newlines(
            input.drop_first(),
        ));
        normalize_newlines_idempotent(input.drop_first());
    } else if input.len() > 0 {
        let rest = if input[0] == '\r' && input.len() > 1 && input[1] == '\n' {
            input.skip(2)
        } else {
            input.drop_first()
        };
        let head: char = if input[0] == '\r' {
            '\n'
        } else {
            input[0]
        };
        assert(normalize_newlines(input) == seq![head] + normalize_newlines(rest));
        assert(normalize_newlines(input)[0] == head);
    }
}

/// Line endings do not matter to either parser: a file with CRLF or
/// lone CR line breaks parses exactly as the same file with LF breaks.
pub proof fn line_endings_do_not_matter(input: Seq<char>)
    ensures
        srt_parse(normalize_newlines(input)) == srt_parse(input),
        ass_parse(normalize_newlines(input)) == ass_parse(input),
{
    lemma_prepared_input(input);
}

/// A leading byte-order mark is ignored by either parser.
pub proof fn byte_order_mark_is_ignored(input: Seq<char>)
    requires
        !(input.len() > 0 && input[0] == '\u{feff}'),
    ensures
        srt_parse(seq!['\u{feff}'] + input) == srt_parse(input),
        ass_parse(seq!['\u{feff}'] + input) == ass_parse(input),
{
    assert((seq!['\u{feff}'] + input).drop_first() =~= input);
}

} // verus!
