//! Minimal ASS/SSA parser. We only need the Dialogue events; the rest
//! (script info, styles, fonts) is skipped. Inline override blocks
//! (`{\an8}`, `{\fad(...)}`, etc.) and `\N` line breaks are stripped.

use vstd::prelude::*;

use super::srt::{normalize_exec, normalize_newlines, strip_bom};
use super::timing::{combine_ms, fits_i64, ms_total};
use super::{Line, LineView, SubtitleError, lines_view};
use crate::text::{
    Strip, chars_of, string_of as string_of_chars, find, find_char_from, find_from, find_from_exec, lemma_find_from_bounds,
    parse_i64, parse_i64_exec, parse_u32, parse_u32_exec, slice_vec, split, split_exec,
    splitn, splitn_exec, starts_with, starts_with_exec, trim_end,
    trim_end_range, trim_range, trim_start, trim_start_range, trim_ws, views,
};

verus! {

/// One cue before numbering: start, end, text.
pub type Cue = (int, int, Seq<char>);

// ------------------------------------------------------------ the model

pub open spec fn events_upper() -> Seq<char> {
    seq!['[', 'E', 'v', 'e', 'n', 't', 's', ']']
}

pub open spec fn events_lower() -> Seq<char> {
    seq!['[', 'e', 'v', 'e', 'n', 't', 's', ']']
}

pub open spec fn format_tag() -> Seq<char> {
    seq!['F', 'o', 'r', 'm', 'a', 't', ':']
}

pub open spec fn dialogue_tag() -> Seq<char> {
    seq!['D', 'i', 'a', 'l', 'o', 'g', 'u', 'e', ':']
}

pub open spec fn start_name() -> Seq<char> {
    seq!['S', 't', 'a', 'r', 't']
}

pub open spec fn end_name() -> Seq<char> {
    seq!['E', 'n', 'd']
}

pub open spec fn text_name() -> Seq<char> {
    seq!['T', 'e', 'x', 't']
}

/// `str::lines` on text without carriage returns: the pieces between
/// newlines, without a final empty piece.
pub open spec fn lines_of(s: Seq<char>) -> Seq<Seq<char>> {
    let p = split(s, seq!['\n']);
    if p.len() > 0 && p.last().len() == 0 {
        p.drop_last()
    } else {
        p
    }
}

/// `s.trim_start_matches(pat)`: every leading copy of `pat` removed.
pub open spec fn strip_prefixes(s: Seq<char>, pat: Seq<char>) -> Seq<char>
    decreases s.len(),
{
    if pat.len() > 0 && starts_with(s, pat) {
        strip_prefixes(s.skip(pat.len() as int), pat)
    } else {
        s
    }
}

/// Code of `c` with ASCII upper case folded to lower case.
pub open spec fn lower_code(c: char) -> int {
    if 'A' <= c && c <= 'Z' {
        c as int + 32
    } else {
        c as int
    }
}

/// `a.eq_ignore_ascii_case(b)`.
pub open spec fn eq_ignore_case(a: Seq<char>, b: Seq<char>) -> bool {
    a.len() == b.len() && forall|i: int| 0 <= i < a.len() ==> lower_code(a[i]) == lower_code(b[i])
}

/// First index from `j` on of a column named `name`, case aside.
pub open spec fn column_from(cols: Seq<Seq<char>>, name: Seq<char>, j: int) -> Option<int>
    decreases cols.len() - j,
{
    if j < 0 || j >= cols.len() {
        None
    } else if eq_ignore_case(cols[j], name) {
        Some(j)
    } else {
        column_from(cols, name, j + 1)
    }
}

/// First line from `j` on whose trimmed start begins with `Format:`.
pub open spec fn format_from(ls: Seq<Seq<char>>, j: int) -> Option<int>
    decreases ls.len() - j,
{
    if j < 0 || j >= ls.len() {
        None
    } else if starts_with(trim_start(ls[j], Strip::Whitespace), format_tag()) {
        Some(j)
    } else {
        format_from(ls, j + 1)
    }
}

/// The column names of a `Format:` line.
pub open spec fn columns_of(line: Seq<char>) -> Seq<Seq<char>> {
    split(strip_prefixes(trim_start(line, Strip::Whitespace), format_tag()), seq![',']).map_values(
        |c: Seq<char>| trim_ws(c),
    )
}

/// The leading ASCII digits of `s`.
pub open spec fn leading_digits(s: Seq<char>) -> Seq<char>
    decreases s.len(),
{
    if s.len() > 0 && '0' <= s[0] && s[0] <= '9' {
        seq![s[0]] + leading_digits(s.drop_first())
    } else {
        seq![]
    }
}

/// The drawing mode after an override block `{block}`: a `\p<n>` in it
/// switches drawing on for `n > 0` and off for `n == 0`.
pub open spec fn drawing_after(block: Seq<char>, drawing: bool) -> bool {
    match find(block, seq!['\\', 'p']) {
        Some(p) => match parse_u32(leading_digits(block.skip(p + 2))) {
            Some(n) => n > 0,
            None => drawing,
        },
        None => drawing,
    }
}

/// Text of `t[i..]` with override blocks, drawing runs and `\N` / `\n` /
/// `\h` escapes rewritten, starting in drawing mode `drawing`.
pub open spec fn tags_scan(t: Seq<char>, i: int, drawing: bool) -> Seq<char>
    decreases t.len() - i,
{
    if i < 0 || i >= t.len() {
        seq![]
    } else if t[i] == '{' {
        let close = find_from(t, seq!['}'], i + 1);
        let block_end = match close {
            Some(j) => j,
            None => t.len() as int,
        };
        let next = match close {
            Some(j) => j + 1,
            None => t.len() as int,
        };
        proof {
            lemma_find_from_bounds(t, seq!['}'], i + 1);
        }
        tags_scan(t, next, drawing_after(t.subrange(i + 1, block_end), drawing))
    } else if drawing {
        tags_scan(t, i + 1, drawing)
    } else if t[i] == '\\' && i + 1 < t.len() && (t[i + 1] == 'N' || t[i + 1] == 'n') {
        seq!['\n'] + tags_scan(t, i + 2, drawing)
    } else if t[i] == '\\' && i + 1 < t.len() && t[i + 1] == 'h' {
        seq![' '] + tags_scan(t, i + 2, drawing)
    } else {
        seq![t[i]] + tags_scan(t, i + 1, drawing)
    }
}

/// Dialogue text with override blocks `{...}`, drawing commands and
/// line-break escapes handled, then trimmed.
pub open spec fn strip_tags(t: Seq<char>) -> Seq<char> {
    trim_ws(tags_scan(t, 0, false))
}

/// Milliseconds of an ASS timestamp `H:MM:SS.cc`.
pub open spec fn ass_ts(ts: Seq<char>) -> Result<int, SubtitleError> {
    let parts = split(ts, seq![':']);
    if parts.len() != 3 {
        Err(SubtitleError::InvalidTimestamp)
    } else {
        match parse_i64(parts[0]) {
            None => Err(SubtitleError::BadHours),
            Some(h) => match parse_i64(parts[1]) {
                None => Err(SubtitleError::BadMinutes),
                Some(m) => match find(parts[2], seq!['.']) {
                    None => Err(SubtitleError::MissingCentiseconds),
                    Some(d) => match parse_i64(parts[2].subrange(0, d)) {
                        None => Err(SubtitleError::BadSeconds),
                        Some(s) => match parse_i64(parts[2].subrange(d + 1, parts[2].len() as int)) {
                            None => Err(SubtitleError::BadCentiseconds),
                            Some(cs) => if fits_i64(cs * 10) {
                                match ms_total(h, m, s, cs * 10) {
                                    Some(v) => Ok(v),
                                    None => Err(SubtitleError::Overflow),
                                }
                            } else {
                                Err(SubtitleError::Overflow)
                            },
                        },
                    },
                },
            },
        }
    }
}

/// One event row: `None` when it is skipped, otherwise its cue or the
/// reason a timestamp in it is malformed.
pub open spec fn ass_row(raw: Seq<char>, n: int, sc: int, ec: int, tc: int) -> Option<
    Result<Cue, SubtitleError>,
> {
    let r = trim_end(raw, Strip::Whitespace);
    if !starts_with(r, dialogue_tag()) {
        None
    } else {
        let payload = trim_ws(strip_prefixes(trim_start(r, Strip::Whitespace), dialogue_tag()));
        let parts = splitn(payload, ',', n as nat);
        if parts.len() < n {
            None
        } else {
            match ass_ts(trim_ws(parts[sc])) {
                Err(e) => Some(Err(e)),
                Ok(a) => match ass_ts(trim_ws(parts[ec])) {
                    Err(e) => Some(Err(e)),
                    Ok(b) => {
                        let t = strip_tags(parts[tc]);
                        if t.len() == 0 {
                            None
                        } else {
                            Some(Ok((a, b, t)))
                        }
                    },
                },
            }
        }
    }
}

/// Cues of `rows` appended to `acc`; the first malformed row stops it.
pub open spec fn ass_fold(rows: Seq<Seq<char>>, n: int, sc: int, ec: int, tc: int, acc: Seq<Cue>) -> Result<
    Seq<Cue>,
    SubtitleError,
>
    decreases rows.len(),
{
    if rows.len() == 0 {
        Ok(acc)
    } else {
        match ass_row(rows[0], n, sc, ec, tc) {
            None => ass_fold(rows.drop_first(), n, sc, ec, tc, acc),
            Some(Err(e)) => Err(e),
            Some(Ok(c)) => ass_fold(rows.drop_first(), n, sc, ec, tc, acc.push(c)),
        }
    }
}

/// Index at which a cue with start `key` goes into `sorted`: after every
/// cue that does not start later.
pub open spec fn insert_pos(sorted: Seq<Cue>, key: int, j: int) -> int
    decreases sorted.len() - j,
{
    if j < 0 || j >= sorted.len() {
        sorted.len() as int
    } else if sorted[j].0 > key {
        j
    } else {
        insert_pos(sorted, key, j + 1)
    }
}

/// Cues stably sorted by start time (`sort_by_key` on the start).
pub open spec fn sort_by_start(s: Seq<Cue>) -> Seq<Cue>
    decreases s.len(),
{
    if s.len() == 0 {
        seq![]
    } else {
        let rest = sort_by_start(s.drop_last());
        rest.insert(insert_pos(rest, s.last().0, 0), s.last())
    }
}

/// Cues numbered by position.
pub open spec fn number_cues(s: Seq<Cue>) -> Seq<LineView> {
    Seq::new(
        s.len(),
        |i: int| LineView { idx: i, start_ms: s[i].0, end_ms: s[i].1, text: s[i].2 },
    )
}

/// What `parse` returns for `input`.
pub open spec fn ass_parse(input: Seq<char>) -> Result<Seq<LineView>, SubtitleError> {
    let s = normalize_newlines(strip_bom(input));
    let pos = match find(s, events_upper()) {
        Some(p) => Some(p),
        None => find(s, events_lower()),
    };
    match pos {
        None => Err(SubtitleError::NoEventsSection),
        Some(p) => {
            let ls = lines_of(s.skip(p));
            match format_from(ls, 0) {
                None => Err(SubtitleError::NoFormatLine),
                Some(fi) => {
                    let cols = columns_of(ls[fi]);
                    match column_from(cols, start_name(), 0) {
                        None => Err(SubtitleError::MissingStartColumn),
                        Some(sc) => match column_from(cols, end_name(), 0) {
                            None => Err(SubtitleError::MissingEndColumn),
                            Some(ec) => match column_from(cols, text_name(), 0) {
                                None => Err(SubtitleError::MissingTextColumn),
                                Some(tc) => match ass_fold(
                                    ls.skip(fi + 1),
                                    cols.len() as int,
                                    sc,
                                    ec,
                                    tc,
                                    seq![],
                                ) {
                                    Err(e) => Err(e),
                                    Ok(cues) => Ok(number_cues(sort_by_start(cues))),
                                },
                            },
                        },
                    }
                },
            }
        },
    }
}

// ----------------------------------------------------------- exec parts

proof fn lemma_match_at_skip(s: Seq<char>, pat: Seq<char>, i: int)
    requires
        0 <= i <= s.len(),
    ensures
        starts_with(s.skip(i), pat) == crate::text::match_at(s, pat, i),
{
    if i + pat.len() <= s.len() {
        assert(s.skip(i).subrange(0, pat.len() as int) =~= s.subrange(i, i + pat.len()));
    }
}

/// Offset `a` with `s[a..] == strip_prefixes(s, pat)`.
fn strip_prefixes_exec(s: &[char], pat: &[char]) -> (a: usize)
    ensures
        a <= s@.len(),
        s@.skip(a as int) == strip_prefixes(s@, pat@),
{
    let mut i: usize = 0;
    assert(s@.skip(0) =~= s@);
    if pat.len() == 0 {
        return 0;
    }
    let n = s.len();
    while crate::text::match_at_exec(s, pat, i)
        invariant
            n == s@.len(),
            pat@.len() > 0,
            i <= s@.len(),
            strip_prefixes(s@, pat@) == strip_prefixes(s@.skip(i as int), pat@),
        decreases s@.len() - i,
    {
        proof {
            lemma_match_at_skip(s@, pat@, i as int);
            assert(s@.skip(i as int).skip(pat@.len() as int) =~= s@.skip(i + pat@.len()));
        }
        i = i + pat.len();
    }
    proof {
        lemma_match_at_skip(s@, pat@, i as int);
    }
    i
}

/// `lines_of` at run time.
fn lines_exec(s: &[char]) -> (r: Vec<Vec<char>>)
    ensures
        views(r@) == lines_of(s@),
{
    let nl: Vec<char> = vec!['\n'];
    assert(nl@ =~= seq!['\n']);
    let mut p = split_exec(s, nl.as_slice());
    let len = p.len();
    if len > 0 && p[len - 1].len() == 0 {
        let ghost before = p@;
        p.pop();
        assert(views(p@) =~= views(before).drop_last());
        assert(views(before).last() == before[len - 1]@);
    }
    p
}

/// `format_from(ls, 0)` at run time.
fn format_exec(ls: &Vec<Vec<char>>) -> (r: Option<usize>)
    ensures
        match r {
            Some(j) => format_from(views(ls@), 0) == Some(j as int) && j < ls@.len(),
            None => format_from(views(ls@), 0) is None,
        },
{
    let tag: Vec<char> = vec!['F', 'o', 'r', 'm', 'a', 't', ':'];
    assert(tag@ =~= format_tag());
    let mut j: usize = 0;
    while j < ls.len()
        invariant
            j <= ls@.len(),
            tag@ == format_tag(),
            format_from(views(ls@), 0) == format_from(views(ls@), j as int),
        decreases ls@.len() - j,
    {
        let l = &ls[j];
        let a = trim_start_range(l.as_slice(), 0, l.len(), Strip::Whitespace);
        assert(l@.subrange(0, l@.len() as int) =~= l@);
        let rest = slice_vec(l.as_slice(), a, l.len());
        assert(views(ls@)[j as int] == l@);
        if starts_with_exec(rest.as_slice(), tag.as_slice()) {
            return Some(j);
        }
        j = j + 1;
    }
    None
}

fn lower_code_exec(c: char) -> (r: u32)
    ensures
        r == lower_code(c),
{
    if 'A' <= c && c <= 'Z' {
        (c as u32) + 32
    } else {
        c as u32
    }
}

fn eq_ignore_case_exec(a: &[char], b: &[char]) -> (r: bool)
    ensures
        r == eq_ignore_case(a@, b@),
{
    if a.len() != b.len() {
        return false;
    }
    let mut i: usize = 0;
    while i < a.len()
        invariant
            a@.len() == b@.len(),
            i <= a@.len(),
            forall|t: int| 0 <= t < i ==> lower_code(a@[t]) == lower_code(b@[t]),
        decreases a@.len() - i,
    {
        if lower_code_exec(a[i]) != lower_code_exec(b[i]) {
            return false;
        }
        i = i + 1;
    }
    true
}

/// `column_from(cols, name, 0)` at run time.
fn column_exec(cols: &Vec<Vec<char>>, name: &[char]) -> (r: Option<usize>)
    ensures
        match r {
            Some(j) => column_from(views(cols@), name@, 0) == Some(j as int) && j < cols@.len(),
            None => column_from(views(cols@), name@, 0) is None,
        },
{
    let mut j: usize = 0;
    while j < cols.len()
        invariant
            j <= cols@.len(),
            column_from(views(cols@), name@, 0) == column_from(views(cols@), name@, j as int),
        decreases cols@.len() - j,
    {
        assert(views(cols@)[j as int] == cols@[j as int]@);
        if eq_ignore_case_exec(cols[j].as_slice(), name) {
            return Some(j);
        }
        j = j + 1;
    }
    None
}

/// `columns_of(line)` at run time.
fn columns_exec(line: &[char]) -> (r: Vec<Vec<char>>)
    ensures
        views(r@) == columns_of(line@),
{
    let a = trim_start_range(line, 0, line.len(), Strip::Whitespace);
    assert(line@.subrange(0, line@.len() as int) =~= line@);
    let rest = slice_vec(line, a, line.len());
    let tag: Vec<char> = vec!['F', 'o', 'r', 'm', 'a', 't', ':'];
    assert(tag@ =~= format_tag());
    let b = strip_prefixes_exec(rest.as_slice(), tag.as_slice());
    let body = slice_vec(rest.as_slice(), b, rest.len());
    assert(body@ =~= rest@.skip(b as int));
    let comma: Vec<char> = vec![','];
    assert(comma@ =~= seq![',']);
    let raw = split_exec(body.as_slice(), comma.as_slice());
    let mut out: Vec<Vec<char>> = Vec::new();
    let mut i: usize = 0;
    while i < raw.len()
        invariant
            i <= raw@.len(),
            views(out@) == views(raw@).take(i as int).map_values(|c: Seq<char>| trim_ws(c)),
        decreases raw@.len() - i,
    {
        let piece = &raw[i];
        let (x, y) = trim_range(piece.as_slice(), 0, piece.len(), Strip::Whitespace);
        assert(piece@.subrange(0, piece@.len() as int) =~= piece@);
        let ghost before = out@;
        let tp = slice_vec(piece.as_slice(), x, y);
        assert(tp@ == trim_ws(piece@));
        out.push(tp);
        assert(views(raw@)[i as int] == piece@);
        assert(views(out@) =~= views(before).push(trim_ws(piece@)));
        assert(views(raw@).take(i + 1) =~= views(raw@).take(i as int).push(piece@));
        assert(views(out@) =~= views(raw@).take(i + 1).map_values(|c: Seq<char>| trim_ws(c)));
        i = i + 1;
    }
    assert(views(raw@).take(raw@.len() as int) =~= views(raw@));
    out
}

/// `leading_digits(s[lo..])` as an end index.
fn leading_digits_end(s: &[char], lo: usize) -> (j: usize)
    requires
        lo <= s@.len(),
    ensures
        lo <= j <= s@.len(),
        s@.subrange(lo as int, j as int) == leading_digits(s@.skip(lo as int)),
{
    let mut j = lo;
    while j < s.len() && '0' <= s[j] && s[j] <= '9'
        invariant
            lo <= j <= s@.len(),
            leading_digits(s@.skip(lo as int)) == s@.subrange(lo as int, j as int)
                + leading_digits(s@.skip(j as int)),
        decreases s@.len() - j,
    {
        let ghost t = s@.skip(j as int);
        assert(t[0] == s@[j as int]);
        assert(t.drop_first() =~= s@.skip(j + 1));
        assert(s@.subrange(lo as int, j + 1) =~= s@.subrange(lo as int, j as int) + seq![
            s@[j as int],
        ]);
        j = j + 1;
    }
    proof {
        let t = s@.skip(j as int);
        if t.len() > 0 {
            assert(t[0] == s@[j as int]);
        }
        assert(leading_digits(t) =~= seq![]);
        assert(s@.subrange(lo as int, j as int) + seq![] =~= s@.subrange(lo as int, j as int));
    }
    j
}

/// `drawing_after(block, drawing)` at run time.
fn drawing_after_exec(block: &[char], drawing: bool) -> (r: bool)
    ensures
        r == drawing_after(block@, drawing),
{
    let pat: Vec<char> = vec!['\\', 'p'];
    assert(pat@ =~= seq!['\\', 'p']);
    match find_from_exec(block, pat.as_slice(), 0) {
        None => drawing,
        Some(p) => {
            proof {
                lemma_find_from_bounds(block@, pat@, 0);
                assert(crate::text::match_at(block@, pat@, p as int));
            }
            let bl = block.len();
            assert(p + 2 <= bl);
            let e = leading_digits_end(block, p + 2);
            match parse_u32_exec(block, p + 2, e) {
                Some(n) => n > 0,
                None => drawing,
            }
        },
    }
}

/// `tags_scan(t, 0, false)` at run time.
fn tags_exec(t: &[char]) -> (r: Vec<char>)
    ensures
        r@ == tags_scan(t@, 0, false),
{
    let n = t.len();
    let mut out: Vec<char> = Vec::new();
    let mut i: usize = 0;
    let mut drawing = false;
    while i < n
        invariant
            n == t@.len(),
            i <= n,
            out@ + tags_scan(t@, i as int, drawing) == tags_scan(t@, 0, false),
        decreases n - i,
    {
        let c = t[i];
        let ghost old_out = out@;
        let ghost old_i = i as int;
        let ghost old_d = drawing;
        if c == '{' {
            let close = find_char_from(t, '}', i + 1);
            proof {
                lemma_find_from_bounds(t@, seq!['}'], i + 1);
            }
            let (block_end, next) = match close {
                Some(j) => (j, j + 1),
                None => (n, n),
            };
            let block = slice_vec(t, i + 1, block_end);
            drawing = drawing_after_exec(block.as_slice(), drawing);
            i = next;
        } else if drawing {
            i = i + 1;
        } else if c == '\\' && i + 1 < n && (t[i + 1] == 'N' || t[i + 1] == 'n') {
            out.push('\n');
            i = i + 2;
        } else if c == '\\' && i + 1 < n && t[i + 1] == 'h' {
            out.push(' ');
            i = i + 2;
        } else {
            out.push(c);
            i = i + 1;
        }
        assert(out@ + tags_scan(t@, i as int, drawing) =~= old_out + tags_scan(
            t@,
            old_i,
            old_d,
        ));
    }
    assert(out@ + seq![] =~= out@);
    out
}

/// `strip_tags(t)` at run time.
fn strip_tags_exec(t: &[char]) -> (r: Vec<char>)
    ensures
        r@ == strip_tags(t@),
{
    let raw = tags_exec(t);
    let (a, b) = trim_range(raw.as_slice(), 0, raw.len(), Strip::Whitespace);
    assert(raw@.subrange(0, raw@.len() as int) =~= raw@);
    slice_vec(raw.as_slice(), a, b)
}

/// `ass_ts(ts)` at run time.
fn ass_ts_exec(ts: &[char]) -> (r: Result<i64, SubtitleError>)
    ensures
        match r {
            Ok(v) => ass_ts(ts@) == Ok::<int, SubtitleError>(v as int),
            Err(e) => ass_ts(ts@) == Err::<int, SubtitleError>(e),
        },
{
    let colon: Vec<char> = vec![':'];
    assert(colon@ =~= seq![':']);
    let parts = split_exec(ts, colon.as_slice());
    if parts.len() != 3 {
        return Err(SubtitleError::InvalidTimestamp);
    }
    assert(views(parts@)[0] == parts@[0]@);
    assert(views(parts@)[1] == parts@[1]@);
    assert(views(parts@)[2] == parts@[2]@);
    let p0 = &parts[0];
    let p1 = &parts[1];
    let p2 = &parts[2];
    assert(p0@.subrange(0, p0@.len() as int) =~= p0@);
    assert(p1@.subrange(0, p1@.len() as int) =~= p1@);
    let h = match parse_i64_exec(p0.as_slice(), 0, p0.len()) {
        None => return Err(SubtitleError::BadHours),
        Some(v) => v,
    };
    let m = match parse_i64_exec(p1.as_slice(), 0, p1.len()) {
        None => return Err(SubtitleError::BadMinutes),
        Some(v) => v,
    };
    let d = match find_char_from(p2.as_slice(), '.', 0) {
        None => return Err(SubtitleError::MissingCentiseconds),
        Some(d) => d,
    };
    proof {
        lemma_find_from_bounds(p2@, seq!['.'], 0);
        assert(crate::text::match_at(p2@, seq!['.'], d as int));
    }
    let p2len = p2.len();
    assert(d < p2len);
    let s = match parse_i64_exec(p2.as_slice(), 0, d) {
        None => return Err(SubtitleError::BadSeconds),
        Some(v) => v,
    };
    let cs = match parse_i64_exec(p2.as_slice(), d + 1, p2.len()) {
        None => return Err(SubtitleError::BadCentiseconds),
        Some(v) => v,
    };
    let cs10 = (cs as i128) * 10;
    if cs10 < -9223372036854775808i128 || cs10 > 9223372036854775807i128 {
        return Err(SubtitleError::Overflow);
    }
    match combine_ms(h, m, s, cs10) {
        None => Err(SubtitleError::Overflow),
        Some(v) => Ok(v),
    }
}


/// A cue at run time: start, end, text.
type CueExec = (i64, i64, Vec<char>);

pub open spec fn cue_view(c: CueExec) -> Cue {
    (c.0 as int, c.1 as int, c.2@)
}

pub open spec fn cues_view(v: Seq<CueExec>) -> Seq<Cue> {
    Seq::new(v.len(), |i: int| cue_view(v[i]))
}

/// `ass_row` at run time.
fn row_exec(raw: &[char], n: usize, sc: usize, ec: usize, tc: usize) -> (r: Option<
    Result<CueExec, SubtitleError>,
>)
    requires
        sc < n,
        ec < n,
        tc < n,
    ensures
        match r {
            None => ass_row(raw@, n as int, sc as int, ec as int, tc as int) is None,
            Some(Err(e)) => ass_row(raw@, n as int, sc as int, ec as int, tc as int) == Some(
                Err::<Cue, SubtitleError>(e),
            ),
            Some(Ok(c)) => ass_row(raw@, n as int, sc as int, ec as int, tc as int) == Some(
                Ok::<Cue, SubtitleError>(cue_view(c)),
            ),
        },
{
    let e0 = trim_end_range(raw, 0, raw.len(), Strip::Whitespace);
    assert(raw@.subrange(0, raw@.len() as int) =~= raw@);
    let r = slice_vec(raw, 0, e0);
    let tag: Vec<char> = vec!['D', 'i', 'a', 'l', 'o', 'g', 'u', 'e', ':'];
    assert(tag@ =~= dialogue_tag());
    if !starts_with_exec(r.as_slice(), tag.as_slice()) {
        return None;
    }
    let a = trim_start_range(r.as_slice(), 0, r.len(), Strip::Whitespace);
    assert(r@.subrange(0, r@.len() as int) =~= r@);
    let r2 = slice_vec(r.as_slice(), a, r.len());
    let b = strip_prefixes_exec(r2.as_slice(), tag.as_slice());
    assert(r2@.subrange(b as int, r2@.len() as int) =~= r2@.skip(b as int));
    let (x, y) = trim_range(r2.as_slice(), b, r2.len(), Strip::Whitespace);
    let payload = slice_vec(r2.as_slice(), x, y);
    let parts = splitn_exec(payload.as_slice(), ',', n);
    if parts.len() < n {
        return None;
    }
    assert(views(parts@)[sc as int] == parts@[sc as int]@);
    assert(views(parts@)[ec as int] == parts@[ec as int]@);
    assert(views(parts@)[tc as int] == parts@[tc as int]@);
    let ps = &parts[sc];
    let (sa, sb) = trim_range(ps.as_slice(), 0, ps.len(), Strip::Whitespace);
    assert(ps@.subrange(0, ps@.len() as int) =~= ps@);
    let start_txt = slice_vec(ps.as_slice(), sa, sb);
    let start = match ass_ts_exec(start_txt.as_slice()) {
        Err(e) => return Some(Err(e)),
        Ok(v) => v,
    };
    let pe = &parts[ec];
    let (ea, eb) = trim_range(pe.as_slice(), 0, pe.len(), Strip::Whitespace);
    assert(pe@.subrange(0, pe@.len() as int) =~= pe@);
    let end_txt = slice_vec(pe.as_slice(), ea, eb);
    let end = match ass_ts_exec(end_txt.as_slice()) {
        Err(e) => return Some(Err(e)),
        Ok(v) => v,
    };
    let text = strip_tags_exec(parts[tc].as_slice());
    if text.len() == 0 {
        return None;
    }
    Some(Ok((start, end, text)))
}

/// `insert_pos(sorted, key, 0)` at run time.
fn insert_pos_exec(sorted: &Vec<CueExec>, key: i64) -> (j: usize)
    ensures
        j as int == insert_pos(cues_view(sorted@), key as int, 0),
        j <= sorted@.len(),
{
    let mut j: usize = 0;
    while j < sorted.len() && sorted[j].0 <= key
        invariant
            j <= sorted@.len(),
            insert_pos(cues_view(sorted@), key as int, 0) == insert_pos(
                cues_view(sorted@),
                key as int,
                j as int,
            ),
        decreases sorted@.len() - j,
    {
        j = j + 1;
    }
    j
}

/// Cues of `ls[from..]`, kept sorted by start as they are found.
fn fold_exec(ls: &Vec<Vec<char>>, from: usize, n: usize, sc: usize, ec: usize, tc: usize) -> (r:
    Result<Vec<CueExec>, SubtitleError>)
    requires
        from <= ls@.len(),
        sc < n,
        ec < n,
        tc < n,
    ensures
        match r {
            Ok(out) => exists|acc: Seq<Cue>|
                #![trigger sort_by_start(acc)]
                ass_fold(
                    views(ls@).skip(from as int),
                    n as int,
                    sc as int,
                    ec as int,
                    tc as int,
                    seq![],
                ) == Ok::<Seq<Cue>, SubtitleError>(acc) && cues_view(out@) == sort_by_start(acc),
            Err(e) => ass_fold(
                views(ls@).skip(from as int),
                n as int,
                sc as int,
                ec as int,
                tc as int,
                seq![],
            ) == Err::<Seq<Cue>, SubtitleError>(e),
        },
{
    let mut out: Vec<CueExec> = Vec::new();
    let ghost mut acc: Seq<Cue> = seq![];
    let mut i = from;
    assert(cues_view(out@) =~= sort_by_start(acc));
    while i < ls.len()
        invariant
            from <= i <= ls@.len(),
            sc < n,
            ec < n,
            tc < n,
            cues_view(out@) == sort_by_start(acc),
            ass_fold(views(ls@).skip(from as int), n as int, sc as int, ec as int, tc as int, seq![])
                == ass_fold(views(ls@).skip(i as int), n as int, sc as int, ec as int, tc as int, acc),
        decreases ls@.len() - i,
    {
        let ghost rest = views(ls@).skip(i as int);
        assert(rest[0] == ls@[i as int]@);
        assert(rest.drop_first() =~= views(ls@).skip(i + 1));
        match row_exec(ls[i].as_slice(), n, sc, ec, tc) {
            None => {},
            Some(Err(e)) => {
                return Err(e);
            },
            Some(Ok(c)) => {
                let pos = insert_pos_exec(&out, c.0);
                let ghost before = out@;
                let ghost cv = cue_view(c);
                out.insert(pos, c);
                proof {
                    let nacc = acc.push(cv);
                    assert(nacc.drop_last() =~= acc);
                    assert(cues_view(out@) =~= cues_view(before).insert(pos as int, cv));
                    acc = nacc;
                }
            },
        }
        i = i + 1;
    }
    assert(views(ls@).skip(i as int) =~= seq![]);
    Ok(out)
}

/// Parse an ASS/SSA file into its dialogue lines, sorted by start time
/// (stably) and numbered from 0 in that order.
pub fn parse(input: &str) -> (r: Result<Vec<Line>, SubtitleError>)
    ensures
        match r {
            Ok(lines) => ass_parse(input@) == Ok::<Seq<LineView>, SubtitleError>(lines_view(lines@)),
            Err(e) => ass_parse(input@) == Err::<Seq<LineView>, SubtitleError>(e),
        },
{
    let all = chars_of(input);
    let from: usize = if all.len() > 0 && all[0] == '\u{feff}' {
        1
    } else {
        0
    };
    assert(all@.skip(from as int) =~= strip_bom(input@));
    let s = normalize_exec(all.as_slice(), from);
    let up: Vec<char> = vec!['[', 'E', 'v', 'e', 'n', 't', 's', ']'];
    assert(up@ =~= events_upper());
    let low: Vec<char> = vec!['[', 'e', 'v', 'e', 'n', 't', 's', ']'];
    assert(low@ =~= events_lower());
    let pos = match find_from_exec(s.as_slice(), up.as_slice(), 0) {
        Some(p) => p,
        None => match find_from_exec(s.as_slice(), low.as_slice(), 0) {
            Some(p) => p,
            None => return Err(SubtitleError::NoEventsSection),
        },
    };
    proof {
        lemma_find_from_bounds(s@, events_upper(), 0);
        lemma_find_from_bounds(s@, events_lower(), 0);
    }
    let events = slice_vec(s.as_slice(), pos, s.len());
    assert(events@ =~= s@.skip(pos as int));
    let ls = lines_exec(events.as_slice());
    let fi = match format_exec(&ls) {
        None => return Err(SubtitleError::NoFormatLine),
        Some(fi) => fi,
    };
    assert(views(ls@)[fi as int] == ls@[fi as int]@);
    let cols = columns_exec(ls[fi].as_slice());
    let sname: Vec<char> = vec!['S', 't', 'a', 'r', 't'];
    assert(sname@ =~= start_name());
    let ename: Vec<char> = vec!['E', 'n', 'd'];
    assert(ename@ =~= end_name());
    let tname: Vec<char> = vec!['T', 'e', 'x', 't'];
    assert(tname@ =~= text_name());
    let sc = match column_exec(&cols, sname.as_slice()) {
        None => return Err(SubtitleError::MissingStartColumn),
        Some(c) => c,
    };
    let ec = match column_exec(&cols, ename.as_slice()) {
        None => return Err(SubtitleError::MissingEndColumn),
        Some(c) => c,
    };
    let tc = match column_exec(&cols, tname.as_slice()) {
        None => return Err(SubtitleError::MissingTextColumn),
        Some(c) => c,
    };
    let n = cols.len();
    assert(views(cols@).len() == n);
    assert(views(ls@).skip(fi + 1) =~= views(ls@).skip(fi + 1));
    let nls = ls.len();
    assert(fi < nls);
    let sorted = match fold_exec(&ls, fi + 1, n, sc, ec, tc) {
        Err(e) => return Err(e),
        Ok(v) => v,
    };
    let mut lines: Vec<Line> = Vec::new();
    let mut k: usize = 0;
    while k < sorted.len()
        invariant
            k <= sorted@.len(),
            lines_view(lines@) == number_cues(cues_view(sorted@)).take(k as int),
        decreases sorted@.len() - k,
    {
        let c = &sorted[k];
        let text = string_of_chars(c.2.as_slice());
        let ghost before = lines_view(lines@);
        lines.push(Line { idx: k, start_ms: c.0, end_ms: c.1, text });
        assert(lines_view(lines@) =~= before.push(number_cues(cues_view(sorted@))[k as int]));
        assert(number_cues(cues_view(sorted@)).take(k + 1) =~= number_cues(cues_view(sorted@)).take(
            k as int,
        ).push(number_cues(cues_view(sorted@))[k as int]));
        k = k + 1;
    }
    assert(number_cues(cues_view(sorted@)).take(k as int) =~= number_cues(cues_view(sorted@)));
    Ok(lines)
}


/// Cues whose start times never decrease.
pub open spec fn starts_sorted(s: Seq<Cue>) -> bool {
    forall|i: int, j: int| 0 <= i < j < s.len() ==> #[trigger] s[i].0 <= #[trigger] s[j].0
}

proof fn lemma_insert_pos(s: Seq<Cue>, key: int, j: int)
    requires
        starts_sorted(s),
        0 <= j <= s.len(),
        forall|t: int| 0 <= t < j ==> #[trigger] s[t].0 <= key,
    ensures
        j <= insert_pos(s, key, j) <= s.len(),
        forall|t: int| 0 <= t < insert_pos(s, key, j) ==> #[trigger] s[t].0 <= key,
        forall|t: int| insert_pos(s, key, j) <= t < s.len() ==> #[trigger] s[t].0 > key,
    decreases s.len() - j,
{
    if j < s.len() {
        if s[j].0 > key {
            assert forall|t: int| j <= t < s.len() implies #[trigger] s[t].0 > key by {
                if t > j {
                    assert(s[j].0 <= s[t].0);
                }
            }
        } else {
            lemma_insert_pos(s, key, j + 1);
        }
    }
}

proof fn lemma_sort_sorted(s: Seq<Cue>)
    ensures
        starts_sorted(sort_by_start(s)),
        sort_by_start(s).len() == s.len(),
    decreases s.len(),
{
    if s.len() > 0 {
        let rest = sort_by_start(s.drop_last());
        lemma_sort_sorted(s.drop_last());
        let x = s.last();
        lemma_insert_pos(rest, x.0, 0);
        let p = insert_pos(rest, x.0, 0);
        let r = rest.insert(p, x);
        assert forall|i: int, j: int| 0 <= i < j < r.len() implies #[trigger] r[i].0
            <= #[trigger] r[j].0 by {
            if j < p {
                assert(r[i] == rest[i] && r[j] == rest[j]);
            } else if j == p {
                assert(r[i] == rest[i]);
            } else if i < p {
                assert(r[i] == rest[i] && r[j] == rest[j - 1]);
            } else if i == p {
                assert(r[j] == rest[j - 1]);
            } else {
                assert(r[i] == rest[i - 1] && r[j] == rest[j - 1]);
            }
        }
    }
}

/// The lines `parse` returns are in non-decreasing start order and
/// each carries its own position as `idx`.
pub proof fn ass_lines_sorted_and_numbered(input: Seq<char>)
    ensures
        ass_parse(input) matches Ok(ls) ==> {
            &&& forall|i: int| 0 <= i < ls.len() ==> #[trigger] ls[i].idx == i
            &&& forall|i: int, j: int|
                0 <= i < j < ls.len() ==> #[trigger] ls[i].start_ms <= #[trigger] ls[j].start_ms
        },
{
    let s = normalize_newlines(strip_bom(input));
    let pos = match find(s, events_upper()) {
        Some(p) => Some(p),
        None => find(s, events_lower()),
    };
    if let Some(p) = pos {
        let ls = lines_of(s.skip(p));
        if let Some(fi) = format_from(ls, 0) {
            let cols = columns_of(ls[fi]);
            if let (Some(sc), Some(ec), Some(tc)) = (
                column_from(cols, start_name(), 0),
                column_from(cols, end_name(), 0),
                column_from(cols, text_name(), 0),
            ) {
                if let Ok(cues) = ass_fold(ls.skip(fi + 1), cols.len() as int, sc, ec, tc, seq![]) {
                    lemma_sort_sorted(cues);
                    let sorted = sort_by_start(cues);
                    let out = number_cues(sorted);
                    assert forall|i: int, j: int| 0 <= i < j < out.len() implies #[trigger] out[i].start_ms
                        <= #[trigger] out[j].start_ms by {
                        assert(sorted[i].0 <= sorted[j].0);
                    }
                }
            }
        }
    }
}


/// The event rows after the `Format:` line, with the column count and
/// the Start, End and Text columns; `None` when the file has no events
/// section, no `Format:` line after it, or a column is missing.
pub open spec fn ass_events(input: Seq<char>) -> Option<(Seq<Seq<char>>, int, int, int, int)> {
    let s = normalize_newlines(strip_bom(input));
    let pos = match find(s, events_upper()) {
        Some(p) => Some(p),
        None => find(s, events_lower()),
    };
    match pos {
        None => None,
        Some(p) => {
            let ls = lines_of(s.skip(p));
            match format_from(ls, 0) {
                None => None,
                Some(fi) => {
                    let cols = columns_of(ls[fi]);
                    match (
                        column_from(cols, start_name(), 0),
                        column_from(cols, end_name(), 0),
                        column_from(cols, text_name(), 0),
                    ) {
                        (Some(sc), Some(ec), Some(tc)) => Some(
                            (ls.skip(fi + 1), cols.len() as int, sc, ec, tc),
                        ),
                        _ => None,
                    }
                },
            }
        },
    }
}

pub open spec fn event_rows(ev: (Seq<Seq<char>>, int, int, int, int)) -> Seq<Seq<char>> {
    ev.0
}

/// Row `raw` is a dialogue row with a malformed Start or End.
pub open spec fn is_bad_row(raw: Seq<char>, ev: (Seq<Seq<char>>, int, int, int, int)) -> bool {
    ass_row(raw, ev.1, ev.2, ev.3, ev.4) matches Some(Err(_))
}

/// Row `raw` is kept as a cue.
pub open spec fn is_kept_row(raw: Seq<char>, ev: (Seq<Seq<char>>, int, int, int, int)) -> bool {
    ass_row(raw, ev.1, ev.2, ev.3, ev.4) matches Some(Ok(_))
}

pub open spec fn row_cue(raw: Seq<char>, ev: (Seq<Seq<char>>, int, int, int, int)) -> Cue {
    ass_row(raw, ev.1, ev.2, ev.3, ev.4)->0->Ok_0
}

/// `src` lists, in file order, exactly the rows of `rows` that are kept.
pub open spec fn kept_rows(rows: Seq<Seq<char>>, ev: (Seq<Seq<char>>, int, int, int, int), src: Seq<int>) -> bool {
    &&& forall|k: int| 0 <= k < src.len() ==> 0 <= #[trigger] src[k] < rows.len() && is_kept_row(rows[src[k]], ev)
    &&& forall|a: int, b: int| 0 <= a < b < src.len() ==> #[trigger] src[a] < #[trigger] src[b]
    &&& forall|i: int| 0 <= i < rows.len() && is_kept_row(#[trigger] rows[i], ev) ==> exists|k: int|
        0 <= k < src.len() && src[k] == i
}

pub open spec fn cues_at(rows: Seq<Seq<char>>, ev: (Seq<Seq<char>>, int, int, int, int), src: Seq<int>) -> Seq<Cue> {
    Seq::new(src.len(), |k: int| row_cue(rows[src[k]], ev))
}

#[verifier::spinoff_prover]
#[verifier::rlimit(40)]
proof fn lemma_ass_fold_rows(rows: Seq<Seq<char>>, ev: (Seq<Seq<char>>, int, int, int, int), acc: Seq<Cue>) -> (src: Seq<int>)
    ensures
        ass_fold(rows, ev.1, ev.2, ev.3, ev.4, acc) is Err <==> exists|i: int|
            0 <= i < rows.len() && is_bad_row(#[trigger] rows[i], ev),
        ass_fold(rows, ev.1, ev.2, ev.3, ev.4, acc) matches Ok(cs) ==> kept_rows(rows, ev, src) && cs
            == acc + cues_at(rows, ev, src),
    decreases rows.len(),
{
    let (n, sc, ec, tc) = (ev.1, ev.2, ev.3, ev.4);
    if rows.len() == 0 {
        assert(acc + cues_at(rows, ev, Seq::empty()) =~= acc);
        Seq::empty()
    } else {
        let rest = rows.drop_first();
        assert forall|i: int| 0 <= i < rest.len() implies #[trigger] rest[i] == rows[i + 1] by {}
        if exists|i: int| 0 <= i < rows.len() && is_bad_row(#[trigger] rows[i], ev) {
            let i = choose|i: int| 0 <= i < rows.len() && is_bad_row(#[trigger] rows[i], ev);
            if i > 0 {
                assert(is_bad_row(rest[i - 1], ev));
            }
        }
        match ass_row(rows[0], n, sc, ec, tc) {
            Some(Err(_)) => {
                assert(is_bad_row(rows[0], ev));
                Seq::empty()
            },
            None => {
                let s0 = lemma_ass_fold_rows(rest, ev, acc);
                let src = s0.map_values(|x: int| x + 1);
                if exists|i: int| 0 <= i < rest.len() && is_bad_row(#[trigger] rest[i], ev) {
                    let i = choose|i: int| 0 <= i < rest.len() && is_bad_row(#[trigger] rest[i], ev);
                    assert(is_bad_row(rows[i + 1], ev));
                }
                if ass_fold(rows, n, sc, ec, tc, acc) is Ok {
                    assert forall|i: int| 0 <= i < rows.len() && is_kept_row(#[trigger] rows[i], ev) implies exists|k: int|
                        0 <= k < src.len() && src[k] == i by {
                        assert(i > 0);
                        assert(is_kept_row(rest[i - 1], ev));
                        let k = choose|k: int| 0 <= k < s0.len() && s0[k] == i - 1;
                        assert(src[k] == i);
                    }
                    assert forall|k: int| 0 <= k < src.len() implies 0 <= #[trigger] src[k] < rows.len()
                        && is_kept_row(rows[src[k]], ev) by {
                        assert(rest[s0[k]] == rows[src[k]]);
                    }
                    assert forall|a: int, b: int| 0 <= a < b < src.len() implies #[trigger] src[a] < #[trigger] src[b] by {
                        assert(src[a] == s0[a] + 1 && src[b] == s0[b] + 1);
                    }
                    assert(cues_at(rows, ev, src) =~= cues_at(rest, ev, s0)) by {
                        assert forall|k: int| 0 <= k < src.len() implies cues_at(rows, ev, src)[k] == cues_at(rest, ev, s0)[k] by {
                            assert(rest[s0[k]] == rows[src[k]]);
                        }
                    }
                }
                src
            },
            Some(Ok(c)) => {
                let s0 = lemma_ass_fold_rows(rest, ev, acc.push(c));
                let src = seq![0int] + s0.map_values(|x: int| x + 1);
                if exists|i: int| 0 <= i < rest.len() && is_bad_row(#[trigger] rest[i], ev) {
                    let i = choose|i: int| 0 <= i < rest.len() && is_bad_row(#[trigger] rest[i], ev);
                    assert(is_bad_row(rows[i + 1], ev));
                }
                if ass_fold(rows, n, sc, ec, tc, acc) is Ok {
                    assert forall|i: int| 0 <= i < rows.len() && is_kept_row(#[trigger] rows[i], ev) implies exists|k: int|
                        0 <= k < src.len() && src[k] == i by {
                        if i == 0 {
                            assert(src[0] == 0);
                        } else {
                            assert(is_kept_row(rest[i - 1], ev));
                            let k = choose|k: int| 0 <= k < s0.len() && s0[k] == i - 1;
                            assert(src[k + 1] == i);
                        }
                    }
                    assert forall|k: int| 0 <= k < src.len() implies 0 <= #[trigger] src[k] < rows.len()
                        && is_kept_row(rows[src[k]], ev) by {
                        if k > 0 {
                            assert(src[k] == s0[k - 1] + 1);
                            assert(rest[s0[k - 1]] == rows[src[k]]);
                        } else {
                            assert(is_kept_row(rows[0], ev));
                        }
                    }
                    assert forall|a: int, b: int| 0 <= a < b < src.len() implies #[trigger] src[a] < #[trigger] src[b] by {
                        assert(src[b] == s0[b - 1] + 1);
                        if a > 0 {
                            assert(src[a] == s0[a - 1] + 1);
                        }
                    }
                    assert(acc + cues_at(rows, ev, src) =~= acc.push(c) + cues_at(rest, ev, s0)) by {
                        assert(row_cue(rows[0], ev) == c);
                        assert forall|k: int| 0 < k < src.len() implies cues_at(rows, ev, src)[k] == cues_at(rest, ev, s0)[k - 1] by {
                            assert(rest[s0[k - 1]] == rows[src[k]]);
                        }
                    }
                }
                src
            },
        }
    }
}

/// `perm` reorders `s` into `t`: a permutation of its positions, with
/// cues of equal start kept in their order in `s`.
pub open spec fn stable_reorder(s: Seq<Cue>, t: Seq<Cue>, perm: Seq<int>) -> bool {
    &&& perm.len() == s.len() && t.len() == s.len()
    &&& forall|k: int| 0 <= k < perm.len() ==> 0 <= #[trigger] perm[k] < s.len() && t[k] == s[perm[k]]
    &&& forall|a: int, b: int| 0 <= a < b < perm.len() ==> #[trigger] perm[a] != #[trigger] perm[b]
    &&& forall|a: int, b: int|
        0 <= a < b < perm.len() && t[a].0 == t[b].0 ==> #[trigger] perm[a] < #[trigger] perm[b]
}

proof fn lemma_sort_stable(s: Seq<Cue>) -> (perm: Seq<int>)
    ensures
        stable_reorder(s, sort_by_start(s), perm),
    decreases s.len(),
{
    if s.len() == 0 {
        Seq::empty()
    } else {
        let init = s.drop_last();
        let rest = sort_by_start(init);
        let p0 = lemma_sort_stable(init);
        lemma_sort_sorted(init);
        let x = s.last();
        lemma_insert_pos(rest, x.0, 0);
        let p = insert_pos(rest, x.0, 0);
        let r = rest.insert(p, x);
        let last = s.len() - 1;
        let perm = p0.insert(p, last);
        assert forall|k: int| 0 <= k < perm.len() implies 0 <= #[trigger] perm[k] < s.len() && r[k] == s[perm[k]] by {
            if k < p {
                assert(perm[k] == p0[k] && r[k] == rest[k] && init[p0[k]] == s[p0[k]]);
            } else if k > p {
                assert(perm[k] == p0[k - 1] && r[k] == rest[k - 1] && init[p0[k - 1]] == s[p0[k - 1]]);
            }
        }
        assert forall|a: int, b: int| 0 <= a < b < perm.len() implies #[trigger] perm[a] != #[trigger] perm[b] by {
            if a < p && b < p {
                assert(perm[a] == p0[a] && perm[b] == p0[b]);
            } else if a < p && b > p {
                assert(perm[a] == p0[a] && perm[b] == p0[b - 1]);
            } else if a > p {
                assert(perm[a] == p0[a - 1] && perm[b] == p0[b - 1]);
            } else if a == p {
                assert(perm[b] == p0[b - 1]);
            } else {
                assert(perm[a] == p0[a]);
            }
        }
        assert forall|a: int, b: int| 0 <= a < b < perm.len() && r[a].0 == r[b].0 implies #[trigger] perm[a]
            < #[trigger] perm[b] by {
            if a < p && b < p {
                assert(perm[a] == p0[a] && perm[b] == p0[b] && r[a] == rest[a] && r[b] == rest[b]);
            } else if a < p && b > p {
                assert(perm[a] == p0[a] && perm[b] == p0[b - 1] && r[a] == rest[a] && r[b] == rest[b - 1]);
            } else if a > p {
                assert(perm[a] == p0[a - 1] && perm[b] == p0[b - 1] && r[a] == rest[a - 1] && r[b] == rest[b - 1]);
            } else if a == p {
                assert(r[b] == rest[b - 1]);
                assert(rest[b - 1].0 > x.0);
            } else {
                assert(perm[a] == p0[a]);
            }
        }
        perm
    }
}

/// `ls` are the cues of the kept rows `src` of `ev`, reordered by the
/// stable sort `perm` into start order and numbered from 0.
pub open spec fn lines_explained(
    ev: (Seq<Seq<char>>, int, int, int, int),
    ls: Seq<LineView>,
    src: Seq<int>,
    perm: Seq<int>,
) -> bool {
    let kept = cues_at(ev.0, ev, src);
    &&& kept_rows(ev.0, ev, src)
    &&& stable_reorder(kept, sort_by_start(kept), perm)
    &&& starts_sorted(sort_by_start(kept))
    &&& ls == number_cues(sort_by_start(kept))
}

/// `parse` fails exactly when the file has no events section, no
/// `Format:` line after it, a missing Start, End or Text column, or a
/// dialogue row with a malformed Start or End. Otherwise its lines are
/// the kept dialogue rows, taken in file order and stably sorted by
/// start time, numbered from 0.
pub proof fn ass_lines_are_kept_rows_stably_sorted(input: Seq<char>)
    ensures
        ass_parse(input) is Err <==> (ass_events(input) is None || exists|i: int|
            0 <= i < event_rows(ass_events(input)->0).len() && is_bad_row(
                #[trigger] event_rows(ass_events(input)->0)[i],
                ass_events(input)->0,
            )),
        ass_parse(input) matches Ok(ls) ==> ass_events(input) is Some && exists|src: Seq<int>, perm: Seq<int>|
            #[trigger] lines_explained(ass_events(input)->0, ls, src, perm),
{
    if ass_events(input) is Some {
        let ev = ass_events(input)->0;
        let src = lemma_ass_fold_rows(ev.0, ev, seq![]);
        assert(event_rows(ev) == ev.0);
        assert(ass_parse(input) is Err <==> ass_fold(ev.0, ev.1, ev.2, ev.3, ev.4, seq![]) is Err);
        if exists|i: int| 0 <= i < ev.0.len() && is_bad_row(#[trigger] ev.0[i], ev) {
            let i = choose|i: int| 0 <= i < ev.0.len() && is_bad_row(#[trigger] ev.0[i], ev);
            assert(is_bad_row(event_rows(ev)[i], ev));
        }
        if ass_fold(ev.0, ev.1, ev.2, ev.3, ev.4, seq![]) is Ok {
            let kept = cues_at(ev.0, ev, src);
            assert(Seq::<Cue>::empty() + kept =~= kept);
            let perm = lemma_sort_stable(kept);
            lemma_sort_sorted(kept);
            assert(kept_rows(ev.0, ev, src));
            assert(lines_explained(ev, ass_parse(input)->Ok_0, src, perm));
        }
    }
}


/// Where the events section starts: `[Events]`, else `[events]`.
pub open spec fn events_at(s: Seq<char>) -> Option<int> {
    match find(s, events_upper()) {
        Some(p) => Some(p),
        None => find(s, events_lower()),
    }
}

/// `parse` fails exactly when the (BOM-stripped, LF-normalised) text has
/// no `[Events]` or `[events]`; or no line from there on is a `Format:`
/// line; or that line lacks a Start, End or Text column; or a later
/// `Dialogue:` row with at least as many fields as there are columns
/// has a malformed Start or End.
pub proof fn ass_parse_fails_exactly_when(input: Seq<char>)
    ensures
        ass_parse(input) is Err <==> ({
            let s = normalize_newlines(strip_bom(input));
            ||| events_at(s) is None
            ||| format_from(lines_of(s.skip(events_at(s)->0)), 0) is None
            ||| ({
                let ls = lines_of(s.skip(events_at(s)->0));
                let cols = columns_of(ls[format_from(ls, 0)->0]);
                ||| column_from(cols, start_name(), 0) is None
                ||| column_from(cols, end_name(), 0) is None
                ||| column_from(cols, text_name(), 0) is None
            })
            ||| exists|i: int|
                0 <= i < event_rows(ass_events(input)->0).len() && is_bad_row(
                    #[trigger] event_rows(ass_events(input)->0)[i],
                    ass_events(input)->0,
                )
        }),
{
    ass_lines_are_kept_rows_stably_sorted(input);
}


/// The four numbers written in an ASS timestamp `H:MM:SS.cc`: hours,
/// minutes, seconds and centiseconds, when each field is an integer.
pub open spec fn ass_clock(ts: Seq<char>) -> Option<(int, int, int, int)> {
    let parts = split(ts, seq![':']);
    if parts.len() != 3 {
        None
    } else {
        match (parse_i64(parts[0]), parse_i64(parts[1]), find(parts[2], seq!['.'])) {
            (Some(h), Some(m), Some(d)) => match (
                parse_i64(parts[2].subrange(0, d)),
                parse_i64(parts[2].subrange(d + 1, parts[2].len() as int)),
            ) {
                (Some(s), Some(cs)) => Some((h, m, s, cs)),
                _ => None,
            },
            _ => None,
        }
    }
}

/// An ASS timestamp `H:MM:SS.cc` is worth `(H*3600 + MM*60 + SS)*1000
/// + cc*10` milliseconds: whenever it parses it has that value, and it
/// parses whenever its four fields are integers and that value (with
/// each step of its evaluation) fits in an `i64`. The Start and End of
/// every kept dialogue row are read this way.
pub proof fn ass_timestamp_value(ts: Seq<char>)
    ensures
        ass_ts(ts) matches Ok(v) ==> ass_clock(ts) matches Some((h, m, s, cs)) && v == (h * 3600 + m * 60
            + s) * 1000 + cs * 10,
        ass_clock(ts) matches Some((h, m, s, cs)) ==> (fits_i64(cs * 10) && fits_i64(h * 3600) && fits_i64(
            m * 60,
        ) && fits_i64(h * 3600 + m * 60) && fits_i64(h * 3600 + m * 60 + s) && fits_i64(
            (h * 3600 + m * 60 + s) * 1000,
        ) && fits_i64((h * 3600 + m * 60 + s) * 1000 + cs * 10) ==> ass_ts(ts) == Ok::<int, SubtitleError>(
            (h * 3600 + m * 60 + s) * 1000 + cs * 10,
        )),
{
}

/// The Start and End of a kept dialogue row are its Start and End
/// fields read as ASS timestamps, each worth `(H*3600 + MM*60 + SS)*1000
/// + cc*10` milliseconds.
pub proof fn ass_row_times(raw: Seq<char>, n: int, sc: int, ec: int, tc: int)
    ensures
        ass_row(raw, n, sc, ec, tc) matches Some(Ok(c)) ==> {
            let parts = splitn(
                trim_ws(strip_prefixes(trim_start(trim_end(raw, Strip::Whitespace), Strip::Whitespace), dialogue_tag())),
                ',',
                n as nat,
            );
            &&& ass_clock(trim_ws(parts[sc])) matches Some((h, m, s, cs)) && c.0 == (h * 3600 + m * 60 + s)
                * 1000 + cs * 10
            &&& ass_clock(trim_ws(parts[ec])) matches Some((h, m, s, cs)) && c.1 == (h * 3600 + m * 60 + s)
                * 1000 + cs * 10
        },
{
    let r = trim_end(raw, Strip::Whitespace);
    let payload = trim_ws(strip_prefixes(trim_start(r, Strip::Whitespace), dialogue_tag()));
    let parts = splitn(payload, ',', n as nat);
    ass_timestamp_value(trim_ws(parts[sc]));
    ass_timestamp_value(trim_ws(parts[ec]));
}


// ------------------------------------------------ dialogue text cleaning

proof fn lemma_find_from_shift(a: Seq<char>, r: Seq<char>, pat: Seq<char>, j: int)
    requires
        0 <= j,
    ensures
        find_from(a + r, pat, a.len() + j) == (match find_from(r, pat, j) {
            Some(k) => Some(k + a.len()),
            None => None::<int>,
        }),
    decreases r.len() - j,
{
    let s = a + r;
    let i = a.len() + j;
    if !(i + pat.len() > s.len()) {
        assert(s.subrange(i, i + pat.len()) =~= r.subrange(j, j + pat.len()));
        if !crate::text::match_at(r, pat, j) {
            if pat.len() == 0 {
                assert(r.subrange(j, j) =~= pat);
            }
            lemma_find_from_shift(a, r, pat, j + 1);
        }
    }
}

proof fn lemma_scan_shift(a: Seq<char>, r: Seq<char>, j: int, drawing: bool)
    requires
        0 <= j,
    ensures
        tags_scan(a + r, a.len() + j, drawing) == tags_scan(r, j, drawing),
    decreases r.len() - j,
{
    let s = a + r;
    let i = a.len() + j;
    if j < r.len() {
        assert(s[i] == r[j]);
        if r[j] == '{' {
            lemma_find_from_shift(a, r, seq!['}'], j + 1);
            lemma_find_from_bounds(r, seq!['}'], j + 1);
            let close = find_from(r, seq!['}'], j + 1);
            let be = match close {
                Some(k) => k,
                None => r.len() as int,
            };
            let nx = match close {
                Some(k) => k + 1,
                None => r.len() as int,
            };
            assert(s.subrange(i + 1, a.len() + be) =~= r.subrange(j + 1, be));
            lemma_scan_shift(a, r, nx, drawing_after(r.subrange(j + 1, be), drawing));
        } else if drawing {
            lemma_scan_shift(a, r, j + 1, drawing);
        } else if r[j] == '\\' && j + 1 < r.len() && (r[j + 1] == 'N' || r[j + 1] == 'n' || r[j + 1] == 'h') {
            assert(s[i + 1] == r[j + 1]);
            lemma_scan_shift(a, r, j + 2, drawing);
        } else {
            if r[j] == '\\' && j + 1 < r.len() {
                assert(s[i + 1] == r[j + 1]);
            }
            lemma_scan_shift(a, r, j + 1, drawing);
        }
    }
}

/// Text without override braces or backslashes.
pub open spec fn plain_text(a: Seq<char>) -> bool {
    forall|i: int| 0 <= i < a.len() ==> #[trigger] a[i] != '{' && a[i] != '\\'
}

proof fn lemma_scan_plain(a: Seq<char>, r: Seq<char>, k: int)
    requires
        plain_text(a),
        0 <= k <= a.len(),
    ensures
        tags_scan(a + r, k, false) == a.skip(k) + tags_scan(r, 0, false),
    decreases a.len() - k,
{
    if k == a.len() {
        lemma_scan_shift(a, r, 0, false);
        assert(a.skip(k) + tags_scan(r, 0, false) =~= tags_scan(r, 0, false));
    } else {
        lemma_scan_plain(a, r, k + 1);
        assert((a + r)[k] == a[k]);
        assert(a.skip(k) =~= seq![a[k]] + a.skip(k + 1));
        if (a + r)[k] == '\\' {
            assert(false);
        }
    }
}

/// How dialogue text is cleaned, piece by piece: plain text (no braces,
/// no backslashes) is kept as it is; an override block `{...}` without
/// a drawing command `\p` is dropped; `\N` and `\n` become a line break
/// and `\h` a space. The text kept is the cleaned text, trimmed.
pub proof fn dialogue_text_cleaning(a: Seq<char>, b: Seq<char>, r: Seq<char>)
    ensures
        plain_text(a) ==> tags_scan(a + r, 0, false) == a + tags_scan(r, 0, false),
        !b.contains('}') && find(b, seq!['\\', 'p']) is None ==> tags_scan(
            seq!['{'] + b + seq!['}'] + r,
            0,
            false,
        ) == tags_scan(r, 0, false),
        tags_scan(seq!['\\', 'N'] + r, 0, false) == seq!['\n'] + tags_scan(r, 0, false),
        tags_scan(seq!['\\', 'n'] + r, 0, false) == seq!['\n'] + tags_scan(r, 0, false),
        tags_scan(seq!['\\', 'h'] + r, 0, false) == seq![' '] + tags_scan(r, 0, false),
        strip_tags(r) == trim_ws(tags_scan(r, 0, false)),
{
    if plain_text(a) {
        lemma_scan_plain(a, r, 0);
        assert(a.skip(0) =~= a);
    }
    if !b.contains('}') && find(b, seq!['\\', 'p']) is None {
        let pre = seq!['{'] + b + seq!['}'];
        let t = pre + r;
        let cb: int = b.len() as int + 1;
        assert forall|k: int| 1 <= k < cb implies t[k] != '}' by {
            assert(t[k] == b[k - 1]);
        }
        lemma_find_close(t, 1, cb);
        assert(t.subrange(1, cb) =~= b);
        assert(t[0] == '{');
        lemma_scan_shift(pre, r, 0, false);
    }
    let e1 = seq!['\\', 'N'];
    lemma_scan_shift(e1, r, 0, false);
    assert((e1 + r)[0] == '\\' && (e1 + r)[1] == 'N');
    let e2 = seq!['\\', 'n'];
    lemma_scan_shift(e2, r, 0, false);
    assert((e2 + r)[0] == '\\' && (e2 + r)[1] == 'n');
    let e3 = seq!['\\', 'h'];
    lemma_scan_shift(e3, r, 0, false);
    assert((e3 + r)[0] == '\\' && (e3 + r)[1] == 'h');
}

proof fn lemma_find_close(t: Seq<char>, k: int, c: int)
    requires
        1 <= k <= c < t.len(),
        t[c] == '}',
        forall|m: int| 1 <= m < c ==> t[m] != '}',
    ensures
        find_from(t, seq!['}'], k) == Some(c),
    decreases c - k,
{
    if k < c {
        assert(!(t.subrange(k, k + 1) =~= seq!['}'])) by {
            assert(t.subrange(k, k + 1)[0] == t[k]);
        }
        lemma_find_close(t, k + 1, c);
    } else {
        assert(t.subrange(c, c + 1) =~= seq!['}']);
    }
}

} // verus!
