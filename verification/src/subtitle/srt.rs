//! Minimal SRT parser. Tolerates BOM, CRLF, missing/extra blank lines,
//! and the "WEBVTT" header (treats `.vtt` as SRT-like for now).

use vstd::prelude::*;

use super::timing::{combine_ms, ms_total};
use super::{Line, LineView, SubtitleError, lines_view};
use crate::text::{
    Strip, chars_of, find, find_from_exec, find_char_from, is_whitespace, is_ws, join, join_exec,
    lemma_find_from_bounds, parse_i64, parse_i64_exec, slice_vec, split, split_exec, split_once,
    starts_with, starts_with_exec, sub_string, trim, trim_range, trim_start, trim_start_range,
    trim_ws, utf8_len, utf8_width_exec, views, byte_prefix_from, lemma_utf8_len_push,
    lemma_utf8_len_ge, all_digits, digits_value,
};

verus! {

// ------------------------------------------------------------ the model

/// `s` without one leading byte-order mark.
pub open spec fn strip_bom(s: Seq<char>) -> Seq<char> {
    if s.len() > 0 && s[0] == '\u{feff}' {
        s.drop_first()
    } else {
        s
    }
}

/// CRLF and lone CR both become LF.
pub open spec fn normalize_newlines(s: Seq<char>) -> Seq<char>
    decreases s.len(),
{
    if s.len() == 0 {
        seq![]
    } else if s[0] == '\r' && s.len() > 1 && s[1] == '\n' {
        seq!['\n'] + normalize_newlines(s.skip(2))
    } else if s[0] == '\r' {
        seq!['\n'] + normalize_newlines(s.drop_first())
    } else {
        seq![s[0]] + normalize_newlines(s.drop_first())
    }
}

pub open spec fn blank_line() -> Seq<char> {
    seq!['\n', '\n']
}

pub open spec fn webvtt() -> Seq<char> {
    seq!['W', 'E', 'B', 'V', 'T', 'T']
}

pub open spec fn arrow() -> Seq<char> {
    seq!['-', '-', '>']
}

/// The cue text of a normalised file: after a `WEBVTT` header block
/// everything up to the first blank line is dropped.
pub open spec fn srt_body(n: Seq<char>) -> Seq<char> {
    if starts_with(trim_start(n, Strip::Whitespace), webvtt()) {
        match split_once(n, blank_line()) {
            Some((_, rest)) => rest,
            None => seq![],
        }
    } else {
        n
    }
}

/// The leading non-whitespace run of `t`.
pub open spec fn take_word(t: Seq<char>) -> Seq<char>
    decreases t.len(),
{
    if t.len() == 0 || is_ws(t[0]) {
        seq![]
    } else {
        seq![t[0]] + take_word(t.drop_first())
    }
}

/// `s.split_whitespace().next().unwrap_or("")`.
pub open spec fn first_word(s: Seq<char>) -> Seq<char> {
    take_word(trim_start(s, Strip::Whitespace))
}

/// The milliseconds of an SRT fraction: its first three bytes read as
/// an integer (0 when they are no integer), scaled up when the fraction
/// has one or two bytes.
pub open spec fn srt_fraction(ms: Seq<char>) -> Result<int, SubtitleError> {
    let w = utf8_len(ms);
    let taken: Option<Seq<char>> = if w >= 3 {
        match byte_prefix_from(ms, 3, 0) {
            Some(k) => Some(ms.take(k)),
            None => None,
        }
    } else {
        Some(ms)
    };
    match taken {
        None => Err(SubtitleError::FractionSplitsChar),
        Some(t) => {
            let v = match parse_i64(t) {
                Some(v) => v,
                None => 0,
            };
            Ok(
                if w == 1 {
                    v * 100
                } else if w == 2 {
                    v * 10
                } else {
                    v
                },
            )
        },
    }
}

pub open spec fn comma_to_dot(s: Seq<char>) -> Seq<char> {
    s.map_values(|c: char| if c == ',' { '.' } else { c })
}

/// `k` copies of the field `"0"`.
pub open spec fn zero_fields(k: nat) -> Seq<Seq<char>> {
    Seq::new(k, |i: int| seq!['0'])
}

/// The fields of an SRT timestamp, missing leading fields as `"0"`.
pub open spec fn ts_fields(t: Seq<char>) -> Seq<Seq<char>> {
    let p = split(t, seq![':']);
    if p.len() < 3 {
        zero_fields((3 - p.len()) as nat) + p
    } else {
        p
    }
}

/// Milliseconds of an SRT/VTT timestamp `HH:MM:SS,mmm` or `HH:MM:SS.mmm`
/// (hours and minutes optional).
pub open spec fn srt_ts(ts: Seq<char>) -> Result<int, SubtitleError> {
    let t = comma_to_dot(trim_ws(ts));
    let parts = ts_fields(t);
    if parts.len() != 3 {
        Err(SubtitleError::InvalidTimestamp)
    } else {
        match parse_i64(parts[0]) {
            None => Err(SubtitleError::BadHours),
            Some(h) => match parse_i64(parts[1]) {
                None => Err(SubtitleError::BadMinutes),
                Some(m) => {
                    let sec: Result<(int, int), SubtitleError> = match split_once(
                        parts[2],
                        seq!['.'],
                    ) {
                        Some((s, ms)) => match parse_i64(s) {
                            None => Err(SubtitleError::BadSeconds),
                            Some(sv) => match srt_fraction(ms) {
                                Err(e) => Err(e),
                                Ok(f) => Ok((sv, f)),
                            },
                        },
                        None => match parse_i64(parts[2]) {
                            None => Err(SubtitleError::BadSeconds),
                            Some(sv) => Ok((sv, 0)),
                        },
                    };
                    match sec {
                        Err(e) => Err(e),
                        Ok((sv, f)) => match ms_total(h, m, sv, f) {
                            None => Err(SubtitleError::Overflow),
                            Some(v) => Ok(v),
                        },
                    }
                },
            },
        }
    }
}

/// Start and end of a timing line `start --> end [settings]`.
pub open spec fn srt_timing(line: Seq<char>) -> Result<(int, int), SubtitleError> {
    match split_once(trim_ws(line), arrow()) {
        None => Err(SubtitleError::MissingArrow),
        Some((lhs, rhs)) => match srt_ts(trim_ws(lhs)) {
            Err(e) => Err(e),
            Ok(a) => match srt_ts(first_word(rhs)) {
                Err(e) => Err(e),
                Ok(b) => Ok((a, b)),
            },
        },
    }
}

/// One block between blank lines: `None` when it is empty, otherwise the
/// cue's start, end and text (or why it is malformed).
pub open spec fn srt_block(block: Seq<char>) -> Option<Result<(int, int, Seq<char>), SubtitleError>> {
    let b = trim(block, Strip::Only('\n'));
    if b.len() == 0 {
        None
    } else {
        let ls = split(b, seq!['\n']);
        if ls.len() == 0 {
            Some(Err(SubtitleError::EmptyBlock))
        } else {
            let k: int = if find(ls[0], arrow()) is Some {
                1
            } else {
                2
            };
            if k == 2 && ls.len() < 2 {
                Some(Err(SubtitleError::ExpectedTimestampLine))
            } else {
                match srt_timing(ls[k - 1]) {
                    Err(e) => Some(Err(e)),
                    Ok((s, e)) => Some(
                        Ok((s, e, trim_ws(join(ls.subrange(k, ls.len() as int), seq!['\n'])))),
                    ),
                }
            }
        }
    }
}

/// Lines parsed from `blocks`, appended to `acc`, numbered on from
/// `acc.len()`; the first malformed block stops the parse.
pub open spec fn srt_fold(blocks: Seq<Seq<char>>, acc: Seq<LineView>) -> Result<
    Seq<LineView>,
    SubtitleError,
>
    decreases blocks.len(),
{
    if blocks.len() == 0 {
        Ok(acc)
    } else {
        match srt_block(blocks[0]) {
            None => srt_fold(blocks.drop_first(), acc),
            Some(Err(e)) => Err(e),
            Some(Ok((s, e, t))) => srt_fold(
                blocks.drop_first(),
                acc.push(LineView { idx: acc.len() as int, start_ms: s, end_ms: e, text: t }),
            ),
        }
    }
}

/// What `parse` returns for `input`.
pub open spec fn srt_parse(input: Seq<char>) -> Result<Seq<LineView>, SubtitleError> {
    srt_fold(split(srt_body(normalize_newlines(strip_bom(input))), blank_line()), seq![])
}

// ----------------------------------------------------------- exec parts

pub(crate) fn normalize_exec(s: &[char], from: usize) -> (r: Vec<char>)
    requires
        from <= s@.len(),
    ensures
        r@ == normalize_newlines(s@.skip(from as int)),
{
    let n = s.len();
    let mut out: Vec<char> = Vec::new();
    let mut i = from;
    while i < n
        invariant
            n == s@.len(),
            from <= i <= n,
            out@ + normalize_newlines(s@.skip(i as int)) == normalize_newlines(
                s@.skip(from as int),
            ),
        decreases n - i,
    {
        let ghost t = s@.skip(i as int);
        assert(t[0] == s@[i as int]);
        if s[i] == '\r' && i + 1 < n && s[i + 1] == '\n' {
            assert(t[1] == s@[i + 1]);
            assert(t.skip(2) =~= s@.skip(i + 2));
            out.push('\n');
            i = i + 2;
        } else if s[i] == '\r' {
            assert(t.drop_first() =~= s@.skip(i + 1));
            out.push('\n');
            i = i + 1;
        } else {
            assert(t.drop_first() =~= s@.skip(i + 1));
            out.push(s[i]);
            i = i + 1;
        }
        assert(out@ + normalize_newlines(s@.skip(i as int)) =~= normalize_newlines(
            s@.skip(from as int),
        ));
    }
    assert(s@.skip(n as int) =~= seq![]);
    assert(out@ + seq![] =~= out@);
    out
}

fn take_word_range(s: &[char], lo: usize, hi: usize) -> (j: usize)
    requires
        lo <= hi <= s@.len(),
    ensures
        lo <= j <= hi,
        s@.subrange(lo as int, j as int) == take_word(s@.subrange(lo as int, hi as int)),
{
    let mut j = lo;
    while j < hi && !is_whitespace(s[j])
        invariant
            lo <= j <= hi <= s@.len(),
            take_word(s@.subrange(lo as int, hi as int)) == s@.subrange(lo as int, j as int)
                + take_word(s@.subrange(j as int, hi as int)),
        decreases hi - j,
    {
        let ghost t = s@.subrange(j as int, hi as int);
        assert(t[0] == s@[j as int]);
        assert(t.drop_first() =~= s@.subrange(j + 1, hi as int));
        assert(s@.subrange(lo as int, j + 1) =~= s@.subrange(lo as int, j as int) + seq![
            s@[j as int],
        ]);
        j = j + 1;
    }
    proof {
        let t = s@.subrange(j as int, hi as int);
        if t.len() > 0 {
            assert(t[0] == s@[j as int]);
        }
        assert(take_word(t) =~= seq![]);
    }
    j
}

/// `srt_fraction` at run time.
fn fraction_exec(ms: &[char]) -> (r: Result<i128, SubtitleError>)
    ensures
        match r {
            Ok(v) => srt_fraction(ms@) == Ok::<int, SubtitleError>(v as int) && -0x1_0000_0000_0000_0000_0000 <= v
                <= 0x1_0000_0000_0000_0000_0000,
            Err(e) => srt_fraction(ms@) == Err::<int, SubtitleError>(e),
        },
{
    let n = ms.len();
    let mut k: usize = 0;
    let mut acc: usize = 0;
    while k < n && acc < 3
        invariant
            n == ms@.len(),
            0 <= k <= n,
            acc == utf8_len(ms@.take(k as int)),
            acc <= 6,
            byte_prefix_from(ms@, 3, 0) == byte_prefix_from(ms@, 3, k as int),
        decreases n - k,
    {
        proof {
            lemma_utf8_len_push(ms@, k as int);
            assert(ms@.take(0) =~= seq![]);
            assert(byte_prefix_from(ms@, 3, k as int) == byte_prefix_from(ms@, 3, k + 1));
        }
        acc = acc + utf8_width_exec(ms[k]);
        k = k + 1;
    }
    proof {
        assert(ms@.take(0) =~= seq![]);
        assert(utf8_len(seq![]) == 0);
        lemma_utf8_len_ge(ms@, k as int);
        if k == n {
            assert(ms@.take(k as int) =~= ms@);
        }
    }
    // `w` is min(utf8_len(ms), 3) and `end` the chars of the parsed part.
    let (w, end): (usize, usize) = if acc >= 3 {
        if acc > 3 {
            return Err(SubtitleError::FractionSplitsChar);
        }
        (3, k)
    } else {
        (acc, n)
    };
    proof {
        if acc < 3 {
            assert(ms@.take(n as int) =~= ms@);
        }
    }
    let v: i128 = match parse_i64_exec(ms, 0, end) {
        Some(v) => v as i128,
        None => 0,
    };
    assert(ms@.subrange(0, end as int) =~= ms@.take(end as int));
    proof {
        if acc < 3 {
            assert(ms@.take(end as int) =~= ms@);
        }
    }
    if w == 1 {
        Ok(v * 100)
    } else if w == 2 {
        Ok(v * 10)
    } else {
        Ok(v)
    }
}

/// `srt_ts` at run time.
fn ts_exec(ts: &[char]) -> (r: Result<i64, SubtitleError>)
    ensures
        match r {
            Ok(v) => srt_ts(ts@) == Ok::<int, SubtitleError>(v as int),
            Err(e) => srt_ts(ts@) == Err::<int, SubtitleError>(e),
        },
{
    let (a, b) = trim_range(ts, 0, ts.len(), Strip::Whitespace);
    assert(ts@.subrange(0, ts@.len() as int) =~= ts@);
    let mut t: Vec<char> = Vec::new();
    let mut i = a;
    while i < b
        invariant
            a <= i <= b <= ts@.len(),
            t@ == comma_to_dot(ts@.subrange(a as int, i as int)),
        decreases b - i,
    {
        let c = ts[i];
        t.push(if c == ',' { '.' } else { c });
        i = i + 1;
        assert(t@ =~= comma_to_dot(ts@.subrange(a as int, i as int)));
    }
    let colon: Vec<char> = vec![':'];
    assert(colon@ =~= seq![':']);
    let split_parts = split_exec(t.as_slice(), colon.as_slice());
    let parts: Vec<Vec<char>> = if split_parts.len() < 3 {
        let mut p: Vec<Vec<char>> = Vec::new();
        let pad = 3 - split_parts.len();
        let mut z: usize = 0;
        assert(views(p@) =~= zero_fields(0));
        while z < pad
            invariant
                z <= pad,
                views(p@) == zero_fields(z as nat),
            decreases pad - z,
        {
            let z0: Vec<char> = vec!['0'];
            assert(z0@ =~= seq!['0']);
            let ghost old_p = p@;
            p.push(z0);
            z = z + 1;
            assert(views(p@) =~= views(old_p).push(seq!['0']));
            assert(views(p@) =~= zero_fields(z as nat));
        }
        let mut q: usize = 0;
        assert(views(split_parts@).take(0) =~= seq![]);
        assert(zero_fields(pad as nat) + seq![] =~= zero_fields(pad as nat));
        while q < split_parts.len()
            invariant
                q <= split_parts@.len(),
                views(p@) == zero_fields(pad as nat) + views(split_parts@).take(q as int),
            decreases split_parts@.len() - q,
        {
            let piece = &split_parts[q];
            assert(piece@.subrange(0, piece@.len() as int) =~= piece@);
            let ghost old_p = p@;
            p.push(slice_vec(piece.as_slice(), 0, piece.len()));
            assert(views(p@) =~= views(old_p).push(piece@));
            assert(views(split_parts@).take(q + 1) =~= views(split_parts@).take(q as int).push(piece@));
            q = q + 1;
            assert(views(p@) =~= zero_fields(pad as nat) + views(split_parts@).take(q as int));
        }
        assert(views(split_parts@).take(split_parts@.len() as int) =~= views(split_parts@));
        p
    } else {
        split_parts
    };
    assert(views(parts@) == ts_fields(t@));
    if parts.len() != 3 {
        return Err(SubtitleError::InvalidTimestamp);
    }
    assert(views(parts@)[0] == parts@[0]@);
    assert(views(parts@)[1] == parts@[1]@);
    assert(views(parts@)[2] == parts@[2]@);
    let p0 = &parts[0];
    let p1 = &parts[1];
    let p2 = &parts[2];
    assert(p0@.subrange(0, p0@.len() as int) =~= p0@);
    assert(p1@.subrange(0, p1@.len() as int) =~= p1@);
    assert(p2@.subrange(0, p2@.len() as int) =~= p2@);
    let h = match parse_i64_exec(p0.as_slice(), 0, p0.len()) {
        None => return Err(SubtitleError::BadHours),
        Some(h) => h,
    };
    let m = match parse_i64_exec(p1.as_slice(), 0, p1.len()) {
        None => return Err(SubtitleError::BadMinutes),
        Some(m) => m,
    };
    let (s, f): (i64, i128) = match find_char_from(p2.as_slice(), '.', 0) {
        Some(j) => {
            proof {
                lemma_find_from_bounds(p2@, seq!['.'], 0);
            }
            let sv = match parse_i64_exec(p2.as_slice(), 0, j) {
                None => return Err(SubtitleError::BadSeconds),
                Some(sv) => sv,
            };
            let frac = slice_vec(p2.as_slice(), j + 1, p2.len());
            match fraction_exec(frac.as_slice()) {
                Err(e) => return Err(e),
                Ok(f) => (sv, f),
            }
        },
        None => {
            match parse_i64_exec(p2.as_slice(), 0, p2.len()) {
                None => return Err(SubtitleError::BadSeconds),
                Some(sv) => (sv, 0),
            }
        },
    };
    match combine_ms(h, m, s, f) {
        None => Err(SubtitleError::Overflow),
        Some(v) => Ok(v),
    }
}


/// `srt_timing` at run time.
fn timing_exec(line: &[char]) -> (r: Result<(i64, i64), SubtitleError>)
    ensures
        match r {
            Ok((a, b)) => srt_timing(line@) == Ok::<(int, int), SubtitleError>((a as int, b as int)),
            Err(e) => srt_timing(line@) == Err::<(int, int), SubtitleError>(e),
        },
{
    let (a, b) = trim_range(line, 0, line.len(), Strip::Whitespace);
    assert(line@.subrange(0, line@.len() as int) =~= line@);
    let t = slice_vec(line, a, b);
    let arrow_v: Vec<char> = vec!['-', '-', '>'];
    assert(arrow_v@ =~= arrow());
    match find_from_exec(t.as_slice(), arrow_v.as_slice(), 0) {
        None => Err(SubtitleError::MissingArrow),
        Some(j) => {
            proof {
                lemma_find_from_bounds(t@, arrow(), 0);
            }
            let (la, lb) = trim_range(t.as_slice(), 0, j, Strip::Whitespace);
            assert(t@.subrange(0, j as int) == split_once(t@, arrow()).unwrap().0);
            let lhs = slice_vec(t.as_slice(), la, lb);
            let start = match ts_exec(lhs.as_slice()) {
                Err(e) => return Err(e),
                Ok(v) => v,
            };
            let rlo = j + 3;
            let ra = trim_start_range(t.as_slice(), rlo, t.len(), Strip::Whitespace);
            let rb = take_word_range(t.as_slice(), ra, t.len());
            assert(t@.subrange(ra as int, t@.len() as int) =~= trim_start(
                t@.subrange(rlo as int, t@.len() as int),
                Strip::Whitespace,
            ));
            let rhs = slice_vec(t.as_slice(), ra, rb);
            let end = match ts_exec(rhs.as_slice()) {
                Err(e) => return Err(e),
                Ok(v) => v,
            };
            Ok((start, end))
        },
    }
}

/// `srt_block` at run time.
fn block_exec(block: &[char]) -> (r: Option<Result<(i64, i64, String), SubtitleError>>)
    ensures
        match r {
            None => srt_block(block@) is None,
            Some(Err(e)) => srt_block(block@) == Some(
                Err::<(int, int, Seq<char>), SubtitleError>(e),
            ),
            Some(Ok((s, e, t))) => srt_block(block@) == Some(
                Ok::<(int, int, Seq<char>), SubtitleError>((s as int, e as int, t@)),
            ),
        },
{
    let (a, b) = trim_range(block, 0, block.len(), Strip::Only('\n'));
    assert(block@.subrange(0, block@.len() as int) =~= block@);
    if a == b {
        return None;
    }
    let body = slice_vec(block, a, b);
    let nl: Vec<char> = vec!['\n'];
    assert(nl@ =~= seq!['\n']);
    let ls = split_exec(body.as_slice(), nl.as_slice());
    assert(views(ls@).len() == ls@.len());
    if ls.len() == 0 {
        return Some(Err(SubtitleError::EmptyBlock));
    }
    assert(views(ls@)[0] == ls@[0]@);
    let arrow_v: Vec<char> = vec!['-', '-', '>'];
    assert(arrow_v@ =~= arrow());
    let has_arrow = find_from_exec(ls[0].as_slice(), arrow_v.as_slice(), 0).is_some();
    let k: usize = if has_arrow {
        1
    } else {
        2
    };
    if k == 2 && ls.len() < 2 {
        return Some(Err(SubtitleError::ExpectedTimestampLine));
    }
    assert(views(ls@)[k - 1] == ls@[k - 1]@);
    match timing_exec(ls[k - 1].as_slice()) {
        Err(e) => Some(Err(e)),
        Ok((s, e)) => {
            let joined = join_exec(&ls, k, nl.as_slice());
            let (ta, tb) = trim_range(joined.as_slice(), 0, joined.len(), Strip::Whitespace);
            assert(joined@.subrange(0, joined@.len() as int) =~= joined@);
            let text = sub_string(joined.as_slice(), ta, tb);
            Some(Ok((s, e, text)))
        },
    }
}

/// Parse an SRT (or SRT-like VTT) file into its cues, numbered from 0
/// in file order.
///
/// A fraction whose first three bytes end inside a character is
/// reported as `FractionSplitsChar`, and a timestamp whose arithmetic
/// leaves `i64` as `Overflow`; both are inputs on which a plain
/// byte-slicing, unchecked implementation would panic.
pub fn parse(input: &str) -> (r: Result<Vec<Line>, SubtitleError>)
    ensures
        match r {
            Ok(lines) => srt_parse(input@) == Ok::<Seq<LineView>, SubtitleError>(lines_view(lines@)),
            Err(e) => srt_parse(input@) == Err::<Seq<LineView>, SubtitleError>(e),
        },
{
    let all = chars_of(input);
    let from: usize = if all.len() > 0 && all[0] == '\u{feff}' {
        1
    } else {
        0
    };
    assert(all@.skip(from as int) =~= strip_bom(input@));
    let normalised = normalize_exec(all.as_slice(), from);
    let n_len = normalised.len();
    let ws_start = trim_start_range(normalised.as_slice(), 0, n_len, Strip::Whitespace);
    assert(normalised@.subrange(0, n_len as int) =~= normalised@);
    let webvtt_v: Vec<char> = vec!['W', 'E', 'B', 'V', 'T', 'T'];
    assert(webvtt_v@ =~= webvtt());
    let trimmed = slice_vec(normalised.as_slice(), ws_start, n_len);
    let blank: Vec<char> = vec!['\n', '\n'];
    assert(blank@ =~= blank_line());
    let body: Vec<char> = if starts_with_exec(trimmed.as_slice(), webvtt_v.as_slice()) {
        match find_from_exec(normalised.as_slice(), blank.as_slice(), 0) {
            None => Vec::new(),
            Some(j) => {
                proof {
                    lemma_find_from_bounds(normalised@, blank_line(), 0);
                }
                slice_vec(normalised.as_slice(), j + 2, n_len)
            },
        }
    } else {
        normalised
    };
    assert(body@ =~= srt_body(normalize_newlines(strip_bom(input@))));
    let blocks = split_exec(body.as_slice(), blank.as_slice());
    fold_exec(&blocks)
}

/// `srt_fold(blocks, [])` at run time.
fn fold_exec(blocks: &Vec<Vec<char>>) -> (r: Result<Vec<Line>, SubtitleError>)
    ensures
        match r {
            Ok(lines) => srt_fold(views(blocks@), seq![]) == Ok::<Seq<LineView>, SubtitleError>(
                lines_view(lines@),
            ),
            Err(e) => srt_fold(views(blocks@), seq![]) == Err::<Seq<LineView>, SubtitleError>(e),
        },
{
    let mut lines: Vec<Line> = Vec::new();
    let mut i: usize = 0;
    assert(lines_view(lines@) =~= seq![]);
    assert(views(blocks@).skip(0) =~= views(blocks@));
    while i < blocks.len()
        invariant
            0 <= i <= blocks@.len(),
            srt_fold(views(blocks@), seq![]) == srt_fold(
                views(blocks@).skip(i as int),
                lines_view(lines@),
            ),
        decreases blocks@.len() - i,
    {
        let ghost rest = views(blocks@).skip(i as int);
        assert(rest[0] == blocks@[i as int]@);
        assert(rest.drop_first() =~= views(blocks@).skip(i + 1));
        match block_exec(blocks[i].as_slice()) {
            None => {},
            Some(Err(e)) => {
                return Err(e);
            },
            Some(Ok((s, e, t))) => {
                let ghost before = lines_view(lines@);
                let idx = lines.len();
                lines.push(Line { idx, start_ms: s, end_ms: e, text: t });
                assert(lines_view(lines@) =~= before.push(
                    LineView { idx: before.len() as int, start_ms: s as int, end_ms: e as int, text: t@ },
                ));
            },
        }
        i = i + 1;
    }
    assert(views(blocks@).skip(i as int) =~= seq![]);
    Ok(lines)
}


proof fn lemma_fold_numbered(blocks: Seq<Seq<char>>, acc: Seq<LineView>)
    requires
        forall|i: int| 0 <= i < acc.len() ==> #[trigger] acc[i].idx == i,
    ensures
        srt_fold(blocks, acc) matches Ok(ls) ==> forall|i: int|
            0 <= i < ls.len() ==> #[trigger] ls[i].idx == i,
    decreases blocks.len(),
{
    if blocks.len() > 0 {
        match srt_block(blocks[0]) {
            None => lemma_fold_numbered(blocks.drop_first(), acc),
            Some(Err(_)) => {},
            Some(Ok((s, e, t))) => {
                let nacc = acc.push(LineView { idx: acc.len() as int, start_ms: s, end_ms: e, text: t });
                assert forall|i: int| 0 <= i < nacc.len() implies #[trigger] nacc[i].idx == i by {
                    if i < acc.len() {
                        assert(nacc[i] == acc[i]);
                    }
                }
                lemma_fold_numbered(blocks.drop_first(), nacc);
            },
        }
    }
}

/// Every line `parse` returns carries its own position as `idx`.
pub proof fn srt_lines_are_numbered(input: Seq<char>)
    ensures
        srt_parse(input) matches Ok(ls) ==> forall|i: int|
            0 <= i < ls.len() ==> #[trigger] ls[i].idx == i,
{
    lemma_fold_numbered(split(srt_body(normalize_newlines(strip_bom(input))), blank_line()), seq![]);
}


/// The blocks between blank lines that `parse` reads, in file order.
pub open spec fn srt_blocks(input: Seq<char>) -> Seq<Seq<char>> {
    split(srt_body(normalize_newlines(strip_bom(input))), blank_line())
}

/// Block `b` is a well-formed cue.
pub open spec fn is_cue(b: Seq<char>) -> bool {
    srt_block(b) matches Some(Ok(_))
}

/// Block `b` is malformed.
pub open spec fn is_bad_block(b: Seq<char>) -> bool {
    srt_block(b) matches Some(Err(_))
}

/// The line cue block `b` gives at position `k`.
pub open spec fn line_from_block(b: Seq<char>, k: int) -> LineView {
    let c = srt_block(b)->0->Ok_0;
    LineView { idx: k, start_ms: c.0, end_ms: c.1, text: c.2 }
}

/// `ls` holds one line per cue block of `blocks`, in block order: line
/// `k` comes from block `src[k]`, numbered `base + k`, and every cue
/// block is one of them.
pub open spec fn lines_from_blocks(blocks: Seq<Seq<char>>, ls: Seq<LineView>, src: Seq<int>, base: int) -> bool {
    &&& src.len() == ls.len()
    &&& forall|k: int|
        0 <= k < src.len() ==> 0 <= #[trigger] src[k] < blocks.len() && is_cue(blocks[src[k]]) && ls[k]
            == line_from_block(blocks[src[k]], base + k)
    &&& forall|a: int, b: int| 0 <= a < b < src.len() ==> #[trigger] src[a] < #[trigger] src[b]
    &&& forall|i: int| 0 <= i < blocks.len() && is_cue(#[trigger] blocks[i]) ==> exists|k: int|
        0 <= k < src.len() && src[k] == i
}

#[verifier::spinoff_prover]
#[verifier::rlimit(40)]
proof fn lemma_fold_lines(blocks: Seq<Seq<char>>, acc: Seq<LineView>) -> (src: Seq<int>)
    ensures
        srt_fold(blocks, acc) is Err <==> exists|i: int| 0 <= i < blocks.len() && is_bad_block(#[trigger] blocks[i]),
        srt_fold(blocks, acc) matches Ok(ls) ==> ls.len() == acc.len() + src.len() && ls.take(acc.len() as int)
            == acc && lines_from_blocks(blocks, ls.skip(acc.len() as int), src, acc.len() as int),
    decreases blocks.len(),
{
    if blocks.len() == 0 {
        let ls = acc;
        assert(ls.take(acc.len() as int) =~= acc);
        assert(ls.skip(acc.len() as int) =~= Seq::<LineView>::empty());
        Seq::empty()
    } else {
        let rest = blocks.drop_first();
        assert forall|i: int| 0 <= i < rest.len() implies #[trigger] rest[i] == blocks[i + 1] by {}
        match srt_block(blocks[0]) {
            None => {
                let s0 = lemma_fold_lines(rest, acc);
                let src = s0.map_values(|x: int| x + 1);
                if exists|i: int| 0 <= i < blocks.len() && is_bad_block(#[trigger] blocks[i]) {
                    let i = choose|i: int| 0 <= i < blocks.len() && is_bad_block(#[trigger] blocks[i]);
                    assert(i > 0);
                    assert(is_bad_block(rest[i - 1]));
                }
                if exists|i: int| 0 <= i < rest.len() && is_bad_block(#[trigger] rest[i]) {
                    let i = choose|i: int| 0 <= i < rest.len() && is_bad_block(#[trigger] rest[i]);
                    assert(is_bad_block(blocks[i + 1]));
                }
                if srt_fold(blocks, acc) is Ok {
                    let ls = srt_fold(blocks, acc)->Ok_0;
                    let nl = ls.skip(acc.len() as int);
                    assert forall|i: int| 0 <= i < blocks.len() && is_cue(#[trigger] blocks[i]) implies exists|k: int|
                        0 <= k < src.len() && src[k] == i by {
                        assert(i > 0);
                        assert(is_cue(rest[i - 1]));
                        let k = choose|k: int| 0 <= k < s0.len() && s0[k] == i - 1;
                        assert(src[k] == i);
                    }
                    assert forall|k: int| 0 <= k < src.len() implies 0 <= #[trigger] src[k] < blocks.len()
                        && is_cue(blocks[src[k]]) && nl[k] == line_from_block(blocks[src[k]], acc.len() + k) by {
                        assert(src[k] == s0[k] + 1);
                        assert(rest[s0[k]] == blocks[src[k]]);
                    }
                    assert forall|a: int, b: int| 0 <= a < b < src.len() implies #[trigger] src[a] < #[trigger] src[b] by {
                        assert(src[a] == s0[a] + 1 && src[b] == s0[b] + 1);
                    }
                }
                src
            },
            Some(Err(_)) => {
                assert(is_bad_block(blocks[0]));
                Seq::empty()
            },
            Some(Ok((s, e, t))) => {
                let line = LineView { idx: acc.len() as int, start_ms: s, end_ms: e, text: t };
                let nacc = acc.push(line);
                let s0 = lemma_fold_lines(rest, nacc);
                let src = seq![0int] + s0.map_values(|x: int| x + 1);
                if exists|i: int| 0 <= i < blocks.len() && is_bad_block(#[trigger] blocks[i]) {
                    let i = choose|i: int| 0 <= i < blocks.len() && is_bad_block(#[trigger] blocks[i]);
                    assert(i > 0);
                    assert(is_bad_block(rest[i - 1]));
                }
                if exists|i: int| 0 <= i < rest.len() && is_bad_block(#[trigger] rest[i]) {
                    let i = choose|i: int| 0 <= i < rest.len() && is_bad_block(#[trigger] rest[i]);
                    assert(is_bad_block(blocks[i + 1]));
                }
                if srt_fold(blocks, acc) is Ok {
                    let ls = srt_fold(blocks, acc)->Ok_0;
                    assert(srt_fold(blocks, acc) == srt_fold(rest, nacc));
                    let nl = ls.skip(acc.len() as int);
                    let nl0 = ls.skip(nacc.len() as int);
                    assert(ls.take(nacc.len() as int) == nacc);
                    assert(ls.take(acc.len() as int) =~= ls.take(nacc.len() as int).take(acc.len() as int));
                    assert(nacc.take(acc.len() as int) =~= acc);
                    assert(ls[acc.len() as int] == ls.take(nacc.len() as int)[acc.len() as int]);
                    assert(nl =~= seq![line] + nl0);
                    assert(line == line_from_block(blocks[0], acc.len() as int));
                    assert forall|i: int| 0 <= i < blocks.len() && is_cue(#[trigger] blocks[i]) implies exists|k: int|
                        0 <= k < src.len() && src[k] == i by {
                        if i == 0 {
                            assert(src[0] == 0);
                        } else {
                            assert(is_cue(rest[i - 1]));
                            let k = choose|k: int| 0 <= k < s0.len() && s0[k] == i - 1;
                            assert(src[k + 1] == i);
                        }
                    }
                    assert forall|k: int| 0 <= k < src.len() implies 0 <= #[trigger] src[k] < blocks.len()
                        && is_cue(blocks[src[k]]) && nl[k] == line_from_block(blocks[src[k]], acc.len() + k) by {
                        if k > 0 {
                            assert(src[k] == s0[k - 1] + 1);
                            assert(rest[s0[k - 1]] == blocks[src[k]]);
                            assert(nl[k] == nl0[k - 1]);
                        }
                    }
                    assert forall|a: int, b: int| 0 <= a < b < src.len() implies #[trigger] src[a] < #[trigger] src[b] by {
                        assert(src[b] == s0[b - 1] + 1);
                        if a > 0 {
                            assert(src[a] == s0[a - 1] + 1);
                        }
                    }
                }
                src
            },
        }
    }
}

/// A block holds something besides line breaks.
pub open spec fn non_empty_block(b: Seq<char>) -> bool {
    trim(b, Strip::Only('\n')).len() > 0
}

/// `parse` gives one line per cue block, in file order, with the
/// block's times and text, numbered from 0; it fails exactly when some
/// block is malformed. Cue blocks are the non-empty blocks, so on
/// success every non-empty block gives exactly one line.
pub proof fn srt_one_line_per_block(input: Seq<char>)
    ensures
        forall|b: Seq<char>| #[trigger] is_cue(b) ==> non_empty_block(b),
        srt_parse(input) is Ok ==> forall|i: int|
            0 <= i < srt_blocks(input).len() && non_empty_block(#[trigger] srt_blocks(input)[i]) ==> is_cue(
                srt_blocks(input)[i],
            ),
        srt_parse(input) is Err <==> exists|i: int|
            0 <= i < srt_blocks(input).len() && is_bad_block(#[trigger] srt_blocks(input)[i]),
        srt_parse(input) matches Ok(ls) ==> exists|src: Seq<int>| lines_from_blocks(srt_blocks(input), ls, src, 0),
{
    let src = lemma_fold_lines(srt_blocks(input), seq![]);
    if srt_parse(input) is Ok {
        assert forall|i: int|
            0 <= i < srt_blocks(input).len() && non_empty_block(#[trigger] srt_blocks(input)[i]) implies is_cue(
            srt_blocks(input)[i],
        ) by {
            if !is_cue(srt_blocks(input)[i]) {
                assert(is_bad_block(srt_blocks(input)[i]));
            }
        }
        let ls = srt_parse(input)->Ok_0;
        assert(ls.skip(0) =~= ls);
        assert(lines_from_blocks(srt_blocks(input), ls, src, 0));
    }
}


/// The hours, minutes and seconds fields of an SRT/WebVTT timestamp as
/// written: `H:M:S`, `M:S` or `S`; fields that are left out are zero.
pub open spec fn clock_fields(t: Seq<char>) -> (Seq<char>, Seq<char>, Seq<char>) {
    let p = split(t, seq![':']);
    if p.len() >= 3 {
        (p[0], p[1], p[2])
    } else if p.len() == 2 {
        (seq!['0'], p[0], p[1])
    } else {
        (seq!['0'], seq!['0'], p[0])
    }
}

/// Whole seconds and milliseconds of a seconds field `SS.mmm` or `SS`.
pub open spec fn seconds_field(f: Seq<char>) -> Option<(int, int)> {
    match split_once(f, seq!['.']) {
        Some((sec, frac)) => match (parse_i64(sec), srt_fraction(frac)) {
            (Some(sv), Ok(ms)) => Some((sv, ms)),
            _ => None,
        },
        None => match parse_i64(f) {
            Some(sv) => Some((sv, 0)),
            None => None,
        },
    }
}

/// The numbers an SRT/WebVTT timestamp writes: hours, minutes, whole
/// seconds and milliseconds, when it has at most three fields and each
/// is a number.
pub open spec fn clock_numbers(ts: Seq<char>) -> Option<(int, int, int, int)> {
    let t = comma_to_dot(trim_ws(ts));
    let (hf, mf, sf) = clock_fields(t);
    if split(t, seq![':']).len() > 3 {
        None
    } else {
        match (parse_i64(hf), parse_i64(mf), seconds_field(sf)) {
            (Some(h), Some(m), Some((s, ms))) => Some((h, m, s, ms)),
            _ => None,
        }
    }
}

/// An SRT/WebVTT timestamp (comma or dot before the fraction, hours and
/// minutes optional) is worth `(H*3600 + M*60 + S)*1000 + mmm`
/// milliseconds, a left-out field counting as zero: it fails when its
/// fields are not numbers, and otherwise it parses to that value unless
/// the value leaves the `i64` range.
pub proof fn srt_timestamp_value(ts: Seq<char>)
    ensures
        match clock_numbers(ts) {
            Some((h, m, s, ms)) => {
                &&& srt_ts(ts) is Ok ==> srt_ts(ts) == Ok::<int, SubtitleError>((h * 3600 + m * 60 + s) * 1000 + ms)
                &&& ms_total(h, m, s, ms) is Some ==> srt_ts(ts) == Ok::<int, SubtitleError>(
                    (h * 3600 + m * 60 + s) * 1000 + ms,
                )
            },
            None => srt_ts(ts) is Err,
        },
{
    let t = comma_to_dot(trim_ws(ts));
    let p = split(t, seq![':']);
    assert(p.len() >= 1);
    if p.len() < 3 {
        let f = ts_fields(t);
        assert(f =~= zero_fields((3 - p.len()) as nat) + p);
        if p.len() == 2 {
            assert(f[0] == seq!['0'] && f[1] == p[0] && f[2] == p[1]);
        } else {
            assert(f[0] == seq!['0'] && f[1] == seq!['0'] && f[2] == p[0]);
        }
    }
}


/// Every character of `f` is an ASCII digit.
pub open spec fn ascii_digits(f: Seq<char>) -> bool {
    forall|i: int| 0 <= i < f.len() ==> '0' <= #[trigger] f[i] <= '9'
}

proof fn lemma_ascii_len(f: Seq<char>, k: int)
    requires
        ascii_digits(f),
        0 <= k <= f.len(),
    ensures
        utf8_len(f.take(k)) == k,
    decreases k,
{
    if k > 0 {
        lemma_ascii_len(f, k - 1);
        assert(f.take(k).drop_last() =~= f.take(k - 1));
        assert(f.take(k).last() == f[k - 1]);
    } else {
        assert(f.take(0) =~= Seq::<char>::empty());
    }
}

proof fn lemma_ascii_prefix(f: Seq<char>, k: int)
    requires
        ascii_digits(f),
        f.len() >= 3,
        0 <= k <= 3,
    ensures
        byte_prefix_from(f, 3, k) == Some(3int),
    decreases 3 - k,
{
    lemma_ascii_len(f, k);
    if k < 3 {
        lemma_ascii_prefix(f, k + 1);
    }
}

/// The fraction after the seconds is read as milliseconds: one digit
/// counts hundreds, two digits count hundreds and tens, three digits
/// count hundreds, tens and units, and digits past the third are
/// ignored (no digits count as zero).
pub proof fn srt_fraction_is_milliseconds(f: Seq<char>)
    requires
        ascii_digits(f),
    ensures
        f.len() == 0 ==> srt_fraction(f) == Ok::<int, SubtitleError>(0),
        f.len() == 1 ==> srt_fraction(f) == Ok::<int, SubtitleError>(((f[0] as int) - 48) * 100),
        f.len() == 2 ==> srt_fraction(f) == Ok::<int, SubtitleError>(
            ((f[0] as int) - 48) * 100 + ((f[1] as int) - 48) * 10,
        ),
        f.len() >= 3 ==> srt_fraction(f) == Ok::<int, SubtitleError>(
            ((f[0] as int) - 48) * 100 + ((f[1] as int) - 48) * 10 + ((f[2] as int) - 48),
        ),
{
    lemma_ascii_len(f, f.len() as int);
    assert(f.take(f.len() as int) =~= f);
    if f.len() >= 3 {
        lemma_ascii_prefix(f, 0);
        let t = f.take(3);
        assert(all_digits(t));
        assert(t.drop_last() =~= f.take(2));
        assert(f.take(2).drop_last() =~= f.take(1));
        assert(f.take(1).drop_last() =~= f.take(0));
        assert(f.take(0) =~= Seq::<char>::empty());
        reveal_with_fuel(digits_value, 4);
        assert(digits_value(t) == ((f[0] as int) - 48) * 100 + ((f[1] as int) - 48) * 10 + ((f[2] as int) - 48));
    } else if f.len() == 2 {
        assert(all_digits(f));
        assert(f.drop_last() =~= f.take(1));
        assert(f.take(1).drop_last() =~= Seq::<char>::empty());
        reveal_with_fuel(digits_value, 3);
        assert(digits_value(f) == ((f[0] as int) - 48) * 10 + ((f[1] as int) - 48));
    } else if f.len() == 1 {
        assert(all_digits(f));
        assert(f.drop_last() =~= Seq::<char>::empty());
        reveal_with_fuel(digits_value, 2);
        assert(digits_value(f) == (f[0] as int) - 48);
    }
}

} // verus!
