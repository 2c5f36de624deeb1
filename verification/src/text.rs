//! Character-level text primitives shared by the subtitle, furigana and
//! dictionary code. Everything works on `Seq<char>` in specifications
//! and on `&[char]` / `Vec<char>` at run time, so each operation has an
//! exact statement that the parsers above can build on.

use vstd::prelude::*;

verus! {

// ---------------------------------------------------------------- chars

/// The characters of `s`, in order.
pub fn chars_of(s: &str) -> (v: Vec<char>)
    ensures
        v@ == s@,
{
    let mut v: Vec<char> = Vec::new();
    for c in it: s.chars()
        invariant
            v@ == it.seq().take(it.index() as int),
            it.seq() == s@,
    {
        v.push(c);
    }
    v
}

/// Appends `c` to `s` (`String::push`).
#[verifier::external_body]
pub fn push_char(s: &mut String, c: char)
    ensures
        final(s)@ == old(s)@.push(c),
{
    s.push(c);
}

/// Appends the characters of `s` to `out`.
pub fn push_chars(out: &mut Vec<char>, s: &[char])
    ensures
        final(out)@ == old(out)@ + s@,
{
    let ghost start = out@;
    let mut i: usize = 0;
    while i < s.len()
        invariant
            i <= s@.len(),
            out@ == start + s@.take(i as int),
        decreases s@.len() - i,
    {
        out.push(s[i]);
        i = i + 1;
        assert(out@ =~= start + s@.take(i as int));
    }
    assert(s@.take(s@.len() as int) =~= s@);
}

/// Appends the characters of the text `s` to `out`.
pub fn push_text(out: &mut Vec<char>, s: &str)
    ensures
        final(out)@ == old(out)@ + s@,
{
    let cs = chars_of(s);
    push_chars(out, cs.as_slice());
}

/// A `String` holding exactly the characters of `v`.
pub fn string_of(v: &[char]) -> (s: String)
    ensures
        s@ == v@,
{
    let mut s = String::new();
    let mut i: usize = 0;
    while i < v.len()
        invariant
            0 <= i <= v@.len(),
            s@ == v@.take(i as int),
        decreases v@.len() - i,
    {
        push_char(&mut s, v[i]);
        i = i + 1;
        assert(s@ =~= v@.take(i as int));
    }
    assert(v@.take(v@.len() as int) =~= v@);
    s
}

/// A fresh vector holding `s[lo..hi]`.
pub fn slice_vec(s: &[char], lo: usize, hi: usize) -> (r: Vec<char>)
    requires
        lo <= hi <= s@.len(),
    ensures
        r@ == s@.subrange(lo as int, hi as int),
{
    let mut r: Vec<char> = Vec::new();
    let mut i = lo;
    while i < hi
        invariant
            lo <= i <= hi <= s@.len(),
            r@ == s@.subrange(lo as int, i as int),
        decreases hi - i,
    {
        r.push(s[i]);
        i = i + 1;
        assert(r@ =~= s@.subrange(lo as int, i as int));
    }
    r
}

/// The string made of `s[lo..hi]`.
pub fn sub_string(s: &[char], lo: usize, hi: usize) -> (r: String)
    requires
        lo <= hi <= s@.len(),
    ensures
        r@ == s@.subrange(lo as int, hi as int),
{
    let v = slice_vec(s, lo, hi);
    string_of(v.as_slice())
}

// ----------------------------------------------------------- whitespace

/// Unicode `White_Space`, the property behind `char::is_whitespace`.
pub open spec fn is_ws(c: char) -> bool {
    ||| ('\u{9}' <= c && c <= '\u{d}')
    ||| c == ' '
    ||| c == '\u{85}'
    ||| c == '\u{a0}'
    ||| c == '\u{1680}'
    ||| ('\u{2000}' <= c && c <= '\u{200a}')
    ||| c == '\u{2028}'
    ||| c == '\u{2029}'
    ||| c == '\u{202f}'
    ||| c == '\u{205f}'
    ||| c == '\u{3000}'
}

pub fn is_whitespace(c: char) -> (r: bool)
    ensures
        r == is_ws(c),
{
    ('\u{9}' <= c && c <= '\u{d}') || c == ' ' || c == '\u{85}' || c == '\u{a0}' || c
        == '\u{1680}' || ('\u{2000}' <= c && c <= '\u{200a}') || c == '\u{2028}' || c
        == '\u{2029}' || c == '\u{202f}' || c == '\u{205f}' || c == '\u{3000}'
}

/// Which characters a trim removes.
#[derive(Clone, Copy)]
pub enum Strip {
    /// Unicode whitespace (`trim`, `trim_start`, `trim_end`).
    Whitespace,
    /// One given character (`trim_matches(c)`).
    Only(char),
}

pub open spec fn strips(k: Strip, c: char) -> bool {
    match k {
        Strip::Whitespace => is_ws(c),
        Strip::Only(d) => c == d,
    }
}

pub fn strips_exec(k: Strip, c: char) -> (r: bool)
    ensures
        r == strips(k, c),
{
    match k {
        Strip::Whitespace => is_whitespace(c),
        Strip::Only(d) => c == d,
    }
}

/// `s` without its leading characters of kind `k`.
pub open spec fn trim_start(s: Seq<char>, k: Strip) -> Seq<char>
    decreases s.len(),
{
    if s.len() > 0 && strips(k, s[0]) {
        trim_start(s.drop_first(), k)
    } else {
        s
    }
}

/// `s` without its trailing characters of kind `k`.
pub open spec fn trim_end(s: Seq<char>, k: Strip) -> Seq<char>
    decreases s.len(),
{
    if s.len() > 0 && strips(k, s.last()) {
        trim_end(s.drop_last(), k)
    } else {
        s
    }
}

/// `s` without leading and trailing characters of kind `k`.
pub open spec fn trim(s: Seq<char>, k: Strip) -> Seq<char> {
    trim_end(trim_start(s, k), k)
}

/// `str::trim`.
pub open spec fn trim_ws(s: Seq<char>) -> Seq<char> {
    trim(s, Strip::Whitespace)
}

proof fn lemma_trim_start_step(s: Seq<char>, k: Strip, i: int, hi: int)
    requires
        0 <= i < hi <= s.len(),
        strips(k, s[i]),
    ensures
        trim_start(s.subrange(i, hi), k) == trim_start(s.subrange(i + 1, hi), k),
{
    assert(s.subrange(i, hi).drop_first() =~= s.subrange(i + 1, hi));
}

proof fn lemma_trim_end_step(s: Seq<char>, k: Strip, lo: int, j: int)
    requires
        0 <= lo < j <= s.len(),
        strips(k, s[j - 1]),
    ensures
        trim_end(s.subrange(lo, j), k) == trim_end(s.subrange(lo, j - 1), k),
{
    assert(s.subrange(lo, j).drop_last() =~= s.subrange(lo, j - 1));
}

/// Bounds of `trim_start(s[lo..hi])` within `s`.
pub fn trim_start_range(s: &[char], lo: usize, hi: usize, k: Strip) -> (a: usize)
    requires
        lo <= hi <= s@.len(),
    ensures
        lo <= a <= hi,
        s@.subrange(a as int, hi as int) == trim_start(s@.subrange(lo as int, hi as int), k),
{
    let mut i = lo;
    while i < hi && strips_exec(k, s[i])
        invariant
            lo <= i <= hi <= s@.len(),
            trim_start(s@.subrange(lo as int, hi as int), k) == trim_start(
                s@.subrange(i as int, hi as int),
                k,
            ),
        decreases hi - i,
    {
        proof {
            lemma_trim_start_step(s@, k, i as int, hi as int);
        }
        i = i + 1;
    }
    proof {
        let t = s@.subrange(i as int, hi as int);
        if t.len() > 0 {
            assert(t[0] == s@[i as int]);
        }
    }
    i
}

/// Bounds of `trim_end(s[lo..hi])` within `s`.
pub fn trim_end_range(s: &[char], lo: usize, hi: usize, k: Strip) -> (b: usize)
    requires
        lo <= hi <= s@.len(),
    ensures
        lo <= b <= hi,
        s@.subrange(lo as int, b as int) == trim_end(s@.subrange(lo as int, hi as int), k),
{
    let mut j = hi;
    while j > lo && strips_exec(k, s[j - 1])
        invariant
            lo <= j <= hi <= s@.len(),
            trim_end(s@.subrange(lo as int, hi as int), k) == trim_end(
                s@.subrange(lo as int, j as int),
                k,
            ),
        decreases j - lo,
    {
        proof {
            lemma_trim_end_step(s@, k, lo as int, j as int);
        }
        j = j - 1;
    }
    proof {
        let t = s@.subrange(lo as int, j as int);
        if t.len() > 0 {
            assert(t.last() == s@[j - 1]);
        }
    }
    j
}

/// Bounds of `trim(s[lo..hi])` within `s`.
pub fn trim_range(s: &[char], lo: usize, hi: usize, k: Strip) -> (r: (usize, usize))
    requires
        lo <= hi <= s@.len(),
    ensures
        lo <= r.0 <= r.1 <= hi,
        s@.subrange(r.0 as int, r.1 as int) == trim(s@.subrange(lo as int, hi as int), k),
{
    let a = trim_start_range(s, lo, hi, k);
    let b = trim_end_range(s, a, hi, k);
    (a, b)
}

// ------------------------------------------------------ prefix / suffix

/// `pat` occurs in `s` at position `i`.
pub open spec fn match_at(s: Seq<char>, pat: Seq<char>, i: int) -> bool {
    0 <= i && i + pat.len() <= s.len() && s.subrange(i, i + pat.len()) == pat
}

pub open spec fn starts_with(s: Seq<char>, pat: Seq<char>) -> bool {
    match_at(s, pat, 0)
}

pub open spec fn ends_with(s: Seq<char>, pat: Seq<char>) -> bool {
    pat.len() <= s.len() && match_at(s, pat, s.len() - pat.len())
}

/// Whether `pat` occurs in `s` at position `i`.
pub fn match_at_exec(s: &[char], pat: &[char], i: usize) -> (r: bool)
    ensures
        r == match_at(s@, pat@, i as int),
{
    if i > s.len() || pat.len() > s.len() - i {
        return false;
    }
    let n = s.len();
    let mut k: usize = 0;
    while k < pat.len()
        invariant
            n == s@.len(),
            i + pat@.len() <= s@.len(),
            0 <= k <= pat@.len(),
            forall|t: int| 0 <= t < k ==> s@[i + t] == pat@[t],
        decreases pat@.len() - k,
    {
        assert(i + k < s@.len());
        if s[i + k] != pat[k] {
            assert(s@.subrange(i as int, i + pat@.len())[k as int] != pat@[k as int]);
            return false;
        }
        k = k + 1;
    }
    assert(s@.subrange(i as int, i + pat@.len()) =~= pat@);
    true
}

pub fn starts_with_exec(s: &[char], pat: &[char]) -> (r: bool)
    ensures
        r == starts_with(s@, pat@),
{
    match_at_exec(s, pat, 0)
}

pub fn ends_with_exec(s: &[char], pat: &[char]) -> (r: bool)
    ensures
        r == ends_with(s@, pat@),
{
    if pat.len() > s.len() {
        false
    } else {
        match_at_exec(s, pat, s.len() - pat.len())
    }
}

// ------------------------------------------------------------ searching

/// First position `j >= i` at which `pat` occurs in `s`.
pub open spec fn find_from(s: Seq<char>, pat: Seq<char>, i: int) -> Option<int>
    decreases s.len() - i,
{
    if i < 0 || i + pat.len() > s.len() {
        None
    } else if match_at(s, pat, i) {
        Some(i)
    } else {
        proof {
            if pat.len() == 0 {
                assert(s.subrange(i, i) =~= pat);
            }
        }
        find_from(s, pat, i + 1)
    }
}

/// First position at which `pat` occurs in `s` (`str::find`).
pub open spec fn find(s: Seq<char>, pat: Seq<char>) -> Option<int> {
    find_from(s, pat, 0)
}

pub proof fn lemma_find_from_bounds(s: Seq<char>, pat: Seq<char>, i: int)
    ensures
        find_from(s, pat, i) matches Some(j) ==> i <= j && match_at(s, pat, j) && (forall|
            t: int,
        | i <= t < j ==> !match_at(s, pat, t)),
        find_from(s, pat, i) is None ==> (0 <= i ==> forall|t: int| i <= t ==> !match_at(s, pat, t)),
    decreases s.len() - i,
{
    if i < 0 || i + pat.len() > s.len() {
    } else if match_at(s, pat, i) {
    } else {
        if pat.len() == 0 {
            assert(s.subrange(i, i) =~= pat);
        }
        lemma_find_from_bounds(s, pat, i + 1);
    }
}

/// `find_from` at run time.
pub fn find_from_exec(s: &[char], pat: &[char], i: usize) -> (r: Option<usize>)
    ensures
        match r {
            Some(j) => find_from(s@, pat@, i as int) == Some(j as int),
            None => find_from(s@, pat@, i as int) is None,
        },
{
    if pat.len() == 0 {
        if i <= s.len() {
            assert(match_at(s@, pat@, i as int)) by {
                assert(s@.subrange(i as int, i as int) =~= pat@);
            }
            return Some(i);
        }
        return None;
    }
    let mut j = i;
    while j <= s.len() && pat.len() <= s.len() - j
        invariant
            i <= j,
            pat@.len() > 0,
            find_from(s@, pat@, i as int) == find_from(s@, pat@, j as int),
        decreases s@.len() - j,
    {
        if match_at_exec(s, pat, j) {
            return Some(j);
        }
        j = j + 1;
    }
    None
}

/// First position of `c` in `s[i..]`.
pub fn find_char_from(s: &[char], c: char, i: usize) -> (r: Option<usize>)
    ensures
        match r {
            Some(j) => find_from(s@, seq![c], i as int) == Some(j as int),
            None => find_from(s@, seq![c], i as int) is None,
        },
{
    let mut v: Vec<char> = Vec::new();
    v.push(c);
    assert(v@ =~= seq![c]);
    find_from_exec(s, v.as_slice(), i)
}

// ------------------------------------------------------------ splitting

/// Pieces of `s[i..]` between the occurrences of `pat` (`str::split`).
pub open spec fn split_from(s: Seq<char>, pat: Seq<char>, i: int) -> Seq<Seq<char>>
    decreases s.len() - i,
{
    if pat.len() == 0 || i < 0 || i > s.len() {
        seq![]
    } else {
        match find_from(s, pat, i) {
            None => seq![s.subrange(i, s.len() as int)],
            Some(j) => {
                proof {
                    lemma_find_from_bounds(s, pat, i);
                }
                seq![s.subrange(i, j)] + split_from(s, pat, j + pat.len())
            },
        }
    }
}

/// `str::split` with a non-empty pattern.
pub open spec fn split(s: Seq<char>, pat: Seq<char>) -> Seq<Seq<char>> {
    split_from(s, pat, 0)
}

/// The views of a vector of character vectors.
pub open spec fn views(v: Seq<Vec<char>>) -> Seq<Seq<char>> {
    Seq::new(v.len(), |i: int| v[i]@)
}

/// `split` at run time.
pub fn split_exec(s: &[char], pat: &[char]) -> (r: Vec<Vec<char>>)
    requires
        pat@.len() > 0,
    ensures
        views(r@) == split(s@, pat@),
{
    let mut out: Vec<Vec<char>> = Vec::new();
    let mut i: usize = 0;
    let n = s.len();
    loop
        invariant
            n == s@.len(),
            pat@.len() > 0,
            0 <= i <= s@.len(),
            views(out@) + split_from(s@, pat@, i as int) == split(s@, pat@),
        decreases s@.len() - i,
    {
        let ghost old_out = out@;
        match find_from_exec(s, pat, i) {
            None => {
                let piece = slice_vec(s, i, s.len());
                out.push(piece);
                assert(views(out@) =~= views(old_out) + split_from(s@, pat@, i as int));
                return out;
            },
            Some(j) => {
                proof {
                    lemma_find_from_bounds(s@, pat@, i as int);
                    assert(match_at(s@, pat@, j as int));
                }
                let piece = slice_vec(s, i, j);
                out.push(piece);
                assert(views(out@) =~= views(old_out) + seq![s@.subrange(i as int, j as int)]);
                assert(views(out@) + split_from(s@, pat@, j + pat@.len()) =~= views(old_out)
                    + split_from(s@, pat@, i as int));
                i = j + pat.len();
            },
        }
    }
}

/// `s.split_once(pat)`.
pub open spec fn split_once(s: Seq<char>, pat: Seq<char>) -> Option<(Seq<char>, Seq<char>)> {
    match find(s, pat) {
        None => None,
        Some(j) => Some((s.subrange(0, j), s.subrange(j + pat.len(), s.len() as int))),
    }
}

/// At most `n` pieces of `s` split at `c`, the last holding the rest
/// (`str::splitn`).
pub open spec fn splitn_from(s: Seq<char>, c: char, n: nat, i: int) -> Seq<Seq<char>>
    decreases n,
{
    if n == 0 || i < 0 || i > s.len() {
        seq![]
    } else if n == 1 {
        seq![s.subrange(i, s.len() as int)]
    } else {
        match find_from(s, seq![c], i) {
            None => seq![s.subrange(i, s.len() as int)],
            Some(j) => seq![s.subrange(i, j)] + splitn_from(s, c, (n - 1) as nat, j + 1),
        }
    }
}

pub open spec fn splitn(s: Seq<char>, c: char, n: nat) -> Seq<Seq<char>> {
    splitn_from(s, c, n, 0)
}

/// `splitn` at run time.
pub fn splitn_exec(s: &[char], c: char, n: usize) -> (r: Vec<Vec<char>>)
    ensures
        views(r@) == splitn(s@, c, n as nat),
{
    let mut out: Vec<Vec<char>> = Vec::new();
    let mut i: usize = 0;
    let mut left = n;
    if n == 0 {
        assert(views(out@) =~= seq![]);
        return out;
    }
    let len = s.len();
    loop
        invariant
            len == s@.len(),
            1 <= left <= n,
            0 <= i <= s@.len(),
            views(out@) + splitn_from(s@, c, left as nat, i as int) == splitn(s@, c, n as nat),
        decreases left,
    {
        let ghost old_out = out@;
        if left == 1 {
            out.push(slice_vec(s, i, s.len()));
            assert(views(out@) =~= views(old_out) + splitn_from(s@, c, left as nat, i as int));
            return out;
        }
        match find_char_from(s, c, i) {
            None => {
                out.push(slice_vec(s, i, s.len()));
                assert(views(out@) =~= views(old_out) + splitn_from(
                    s@,
                    c,
                    left as nat,
                    i as int,
                ));
                return out;
            },
            Some(j) => {
                proof {
                    lemma_find_from_bounds(s@, seq![c], i as int);
                    assert(match_at(s@, seq![c], j as int));
                }
                out.push(slice_vec(s, i, j));
                assert(views(out@) + splitn_from(s@, c, (left - 1) as nat, j + 1) =~= views(
                    old_out,
                ) + splitn_from(s@, c, left as nat, i as int));
                i = j + 1;
                left = left - 1;
            },
        }
    }
}

/// `parts` joined with `sep` between consecutive pieces.
pub open spec fn join(parts: Seq<Seq<char>>, sep: Seq<char>) -> Seq<char>
    decreases parts.len(),
{
    if parts.len() == 0 {
        seq![]
    } else if parts.len() == 1 {
        parts[0]
    } else {
        join(parts.drop_last(), sep) + sep + parts.last()
    }
}

/// `join` at run time, over `parts[from..]`.
pub fn join_exec(parts: &Vec<Vec<char>>, from: usize, sep: &[char]) -> (r: Vec<char>)
    requires
        from <= parts@.len(),
    ensures
        r@ == join(views(parts@).subrange(from as int, parts@.len() as int), sep@),
{
    let mut out: Vec<char> = Vec::new();
    let mut i = from;
    while i < parts.len()
        invariant
            from <= i <= parts@.len(),
            out@ == join(views(parts@).subrange(from as int, i as int), sep@),
        decreases parts@.len() - i,
    {
        let ghost prev = out@;
        if i > from {
            let mut k: usize = 0;
            while k < sep.len()
                invariant
                    0 <= k <= sep@.len(),
                    out@ == prev + sep@.take(k as int),
                decreases sep@.len() - k,
            {
                out.push(sep[k]);
                k = k + 1;
                assert(out@ =~= prev + sep@.take(k as int));
            }
            assert(sep@.take(sep@.len() as int) =~= sep@);
        }
        let ghost mid = out@;
        let piece = &parts[i];
        let mut k: usize = 0;
        while k < piece.len()
            invariant
                0 <= k <= piece@.len(),
                out@ == mid + piece@.take(k as int),
            decreases piece@.len() - k,
        {
            out.push(piece[k]);
            k = k + 1;
            assert(out@ =~= mid + piece@.take(k as int));
        }
        assert(piece@.take(piece@.len() as int) =~= piece@);
        proof {
            let vs = views(parts@).subrange(from as int, i + 1);
            assert(vs.drop_last() =~= views(parts@).subrange(from as int, i as int));
            assert(vs.last() == parts@[i as int]@);
            if i == from {
                assert(vs.len() == 1);
                assert(out@ =~= vs[0]);
            }
        }
        i = i + 1;
    }
    out
}

// -------------------------------------------------------------- numbers

pub open spec fn is_digit(c: char) -> bool {
    '0' <= c && c <= '9'
}

pub open spec fn digit_value(c: char) -> int {
    (c as int) - ('0' as int)
}

pub open spec fn all_digits(s: Seq<char>) -> bool {
    forall|i: int| 0 <= i < s.len() ==> is_digit(s[i])
}

/// The decimal value of a run of ASCII digits.
pub open spec fn digits_value(s: Seq<char>) -> int
    decreases s.len(),
{
    if s.len() == 0 {
        0
    } else {
        digits_value(s.drop_last()) * 10 + digit_value(s.last())
    }
}

/// The integer a decimal string denotes under Rust's integer `FromStr`
/// grammar: an optional `+` (or, when `signed`, `-`) then at least one
/// ASCII digit. `None` when the text does not match.
pub open spec fn decimal(s: Seq<char>, signed: bool) -> Option<int> {
    if s.len() > 0 && (s[0] == '+' || (signed && s[0] == '-')) {
        let rest = s.drop_first();
        if rest.len() > 0 && all_digits(rest) {
            if s[0] == '-' {
                Some(-digits_value(rest))
            } else {
                Some(digits_value(rest))
            }
        } else {
            None
        }
    } else if s.len() > 0 && all_digits(s) {
        Some(digits_value(s))
    } else {
        None
    }
}

/// `s.parse::<i64>().ok()`.
pub open spec fn parse_i64(s: Seq<char>) -> Option<int> {
    match decimal(s, true) {
        Some(v) if i64::MIN <= v <= i64::MAX => Some(v),
        _ => None,
    }
}

/// `s.parse::<u32>().ok()`.
pub open spec fn parse_u32(s: Seq<char>) -> Option<int> {
    match decimal(s, false) {
        Some(v) if v <= u32::MAX => Some(v),
        _ => None,
    }
}

/// `s.parse::<u16>().ok()`.
pub open spec fn parse_u16(s: Seq<char>) -> Option<int> {
    match decimal(s, false) {
        Some(v) if v <= u16::MAX => Some(v),
        _ => None,
    }
}

proof fn lemma_digits_value_nonneg(s: Seq<char>)
    requires
        all_digits(s),
    ensures
        digits_value(s) >= 0,
    decreases s.len(),
{
    if s.len() > 0 {
        lemma_digits_value_nonneg(s.drop_last());
    }
}

proof fn lemma_digits_grow(s: Seq<char>)
    requires
        all_digits(s),
        s.len() > 0,
    ensures
        digits_value(s) >= digits_value(s.drop_last()),
{
    lemma_digits_value_nonneg(s.drop_last());
}

proof fn lemma_prefix_exceeds(s: Seq<char>, k: int, cap: int)
    requires
        all_digits(s),
        0 <= k <= s.len(),
        digits_value(s.take(k)) > cap,
    ensures
        digits_value(s) > cap,
    decreases s.len() - k,
{
    if k < s.len() {
        let nk = s.take(k + 1);
        assert(nk.drop_last() =~= s.take(k));
        assert(all_digits(nk));
        lemma_digits_grow(nk);
        lemma_prefix_exceeds(s, k + 1, cap);
    } else {
        assert(s.take(k) =~= s);
    }
}

/// The value of the digits `s[lo..hi]`, or `None` once it exceeds `cap`.
fn digits_upto(s: &[char], lo: usize, hi: usize, cap: u64) -> (r: Option<u64>)
    requires
        lo <= hi <= s@.len(),
        cap >= 9,
        all_digits(s@.subrange(lo as int, hi as int)),
    ensures
        match r {
            Some(v) => v == digits_value(s@.subrange(lo as int, hi as int)) && v <= cap,
            None => digits_value(s@.subrange(lo as int, hi as int)) > cap,
        },
{
    let mut acc: u64 = 0;
    let mut i = lo;
    while i < hi
        invariant
            lo <= i <= hi <= s@.len(),
            all_digits(s@.subrange(lo as int, hi as int)),
            acc == digits_value(s@.subrange(lo as int, i as int)),
            acc <= cap,
            cap >= 9,
        decreases hi - i,
    {
        let c = s[i];
        assert(s@.subrange(lo as int, hi as int)[i - lo] == c);
        assert(is_digit(c));
        let d = (c as u32 - '0' as u32) as u64;
        let ghost pre = s@.subrange(lo as int, i as int);
        let ghost next = s@.subrange(lo as int, i + 1);
        assert(next.drop_last() =~= pre);
        assert(next.last() == c);
        assert(digits_value(next) == digits_value(pre) * 10 + d);
        if acc > (cap - d) / 10 {
            proof {
                assert(acc * 10 + d > cap) by (nonlinear_arith)
                    requires
                        acc > (cap - d) / 10,
                        d <= cap || d > cap,
                        d <= 9,
                        cap >= 0,
                ;
                assert(s@.subrange(lo as int, hi as int).take((i + 1 - lo) as int) =~= next);
                lemma_prefix_exceeds(s@.subrange(lo as int, hi as int), (i + 1 - lo) as int, cap as int);
                assert(s@.subrange(lo as int, hi as int).take((hi - lo) as int) =~= s@.subrange(lo as int, hi as int));
            }
            return None;
        }
        assert(acc * 10 + d <= cap) by (nonlinear_arith)
            requires
                acc <= (cap - d) / 10,
                d <= 9,
                d <= cap || acc == 0,
        ;
        acc = acc * 10 + d;
        i = i + 1;
    }
    Some(acc)
}

pub fn is_digit_exec(c: char) -> (r: bool)
    ensures
        r == is_digit(c),
{
    '0' <= c && c <= '9'
}

fn all_digits_exec(s: &[char], lo: usize, hi: usize) -> (r: bool)
    requires
        lo <= hi <= s@.len(),
    ensures
        r == all_digits(s@.subrange(lo as int, hi as int)),
{
    let mut i = lo;
    while i < hi
        invariant
            lo <= i <= hi <= s@.len(),
            forall|t: int| lo <= t < i ==> is_digit(s@[t]),
        decreases hi - i,
    {
        if !is_digit_exec(s[i]) {
            assert(!is_digit(s@.subrange(lo as int, hi as int)[i - lo]));
            return false;
        }
        i = i + 1;
    }
    assert forall|t: int| 0 <= t < hi - lo implies is_digit(
        s@.subrange(lo as int, hi as int)[t],
    ) by {
        assert(s@.subrange(lo as int, hi as int)[t] == s@[lo + t]);
    }
    true
}

/// `s[lo..hi].parse::<i64>().ok()`.
pub fn parse_i64_exec(s: &[char], lo: usize, hi: usize) -> (r: Option<i64>)
    requires
        lo <= hi <= s@.len(),
    ensures
        match r {
            Some(v) => parse_i64(s@.subrange(lo as int, hi as int)) == Some(v as int),
            None => parse_i64(s@.subrange(lo as int, hi as int)) is None,
        },
{
    let ghost t = s@.subrange(lo as int, hi as int);
    if lo == hi {
        return None;
    }
    let c0 = s[lo];
    assert(t[0] == c0);
    if c0 == '+' || c0 == '-' {
        assert(t.drop_first() =~= s@.subrange(lo + 1, hi as int));
        if lo + 1 == hi || !all_digits_exec(s, lo + 1, hi) {
            return None;
        }
        let cap: u64 = if c0 == '-' {
            9223372036854775808
        } else {
            9223372036854775807
        };
        match digits_upto(s, lo + 1, hi, cap) {
            None => None,
            Some(v) => {
                if c0 == '-' {
                    if v == 9223372036854775808 {
                        Some(i64::MIN)
                    } else {
                        Some(-(v as i64))
                    }
                } else {
                    Some(v as i64)
                }
            },
        }
    } else {
        if !all_digits_exec(s, lo, hi) {
            return None;
        }
        match digits_upto(s, lo, hi, 9223372036854775807) {
            None => None,
            Some(v) => Some(v as i64),
        }
    }
}

/// `s[lo..hi].parse::<u64>()` restricted to values up to `cap`, with
/// `cap` one of the unsigned maxima used by callers.
fn parse_unsigned_upto(s: &[char], lo: usize, hi: usize, cap: u64) -> (r: Option<u64>)
    requires
        lo <= hi <= s@.len(),
        cap >= 9,
    ensures
        match r {
            Some(v) => decimal(s@.subrange(lo as int, hi as int), false) == Some(v as int) && v
                <= cap,
            None => match decimal(s@.subrange(lo as int, hi as int), false) {
                Some(v) => v > cap,
                None => true,
            },
        },
{
    let ghost t = s@.subrange(lo as int, hi as int);
    if lo == hi {
        return None;
    }
    let c0 = s[lo];
    assert(t[0] == c0);
    let start = if c0 == '+' {
        assert(t.drop_first() =~= s@.subrange(lo + 1, hi as int));
        lo + 1
    } else {
        lo
    };
    if start == hi || !all_digits_exec(s, start, hi) {
        proof {
            if c0 != '+' && start < hi {
                assert(!all_digits(t));
            }
        }
        return None;
    }
    digits_upto(s, start, hi, cap)
}

/// `s[lo..hi].parse::<u32>().ok()`.
pub fn parse_u32_exec(s: &[char], lo: usize, hi: usize) -> (r: Option<u32>)
    requires
        lo <= hi <= s@.len(),
    ensures
        match r {
            Some(v) => parse_u32(s@.subrange(lo as int, hi as int)) == Some(v as int),
            None => parse_u32(s@.subrange(lo as int, hi as int)) is None,
        },
{
    match parse_unsigned_upto(s, lo, hi, 4294967295) {
        Some(v) => Some(v as u32),
        None => None,
    }
}

/// `s[lo..hi].parse::<u16>().ok()`.
pub fn parse_u16_exec(s: &[char], lo: usize, hi: usize) -> (r: Option<u16>)
    requires
        lo <= hi <= s@.len(),
    ensures
        match r {
            Some(v) => parse_u16(s@.subrange(lo as int, hi as int)) == Some(v as int),
            None => parse_u16(s@.subrange(lo as int, hi as int)) is None,
        },
{
    match parse_unsigned_upto(s, lo, hi, 65535) {
        Some(v) => Some(v as u16),
        None => None,
    }
}

// ---------------------------------------------------------------- UTF-8

/// Bytes `c` takes in UTF-8.
pub open spec fn utf8_width(c: char) -> int {
    if (c as int) < 0x80 {
        1
    } else if (c as int) < 0x800 {
        2
    } else if (c as int) < 0x10000 {
        3
    } else {
        4
    }
}

/// Bytes `s` takes in UTF-8 (`str::len`).
pub open spec fn utf8_len(s: Seq<char>) -> int
    decreases s.len(),
{
    if s.len() == 0 {
        0
    } else {
        utf8_len(s.drop_last()) + utf8_width(s.last())
    }
}

/// The number of leading characters of `s` that take exactly `b`
/// bytes, scanning from `k` characters on.
pub open spec fn byte_prefix_from(s: Seq<char>, b: int, k: int) -> Option<int>
    decreases s.len() - k,
{
    if k < 0 || k > s.len() {
        None
    } else if utf8_len(s.take(k)) == b {
        Some(k)
    } else if utf8_len(s.take(k)) > b || k == s.len() {
        None
    } else {
        byte_prefix_from(s, b, k + 1)
    }
}

pub proof fn lemma_utf8_len_push(s: Seq<char>, k: int)
    requires
        0 <= k < s.len(),
    ensures
        utf8_len(s.take(k + 1)) == utf8_len(s.take(k)) + utf8_width(s[k]),
{
    assert(s.take(k + 1).drop_last() =~= s.take(k));
}

pub proof fn lemma_utf8_len_ge(s: Seq<char>, k: int)
    requires
        0 <= k <= s.len(),
    ensures
        utf8_len(s) >= utf8_len(s.take(k)),
    decreases s.len() - k,
{
    if k < s.len() {
        lemma_utf8_len_push(s, k);
        lemma_utf8_len_ge(s, k + 1);
    } else {
        assert(s.take(k) =~= s);
    }
}

pub fn utf8_width_exec(c: char) -> (r: usize)
    ensures
        r == utf8_width(c),
{
    let u = c as u32;
    if u < 0x80 {
        1
    } else if u < 0x800 {
        2
    } else if u < 0x10000 {
        3
    } else {
        4
    }
}


/// Whether two character slices are equal.
pub fn eq_chars(a: &[char], b: &[char]) -> (r: bool)
    ensures
        r == (a@ == b@),
{
    if a.len() != b.len() {
        return false;
    }
    let mut i: usize = 0;
    while i < a.len()
        invariant
            a@.len() == b@.len(),
            i <= a@.len(),
            forall|t: int| 0 <= t < i ==> a@[t] == b@[t],
        decreases a@.len() - i,
    {
        if a[i] != b[i] {
            return false;
        }
        i = i + 1;
    }
    assert(a@ =~= b@);
    true
}

/// Whether `s` holds exactly the characters `lit`.
pub fn str_is(s: &str, lit: &[char]) -> (r: bool)
    ensures
        r == (s@ == lit@),
{
    let v = chars_of(s);
    eq_chars(v.as_slice(), lit)
}

// ---------------------------------------------------------------- ascii

/// `char::from_u32`.
#[verifier::external_body]
pub(crate) fn char_from_u32(u: u32) -> (r: Option<char>)
    ensures
        (u <= 0xD7FF || (0xE000 <= u && u <= 0x10FFFF)) ==> r == Some(u as char),
        !(u <= 0xD7FF || (0xE000 <= u && u <= 0x10FFFF)) ==> r is None,
{
    char::from_u32(u)
}

/// `char::to_ascii_lowercase`: `A`..=`Z` to `a`..=`z`, all else kept.
pub open spec fn ascii_lower(c: char) -> char {
    if 'A' <= c && c <= 'Z' {
        ((c as u32) + 32) as char
    } else {
        c
    }
}

/// `str::to_ascii_lowercase`.
pub open spec fn lower_ascii(s: Seq<char>) -> Seq<char> {
    s.map_values(|c: char| ascii_lower(c))
}

pub fn ascii_lower_exec(c: char) -> (r: char)
    ensures
        r == ascii_lower(c),
{
    if 'A' <= c && c <= 'Z' {
        match char_from_u32((c as u32) + 32) {
            Some(l) => l,
            None => c,
        }
    } else {
        c
    }
}

pub fn lower_ascii_exec(s: &[char]) -> (r: Vec<char>)
    ensures
        r@ == lower_ascii(s@),
{
    let mut out: Vec<char> = Vec::new();
    let mut i: usize = 0;
    while i < s.len()
        invariant
            i <= s@.len(),
            out@ == lower_ascii(s@.take(i as int)),
        decreases s@.len() - i,
    {
        out.push(ascii_lower_exec(s[i]));
        i = i + 1;
        assert(out@ =~= lower_ascii(s@.take(i as int)));
    }
    assert(s@.take(s@.len() as int) =~= s@);
    out
}

// ------------------------------------------------------------- printing

/// The ASCII digit for `d < 10`.
pub open spec fn digit_char(d: nat) -> char {
    ((('0' as u32) as nat) + d) as char
}

/// The decimal digits of `n`, most significant first, no leading zero.
pub open spec fn nat_digits(n: nat) -> Seq<char>
    decreases n,
{
    if n < 10 {
        seq![digit_char(n)]
    } else {
        nat_digits(n / 10).push(digit_char(n % 10))
    }
}

/// `n` as `Display` prints an integer: a `-` for negatives, then digits.
pub open spec fn int_text(n: int) -> Seq<char> {
    if n < 0 {
        seq!['-'] + nat_digits((-n) as nat)
    } else {
        nat_digits(n as nat)
    }
}

fn digit_char_exec(d: u64) -> (c: char)
    requires
        d < 10,
    ensures
        c == digit_char(d as nat),
{
    match char_from_u32(48 + (d as u32)) {
        Some(c) => c,
        None => '0',
    }
}

fn push_digits(out: &mut Vec<char>, n: u64)
    ensures
        final(out)@ == old(out)@ + nat_digits(n as nat),
    decreases n,
{
    if n >= 10 {
        push_digits(out, n / 10);
    }
    out.push(digit_char_exec(n % 10));
    proof {
        if n < 10 {
            assert(n % 10 == n);
        }
    }
    assert(out@ =~= old(out)@ + nat_digits(n as nat)) by {
        if n >= 10 {
            assert(nat_digits(n as nat) == nat_digits((n / 10) as nat).push(digit_char((n % 10) as nat)));
        }
    }
}

/// Appends the decimal text of `n` to `out`.
pub fn push_i64(out: &mut Vec<char>, n: i64)
    ensures
        final(out)@ == old(out)@ + int_text(n as int),
{
    if n < 0 {
        out.push('-');
        let m: u64 = if n == i64::MIN {
            9223372036854775808u64
        } else {
            (-n) as u64
        };
        push_digits(out, m);
        assert(out@ =~= old(out)@ + int_text(n as int));
    } else {
        push_digits(out, n as u64);
    }
}

} // verus!
