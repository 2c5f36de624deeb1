//! Millisecond arithmetic shared by the SRT and ASS timestamp parsers.

use vstd::prelude::*;

verus! {

pub open spec fn fits_i64(x: int) -> bool {
    i64::MIN <= x <= i64::MAX
}

/// `((h * 3600 + m * 60 + s) * 1000) + extra`, or `None` when a step of
/// that evaluation leaves the `i64` range.
pub open spec fn ms_total(h: int, m: int, s: int, extra: int) -> Option<int> {
    let a = h * 3600;
    let b = m * 60;
    let c = a + b;
    let d = c + s;
    let e = d * 1000;
    let f = e + extra;
    if fits_i64(a) && fits_i64(b) && fits_i64(c) && fits_i64(d) && fits_i64(e) && fits_i64(f) {
        Some(f)
    } else {
        None
    }
}

fn in_i64(x: i128) -> (r: bool)
    ensures
        r == fits_i64(x as int),
{
    -9223372036854775808i128 <= x && x <= 9223372036854775807i128
}

/// `ms_total` at run time.
pub fn combine_ms(h: i64, m: i64, s: i64, extra: i128) -> (r: Option<i64>)
    requires
        -0x1_0000_0000_0000_0000_0000_0000 <= extra <= 0x1_0000_0000_0000_0000_0000_0000,
    ensures
        match r {
            Some(v) => ms_total(h as int, m as int, s as int, extra as int) == Some(v as int),
            None => ms_total(h as int, m as int, s as int, extra as int) is None,
        },
{
    let a = (h as i128) * 3600;
    if !in_i64(a) {
        return None;
    }
    let b = (m as i128) * 60;
    if !in_i64(b) {
        return None;
    }
    let c = a + b;
    if !in_i64(c) {
        return None;
    }
    let d = c + (s as i128);
    if !in_i64(d) {
        return None;
    }
    let e = d * 1000;
    if !in_i64(e) {
        return None;
    }
    let f = e + extra;
    if !in_i64(f) {
        return None;
    }
    Some(f as i64)
}

} // verus!
