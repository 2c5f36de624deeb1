//! `GET /api/settings`: a read-only snapshot of non-secret
//! configuration. The WaniKani account facts come from the `wk_meta`
//! rows, which the server reads.

use vstd::prelude::*;

use crate::text::{chars_of, eq_chars, parse_i64, parse_i64_exec};

verus! {

/// The WaniKani level and user name among `wk_meta` rows `(key,
/// value)`: a later row wins; a `user_level` that is no integer reads
/// as unknown.
pub open spec fn wk_account(rows: Seq<(String, String)>) -> (Option<int>, Option<Seq<char>>)
    decreases rows.len(),
{
    if rows.len() == 0 {
        (None, None)
    } else {
        let prev = wk_account(rows.drop_last());
        let (k, v) = rows.last();
        if k@ == "user_level"@ {
            (parse_i64(v@), prev.1)
        } else if k@ == "username"@ {
            (prev.0, Some(v@))
        } else {
            prev
        }
    }
}

pub fn wk_meta(rows: &[(String, String)]) -> (r: (Option<i64>, Option<String>))
    ensures
        (
            match r.0 {
                Some(n) => Some(n as int),
                None => None,
            },
            match r.1 {
                Some(s) => Some(s@),
                None => None,
            },
        ) == wk_account(rows@),
{
    proof {
        reveal_strlit("user_level");
        reveal_strlit("username");
    }
    let level_key = chars_of("user_level");
    let name_key = chars_of("username");
    let mut level: Option<i64> = None;
    let mut name: Option<String> = None;
    let mut i: usize = 0;
    while i < rows.len()
        invariant
            i <= rows@.len(),
            level_key@ == "user_level"@,
            name_key@ == "username"@,
            (
                match level {
                    Some(n) => Some(n as int),
                    None => None,
                },
                match name {
                    Some(s) => Some(s@),
                    None => None,
                },
            ) == wk_account(rows@.take(i as int)),
        decreases rows@.len() - i,
    {
        let ghost pre = rows@.take(i as int + 1);
        assert(pre.drop_last() =~= rows@.take(i as int));
        let k = chars_of(rows[i].0.as_str());
        if eq_chars(k.as_slice(), level_key.as_slice()) {
            let v = chars_of(rows[i].1.as_str());
            level = parse_i64_exec(v.as_slice(), 0, v.len());
            assert(v@.subrange(0, v@.len() as int) =~= v@);
        } else if eq_chars(k.as_slice(), name_key.as_slice()) {
            name = Some(rows[i].1.clone());
        }
        i = i + 1;
    }
    assert(rows@.take(rows@.len() as int) =~= rows@);
    (level, name)
}

} // verus!
