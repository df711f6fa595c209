//! Helpers of the remote worker pool: reading back a job's elapsed time.

use vstd::prelude::*;

use crate::semver::{
    all_digits, chars_vec, dec_val, find_char, find_char_from, max_version_num, parse_num,
};

verus! {

/// Whether `[a, b)` is a plain bounded number.
pub open spec fn seg_ok(s: Seq<char>, a: int, b: int) -> bool {
    &&& 0 <= a < b <= s.len()
    &&& all_digits(s.subrange(a, b))
    &&& dec_val(s.subrange(a, b)) <= max_version_num()
}

pub open spec fn seg_val(s: Seq<char>, a: int, b: int) -> int {
    dec_val(s.subrange(a, b))
}

/// The seconds a `min:sec` or `hour:min:sec` string denotes, when it is
/// well formed.
pub open spec fn time_val(s: Seq<char>) -> Option<int> {
    match find_char_from(s, ':', 0) {
        Some(c1) => match find_char_from(s, ':', c1 + 1) {
            Some(c2) => if find_char_from(s, ':', c2 + 1) is None && seg_ok(s, 0, c1) && seg_ok(
                s,
                c1 + 1,
                c2,
            ) && seg_ok(s, c2 + 1, s.len() as int) {
                Some(
                    3600 * seg_val(s, 0, c1) + 60 * seg_val(s, c1 + 1, c2) + seg_val(
                        s,
                        c2 + 1,
                        s.len() as int,
                    ),
                )
            } else {
                None
            },
            None => if seg_ok(s, 0, c1) && seg_ok(s, c1 + 1, s.len() as int) {
                Some(60 * seg_val(s, 0, c1) + seg_val(s, c1 + 1, s.len() as int))
            } else {
                None
            },
        },
        None => None,
    }
}

/// Parses a job's elapsed time, `min:sec` or `hour:min:sec`, into
/// seconds. The caller subtracts the result from its clock to recover
/// the start time.
pub fn parse_time(time: &str) -> (r: Option<u64>)
    ensures
        match time_val(time@) {
            Some(t) => if t <= u64::MAX {
                r == Some(t as u64)
            } else {
                r is None
            },
            None => r is None,
        },
{
    let v = chars_vec(time);
    let n = v.len();
    let c1 = match find_char(&v, ':', 0) {
        Some(i) => i,
        None => {
            return None;
        },
    };
    match find_char(&v, ':', c1 + 1) {
        Some(c2) => {
            match find_char(&v, ':', c2 + 1) {
                Some(_) => None,
                None => {
                    let h = match parse_num(&v, 0, c1) {
                        Some(x) => x,
                        None => {
                            return None;
                        },
                    };
                    let m = match parse_num(&v, c1 + 1, c2) {
                        Some(x) => x,
                        None => {
                            return None;
                        },
                    };
                    let sec = match parse_num(&v, c2 + 1, n) {
                        Some(x) => x,
                        None => {
                            return None;
                        },
                    };
                    let total = match (3600u64).checked_mul(h as u64) {
                        Some(hh) => match hh.checked_add(60 * (m as u64)) {
                            Some(hm) => hm.checked_add(sec as u64),
                            None => None,
                        },
                        None => None,
                    };
                    total
                },
            }
        },
        None => {
            let m = match parse_num(&v, 0, c1) {
                Some(x) => x,
                None => {
                    return None;
                },
            };
            let sec = match parse_num(&v, c1 + 1, n) {
                Some(x) => x,
                None => {
                    return None;
                },
            };
            Some(60 * (m as u64) + sec as u64)
        },
    }
}

} // verus!
