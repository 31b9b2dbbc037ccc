//! Reading a positive line or byte count from the command line.
use vstd::prelude::*;
use vstd::string::StrSliceExecFns;
use crate::digits::{all_digits, digits_val, parse_digits};
use crate::errors::ConfigError;

verus! {

/// The digits of a count, after the one optional leading plus sign.
pub open spec fn count_digits(s: Seq<char>) -> Seq<char> {
    if s.len() > 0 && s[0] == '+' {
        s.drop_first()
    } else {
        s
    }
}

/// `s` denotes a positive count a `usize` can hold: an optional `+`,
/// then digits denoting at least 1.
pub open spec fn count_ok(s: Seq<char>) -> bool {
    &&& count_digits(s).len() > 0
    &&& all_digits(count_digits(s))
    &&& 1 <= digits_val(count_digits(s)) <= usize::MAX
}

/// Reads a strictly positive integer; anything else is rejected with the
/// offending value itself as the message.
pub fn parse_positive_int(val: &str) -> (r: Result<usize, ConfigError>)
    ensures
        match r {
            Ok(n) => count_ok(val@) && n == digits_val(count_digits(val@)),
            Err(e) => !count_ok(val@) && e@ == val@,
        },
{
    let n = val.unicode_len();
    let digits = if n > 0 && val.get_char(0) == '+' {
        val.substring_char(1, n)
    } else {
        val
    };
    proof {
        if n > 0 && val@[0] == '+' {
            assert(digits@ =~= val@.drop_first());
        } else {
            assert(digits@ =~= val@);
        }
    }
    match parse_digits(digits) {
        Some(v) => Ok(v),
        None => Err(ConfigError::new(val.to_owned())),
    }
}

} // verus!
