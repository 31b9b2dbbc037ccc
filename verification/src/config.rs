//! Configuration checks made once, before any unit of input is processed.
use vstd::prelude::*;
use vstd::utf8::encode_utf8;
use core::ops::Range;
use crate::errors::{delim_msg, delimiter_error, missing_mode_error, ConfigError};
use crate::extract::Extract;

verus! {

/// Accepts a field delimiter only when it is exactly one byte, and hands
/// that byte back; anything else is rejected, naming the delimiter.
pub fn validate_delimiter(delim: &str) -> (r: Result<u8, ConfigError>)
    ensures
        match r {
            Ok(b) => encode_utf8(delim@).len() == 1 && b == encode_utf8(delim@)[0],
            Err(e) => encode_utf8(delim@).len() != 1 && e@ == delim_msg(delim@),
        },
{
    let bytes = delim.as_bytes();
    if bytes.len() != 1 {
        Err(delimiter_error(delim))
    } else {
        Ok(bytes[0])
    }
}

/// Picks the one selection mode from the three mutually exclusive options,
/// fields first, then bytes, then characters; with none given the
/// configuration is rejected.
pub fn select_mode(
    fields: Option<Vec<Range<usize>>>,
    bytes: Option<Vec<Range<usize>>>,
    chars: Option<Vec<Range<usize>>>,
) -> (r: Result<Extract, ConfigError>)
    ensures
        match r {
            Ok(ex) => match ex {
                Extract::Fields(p) => fields == Some(p),
                Extract::Bytes(p) => fields is None && bytes == Some(p),
                Extract::Chars(p) => fields is None && bytes is None && chars == Some(p),
            },
            Err(e) => fields is None && bytes is None && chars is None && e@
                == "Must have --fields, --bytes, or --chars"@,
        },
{
    if let Some(p) = fields {
        Ok(Extract::Fields(p))
    } else if let Some(p) = bytes {
        Ok(Extract::Bytes(p))
    } else if let Some(p) = chars {
        Ok(Extract::Chars(p))
    } else {
        Err(missing_mode_error())
    }
}

} // verus!
