//! Configuration errors. Every message echoes the offending input verbatim.
use vstd::prelude::*;
use vstd::string::StringExecFns;
use crate::digits::dec_rep;
use crate::text::chars_to_string;
use crate::digits::push_dec_chars;

verus! {

/// A fatal configuration error: bad range syntax, bad delimiter, or a
/// missing or conflicting selection mode. Its view is its message.
#[derive(Debug)]
pub struct ConfigError {
    msg: String,
}

impl View for ConfigError {
    type V = Seq<char>;

    closed spec fn view(&self) -> Seq<char> {
        self.msg@
    }
}

impl ConfigError {
    /// The message, echoing the offending input.
    pub fn to_string(&self) -> (s: String)
        ensures
            s@ == self@,
    {
        self.msg.clone()
    }

    /// An error whose message is exactly `msg`.
    pub fn new(msg: String) -> (e: ConfigError)
        ensures
            e@ == msg@,
    {
        ConfigError { msg }
    }
}

/// The message that rejects one list token.
pub open spec fn illegal_msg(tok: Seq<char>) -> Seq<char> {
    "illegal list value: \""@ + tok + "\""@
}

/// The message that rejects a range whose first number is not lower
/// than its second, both written 1-based as the user gave them.
pub open spec fn order_msg(first: nat, second: nat) -> Seq<char> {
    "First number in range ("@ + dec_rep(first) + ") must be lower than second number ("@
        + dec_rep(second) + ")"@
}

/// The message that rejects a delimiter that is not one byte.
pub open spec fn delim_msg(delim: Seq<char>) -> Seq<char> {
    "--delim \""@ + delim + "\" must be a single byte"@
}

pub fn illegal_value_error(tok: &str) -> (e: ConfigError)
    ensures
        e@ == illegal_msg(tok@),
{
    let m = String::from_str("illegal list value: \"").concat(tok).concat("\"");
    ConfigError { msg: m }
}

pub fn range_order_error(first: usize, second: usize) -> (e: ConfigError)
    ensures
        e@ == order_msg(first as nat, second as nat),
{
    let mut first_chars: Vec<char> = Vec::new();
    push_dec_chars(first, &mut first_chars);
    let mut second_chars: Vec<char> = Vec::new();
    push_dec_chars(second, &mut second_chars);
    let m = String::from_str("First number in range (")
        .concat(chars_to_string(&first_chars).as_str())
        .concat(") must be lower than second number (")
        .concat(chars_to_string(&second_chars).as_str())
        .concat(")");
    ConfigError { msg: m }
}

pub fn delimiter_error(delim: &str) -> (e: ConfigError)
    ensures
        e@ == delim_msg(delim@),
{
    let m = String::from_str("--delim \"").concat(delim).concat("\" must be a single byte");
    ConfigError { msg: m }
}

pub fn missing_mode_error() -> (e: ConfigError)
    ensures
        e@ == "Must have --fields, --bytes, or --chars"@,
{
    ConfigError { msg: String::from_str("Must have --fields, --bytes, or --chars") }
}

} // verus!
