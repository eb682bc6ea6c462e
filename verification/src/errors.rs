//! The library's parse error: a message describing what failed.

use vstd::prelude::*;
use vstd::string::StringExecFns;

verus! {

/// An article or configuration source could not be parsed.
#[derive(Debug, Clone)]
pub struct ParseError {
    pub cause: String,
}

impl ParseError {
    /// An error with the given cause text.
    pub fn new(cause: String) -> (r: ParseError)
        ensures
            r.cause == cause,
    {
        ParseError { cause }
    }

    /// The error rendered as text.
    pub fn message(&self) -> (r: String)
        ensures
            r@ == "ParseError: "@ + self.cause@,
    {
        let mut m: String = String::new();
        m.append("ParseError: ");
        m.append(self.cause.as_str());
        m
    }
}

/// Wrap a plain message, marked as a parse error.
pub fn parse_error_from_message(msg: &str) -> (r: ParseError)
    ensures
        r.cause@ == "ParseError: "@ + msg@,
{
    let mut cause: String = String::new();
    cause.append("ParseError: ");
    cause.append(msg);
    ParseError { cause }
}

} // verus!
