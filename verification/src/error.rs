//! The error value every fallible operation of the library returns.
use vstd::prelude::*;

verus! {

/// A machine-readable `code` (such as `"stale_hunk_index"`) and a message for
/// people.
#[derive(Debug, Clone)]
pub struct TrunkError {
    pub code: String,
    pub message: String,
}

impl TrunkError {
    /// An error with the given code and message.
    pub fn new(code: &str, message: &str) -> (e: TrunkError)
        ensures
            e.code@ == code@,
            e.message@ == message@,
    {
        TrunkError { code: String::from_str(code), message: String::from_str(message) }
    }

    /// An error with the given code whose message is built from characters.
    pub fn from_chars(code: &str, message: &[char]) -> (e: TrunkError)
        ensures
            e.code@ == code@,
            e.message@ == message@,
    {
        TrunkError { code: String::from_str(code), message: crate::text::string_of(message) }
    }
}

} // verus!
