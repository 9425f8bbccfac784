//! Validators for display names and message texts.
//!
//! A name or a message is accepted when it is ASCII and its length lies
//! within a fixed bound; handlers reject anything else before mutating.

use vstd::prelude::*;
use vstd::string::StringSliceAdditionalSpecFns;

verus! {

/// A valid name: non-empty ASCII, at most 64 characters.
pub open spec fn valid_name_chars(s: Seq<char>) -> bool {
    vstd::utf8::is_ascii_chars(s) && 1 <= s.len() <= 64
}

/// A valid message text: non-empty ASCII, at most 1024 characters.
pub open spec fn valid_message_chars(s: Seq<char>) -> bool {
    vstd::utf8::is_ascii_chars(s) && 1 <= s.len() <= 1024
}

/// Decide whether a name passes the validator.
pub fn validate_name(s: &str) -> (r: bool)
    ensures
        r == valid_name_chars(s@),
{
    if !s.is_ascii() {
        return false;
    }
    let b = s.as_bytes();
    proof {
        broadcast use vstd::string::is_ascii_spec_bytes;

        assert(s.spec_bytes().len() == s@.len());
    }
    let n = b.len();
    1 <= n && n <= 64
}

/// Decide whether a message text passes the validator.
pub fn validate_message(s: &str) -> (r: bool)
    ensures
        r == valid_message_chars(s@),
{
    if !s.is_ascii() {
        return false;
    }
    let b = s.as_bytes();
    proof {
        broadcast use vstd::string::is_ascii_spec_bytes;

        assert(s.spec_bytes().len() == s@.len());
    }
    let n = b.len();
    1 <= n && n <= 1024
}

} // verus!
