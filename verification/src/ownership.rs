//! Small verified functions that pass owned values in and out unchanged.

use vstd::prelude::*;
use vstd::string::StrSliceExecFns;
use vstd::string::StringExecFns;

verus! {

/// Produce a fresh owned string for the caller.
pub fn gives_ownership() -> (s: String)
    ensures
        s@ == "yours"@,
{
    String::from_str("yours")
}

/// Take ownership of a string and hand the same value back.
pub fn takes_and_gives_back(a_string: String) -> (s: String)
    ensures
        s == a_string,
{
    a_string
}

/// Measure a string and return it together with its length, so the caller
/// keeps ownership.
pub fn calculate_length(s: String) -> (r: (String, usize))
    ensures
        r.0 == s,
        r.1 == s@.len(),
{
    let length = s.as_str().unicode_len();
    (s, length)
}

/// Move a value through a function unchanged.
pub fn transfer(s: String) -> (r: String)
    ensures
        r == s,
{
    s
}

} // verus!
