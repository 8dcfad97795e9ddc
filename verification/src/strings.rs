//! Conversions between `String`/`str` and vectors of characters, one for one.

use vstd::prelude::*;

verus! {

/// Relies on str::chars: yields exactly the characters of the string, in
/// order.
#[verifier::external_body]
pub fn str_chars(s: &str) -> (r: Vec<char>)
    ensures
        r@ == s@,
{
    s.chars().collect()
}

/// Relies on String's FromIterator over char: builds the string holding
/// exactly the given characters, in order.
#[verifier::external_body]
pub fn chars_to_string(v: &Vec<char>) -> (r: String)
    ensures
        r@ == v@,
{
    v.iter().collect()
}

} // verus!
