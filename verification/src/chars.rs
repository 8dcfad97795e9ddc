//! Per-character classification and lowering.
//!
//! ASCII punctuation is a fixed table and is implemented and verified here.
//! Unicode-aware lowering and the Unicode `White_Space` property come from
//! std; their behaviour on ASCII is the documented table, and their behaviour
//! beyond ASCII is carried by named spec functions.

use vstd::prelude::*;

verus! {

/// Whether `c` is an ASCII punctuation character: one of the four ranges
/// `!..=/`, `:..=@`, `[..=`` ` ``, `{..=~`.
pub open spec fn is_ascii_punct(c: char) -> bool {
    let u = c as u32;
    (0x21 <= u && u <= 0x2f) || (0x3a <= u && u <= 0x40) || (0x5b <= u && u <= 0x60) || (0x7b <= u
        && u <= 0x7e)
}

/// Decides ASCII punctuation by the four documented ranges.
pub fn ascii_punct(c: char) -> (r: bool)
    ensures
        r == is_ascii_punct(c),
{
    let u = c as u32;
    (0x21 <= u && u <= 0x2f) || (0x3a <= u && u <= 0x40) || (0x5b <= u && u <= 0x60) || (0x7b <= u
        && u <= 0x7e)
}

/// The Unicode `White_Space` property outside ASCII: named, not stated.
pub uninterp spec fn is_white_ext(c: char) -> bool;

/// Whether `c` has the Unicode `White_Space` property. Within ASCII this is
/// the documented table: space and the five control characters U+0009..U+000D.
pub open spec fn is_white(c: char) -> bool {
    let u = c as u32;
    if u <= 127 {
        u == 0x20 || (0x09 <= u && u <= 0x0d)
    } else {
        is_white_ext(c)
    }
}

/// Relies on char::is_whitespace: true exactly on characters with the Unicode
/// `White_Space` property, which within ASCII is space and U+0009..U+000D.
#[verifier::external_body]
pub fn white_char(c: char) -> (r: bool)
    ensures
        r == is_white(c),
        (c as u32) > 127 ==> r == is_white_ext(c),
{
    c.is_whitespace()
}

/// The first character of the Unicode lowercase mapping, outside ASCII:
/// named, not stated.
pub uninterp spec fn lower_first_ext(c: char) -> char;

/// The first character that lowercasing `c` produces (or `c` itself when the
/// mapping is empty). Within ASCII this is the documented table: `A..=Z` map
/// to `a..=z` and every other ASCII character is unchanged.
pub open spec fn lower_first_of(c: char) -> char {
    let u = c as u32;
    if 0x41 <= u && u <= 0x5a {
        ((u + 0x20) as char)
    } else if u <= 127 {
        c
    } else {
        lower_first_ext(c)
    }
}

/// Relies on char::to_lowercase: yields the Unicode lowercase mapping of `c`,
/// or `c` itself when there is none; the mapping depends on the character
/// alone, and on ASCII it is the table `A..=Z` -> `a..=z`.
#[verifier::external_body]
pub fn lower_first(c: char) -> (r: char)
    ensures
        r == lower_first_of(c),
        (c as u32) > 127 ==> r == lower_first_ext(c),
{
    c.to_lowercase().next().unwrap_or(c)
}

} // verus!
