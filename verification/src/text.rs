//! Conversions between owned strings and character vectors, so that the
//! verified text processing can work over `Vec<char>`.

use vstd::prelude::*;

verus! {

/// Relies on `str::chars` and `Iterator::collect`: the result holds exactly
/// the characters of the string, in order.
#[verifier::external_body]
pub fn string_to_chars(s: &str) -> (r: Vec<char>)
    ensures
        r@ == s@,
{
    s.chars().collect()
}

/// Relies on `String::from_iter` (through `Iterator::collect`): the result is
/// the string holding exactly the given characters, in order.
#[verifier::external_body]
pub fn chars_to_string(v: &Vec<char>) -> (r: String)
    ensures
        r@ == v@,
{
    v.iter().collect()
}

} // verus!
