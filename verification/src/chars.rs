//! Conversions between strings and vectors of their characters. The rest of
//! the library does all of its text work on `Vec<char>`, whose contents Verus
//! can reason about directly; these two trusted conversions are the only
//! bridge.

use vstd::prelude::*;

verus! {

/// Relies on str::chars: it yields exactly the string's characters, in order.
#[verifier::external_body]
pub fn str_chars(s: &str) -> (r: Vec<char>)
    ensures
        r@ == s@,
{
    s.chars().collect()
}

/// Relies on String: it is a sequence of characters, and FromIterator builds
/// the string holding exactly the characters the iterator yields, in order.
#[verifier::external_body]
pub fn string_from_chars(v: &Vec<char>) -> (r: String)
    ensures
        r@ == v@,
{
    v.iter().collect()
}

} // verus!
