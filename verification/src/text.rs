//! Building owned strings from verified character sequences.

use vstd::prelude::*;

verus! {

/// Relies on std's `FromIterator` impl for `String`: collecting the
/// characters of a vector yields the string of exactly those characters.
#[verifier::external_body]
pub(crate) fn chars_to_string(v: &Vec<char>) -> (r: String)
    ensures
        r@ == v@,
{
    v.iter().collect()
}

} // verus!
