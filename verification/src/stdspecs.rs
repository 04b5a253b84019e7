//! Contracts of standard-library functions that vstd leaves unspecified.
use vstd::prelude::*;

verus! {

/// `String::push` appends one character, as its documentation states.
pub assume_specification[ String::push ](s: &mut String, ch: char)
    ensures
        final(s)@ == old(s)@.push(ch),
;

} // verus!
