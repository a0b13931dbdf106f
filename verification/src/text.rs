//! What this library relies on from the standard library's text functions
//! beyond what `vstd` specifies. Nothing in this file is proved.
use vstd::prelude::*;

verus! {

/// Whether a character is white space, as `char::is_whitespace` tells it:
/// whether it has the Unicode property `White_Space`.
pub uninterp spec fn white_space(c: char) -> bool;

/// `char::is_whitespace` is a function of the character alone.
pub assume_specification[ char::is_whitespace ](c: char) -> (r: bool)
    ensures
        r == white_space(c),
;

/// `String::push` appends the character to the end of the string.
pub assume_specification[ String::push ](s: &mut String, ch: char)
    ensures
        final(s)@ == old(s)@.push(ch),
;

} // verus!
