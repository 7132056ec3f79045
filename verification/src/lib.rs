//! Window registry: tracks identity, stacking order, and focus state for a
//! dynamic set of application windows, with pure helpers for focus cycling,
//! snap geometry, and a byte-level save/restore of the whole layout.
use vstd::prelude::*;

pub mod geometry;
pub mod registry;
pub mod cycle;
pub mod restore;
pub mod monitor;
pub mod codec;

verus! {

/// Appends one character to a string.
///
/// Relies on `String::push`, which the standard library documents as
/// appending the given `char` to the end of the `String`.
#[verifier::external_body]
pub fn push_char(s: &mut String, c: char)
    ensures
        final(s)@ == old(s)@.push(c),
{
    s.push(c);
}

/// Converts a code point to a character, if it is a Unicode scalar value.
///
/// Relies on `char::from_u32`, which the standard library documents as
/// returning `Some` exactly when the argument is a valid Unicode scalar
/// value (not a surrogate and at most 0x10FFFF), carrying that code point.
#[verifier::external_body]
pub fn char_from_u32(u: u32) -> (r: Option<char>)
    ensures
        r is Some <==> vstd::utf8::is_scalar(u),
        r is Some ==> r->0 as u32 == u,
{
    char::from_u32(u)
}

} // verus!
