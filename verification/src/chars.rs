//! Character classification over Unicode scalar values.
//!
//! The lexer's rules are stated over three character classes: whitespace,
//! alphabetic and numeric. The classes themselves are given by the Unicode
//! character properties that `std` implements; here each class gets an
//! abstract name, and a thin executable query whose result is that name.

use vstd::prelude::*;

verus! {

/// Whether `c` has the Unicode `White_Space` property.
pub uninterp spec fn is_whitespace_char(c: char) -> bool;

/// Whether `c` has the Unicode `Alphabetic` property.
pub uninterp spec fn is_alphabetic_char(c: char) -> bool;

/// Whether `c` is numeric in the Unicode sense (`Nd`, `Nl` or `No`).
pub uninterp spec fn is_numeric_char(c: char) -> bool;

/// Relies on `char::is_whitespace`: whether the character has the Unicode
/// `White_Space` property, a function of the character alone.
#[verifier::external_body]
pub(crate) fn char_is_whitespace(c: char) -> (r: bool)
    ensures
        r == is_whitespace_char(c),
{
    c.is_whitespace()
}

/// Relies on `char::is_alphabetic`: whether the character has the Unicode
/// `Alphabetic` property, a function of the character alone.
#[verifier::external_body]
pub(crate) fn char_is_alphabetic(c: char) -> (r: bool)
    ensures
        r == is_alphabetic_char(c),
{
    c.is_alphabetic()
}

/// Relies on `char::is_numeric`: whether the character is in the Unicode
/// general categories `Nd`, `Nl` or `No`, a function of the character alone.
#[verifier::external_body]
pub(crate) fn char_is_numeric(c: char) -> (r: bool)
    ensures
        r == is_numeric_char(c),
{
    c.is_numeric()
}

} // verus!
