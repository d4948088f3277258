//! Names for the Unicode character classes that the scanners consult.
//!
//! The classifier and the generic-bracket heuristic ask whether a character
//! is alphanumeric, alphabetic, uppercase or whitespace in the Unicode sense.
//! Those classes are tables of the standard library; each is a pure function
//! of the character alone, so it is given a name here and the corresponding
//! `char` method is called behind it.

use vstd::prelude::*;

verus! {

pub uninterp spec fn unicode_alphanumeric(c: char) -> bool;

pub uninterp spec fn unicode_alphabetic(c: char) -> bool;

pub uninterp spec fn unicode_uppercase(c: char) -> bool;

pub uninterp spec fn unicode_whitespace(c: char) -> bool;

/// Relies on char::is_alphanumeric: whether `c` is a Unicode letter or digit,
/// a function of the character alone.
#[verifier::external_body]
pub(crate) fn char_alphanumeric(c: char) -> (r: bool)
    ensures
        r == unicode_alphanumeric(c),
{
    c.is_alphanumeric()
}

/// Relies on char::is_alphabetic: whether `c` is a Unicode letter, a function
/// of the character alone.
#[verifier::external_body]
pub(crate) fn char_alphabetic(c: char) -> (r: bool)
    ensures
        r == unicode_alphabetic(c),
{
    c.is_alphabetic()
}

/// Relies on char::is_uppercase: whether `c` is an uppercase letter, a
/// function of the character alone.
#[verifier::external_body]
pub(crate) fn char_uppercase(c: char) -> (r: bool)
    ensures
        r == unicode_uppercase(c),
{
    c.is_uppercase()
}

/// Relies on char::is_whitespace: whether `c` is Unicode whitespace, a
/// function of the character alone.
#[verifier::external_body]
pub(crate) fn char_whitespace(c: char) -> (r: bool)
    ensures
        r == unicode_whitespace(c),
{
    c.is_whitespace()
}

/// A character that may appear in a bare identifier or number: a Unicode
/// letter or digit, or an underscore.
pub open spec fn word_char(c: char) -> bool {
    unicode_alphanumeric(c) || c == '_'
}

pub(crate) fn is_word_char(c: char) -> (r: bool)
    ensures
        r == word_char(c),
{
    char_alphanumeric(c) || c == '_'
}

} // verus!
