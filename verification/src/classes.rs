//! Unicode scalar classes that drive the tokenizer's dispatch.
//!
//! The tokenizer classifies a token by the general category of its first
//! scalar: letter, number, symbol, punctuation, or whitespace. The category
//! tables are far too large to restate, so each class is named by an
//! uninterpreted spec function, and a trusted wrapper ties the name to the
//! function that consults the tables.

use unicode_categories::UnicodeCategories;
use vstd::prelude::*;

verus! {

/// Membership of a scalar in the Unicode letter categories (L).
pub uninterp spec fn letter(c: char) -> bool;

/// Membership of a scalar in the Unicode number categories (N).
pub uninterp spec fn number(c: char) -> bool;

/// Membership of a scalar in the Unicode symbol categories (S).
pub uninterp spec fn symbol(c: char) -> bool;

/// Membership of a scalar in the Unicode punctuation categories (P).
pub uninterp spec fn punctuation(c: char) -> bool;

/// Membership of a scalar in the whitespace class.
pub uninterp spec fn whitespace(c: char) -> bool;

/// Relies on `unicode_categories::UnicodeCategories::is_letter`: membership in
/// the L categories, a function of the scalar alone.
#[verifier::external_body]
pub(crate) fn is_letter_char(c: char) -> (r: bool)
    ensures
        r == letter(c),
{
    c.is_letter()
}

/// Relies on `unicode_categories::UnicodeCategories::is_number`: membership in
/// the N categories, a function of the scalar alone.
#[verifier::external_body]
pub(crate) fn is_number_char(c: char) -> (r: bool)
    ensures
        r == number(c),
{
    c.is_number()
}

/// Relies on `unicode_categories::UnicodeCategories::is_symbol`: membership in
/// the S categories, a function of the scalar alone.
#[verifier::external_body]
pub(crate) fn is_symbol_char(c: char) -> (r: bool)
    ensures
        r == symbol(c),
{
    c.is_symbol()
}

/// Relies on `unicode_categories::UnicodeCategories::is_punctuation`:
/// membership in the P categories, a function of the scalar alone.
#[verifier::external_body]
pub(crate) fn is_punctuation_char(c: char) -> (r: bool)
    ensures
        r == punctuation(c),
{
    c.is_punctuation()
}

/// Relies on `char::is_whitespace`: membership in the whitespace class
/// (the White_Space property), a function of the scalar alone.
#[verifier::external_body]
pub(crate) fn is_whitespace_char(c: char) -> (r: bool)
    ensures
        r == whitespace(c),
{
    c.is_whitespace()
}

} // verus!
