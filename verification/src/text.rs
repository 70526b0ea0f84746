//! Character classification and small string-building helpers used by the
//! lexer, the pretty-printer and the string built-ins.

use std::rc::Rc;
use vstd::prelude::*;
use vstd::string::*;

verus! {

/// Whether `c` has the Unicode `Alphabetic` property, as decided by
/// `char::is_alphabetic`.
pub uninterp spec fn char_alphabetic(c: char) -> bool;

/// Whether `c` has the Unicode `Numeric` property, as decided by
/// `char::is_numeric`.
pub uninterp spec fn char_numeric(c: char) -> bool;

/// Whether `c` is uppercase, as decided by `char::is_uppercase`.
pub uninterp spec fn char_uppercase(c: char) -> bool;

/// Whether `c` is lowercase, as decided by `char::is_lowercase`.
pub uninterp spec fn char_lowercase(c: char) -> bool;

/// Relies on char::is_alphabetic: a pure table lookup of the Unicode
/// `Alphabetic` property. Within ASCII, exactly the letters are
/// alphabetic.
#[verifier::external_body]
pub fn is_alphabetic_char(c: char) -> (r: bool)
    ensures
        r == char_alphabetic(c),
        ('a' <= c && c <= 'z') || ('A' <= c && c <= 'Z') ==> r,
        c < 128 && !('a' <= c && c <= 'z') && !('A' <= c && c <= 'Z') ==> !r,
{
    c.is_alphabetic()
}

/// Relies on char::is_numeric: a pure table lookup of the Unicode
/// `Numeric` property. Within ASCII, exactly the decimal digits are
/// numeric.
#[verifier::external_body]
pub fn is_numeric_char(c: char) -> (r: bool)
    ensures
        r == char_numeric(c),
        '0' <= c && c <= '9' ==> r,
        c < 128 && !('0' <= c && c <= '9') ==> !r,
{
    c.is_numeric()
}

/// Relies on char::is_alphanumeric, which its documentation defines as
/// `is_alphabetic() || is_numeric()`.
#[verifier::external_body]
pub fn is_alphanumeric_char(c: char) -> (r: bool)
    ensures
        r == (char_alphabetic(c) || char_numeric(c)),
{
    c.is_alphanumeric()
}

/// Relies on char::is_uppercase: a pure table lookup of the Unicode
/// `Uppercase` property.
#[verifier::external_body]
pub fn is_uppercase_char(c: char) -> (r: bool)
    ensures
        r == char_uppercase(c),
{
    c.is_uppercase()
}

/// Relies on char::is_lowercase: a pure table lookup of the Unicode
/// `Lowercase` property.
#[verifier::external_body]
pub fn is_lowercase_char(c: char) -> (r: bool)
    ensures
        r == char_lowercase(c),
{
    c.is_lowercase()
}

/// Whether `c` has the Unicode `White_Space` property. The property holds
/// of exactly these twenty-five characters.
pub open spec fn spec_whitespace(c: char) -> bool {
    c == ' ' || c == '\t' || c == '\n' || c == '\r' || c == '\u{b}' || c == '\u{c}'
        || c == '\u{85}' || c == '\u{a0}' || c == '\u{1680}' || c == '\u{2000}' || c == '\u{2001}'
        || c == '\u{2002}' || c == '\u{2003}' || c == '\u{2004}' || c == '\u{2005}'
        || c == '\u{2006}' || c == '\u{2007}' || c == '\u{2008}' || c == '\u{2009}'
        || c == '\u{200a}' || c == '\u{2028}' || c == '\u{2029}' || c == '\u{202f}'
        || c == '\u{205f}' || c == '\u{3000}'
}

/// Decides the Unicode `White_Space` property.
pub fn is_whitespace_char(c: char) -> (r: bool)
    ensures
        r == spec_whitespace(c),
{
    c == ' ' || c == '\t' || c == '\n' || c == '\r' || c == '\u{b}' || c == '\u{c}'
        || c == '\u{85}' || c == '\u{a0}' || c == '\u{1680}' || c == '\u{2000}' || c == '\u{2001}'
        || c == '\u{2002}' || c == '\u{2003}' || c == '\u{2004}' || c == '\u{2005}'
        || c == '\u{2006}' || c == '\u{2007}' || c == '\u{2008}' || c == '\u{2009}'
        || c == '\u{200a}' || c == '\u{2028}' || c == '\u{2029}' || c == '\u{202f}'
        || c == '\u{205f}' || c == '\u{3000}'
}

/// Whether `c` is an ASCII punctuation character.
pub open spec fn spec_ascii_punctuation(c: char) -> bool {
    ('!' <= c && c <= '/') || (':' <= c && c <= '@') || ('[' <= c && c <= '`') || ('{' <= c && c
        <= '~')
}

/// Decides ASCII punctuation: the four runs `!`..=`/`, `:`..=`@`,
/// `[`..=`` ` `` and `{`..=`~`.
pub fn is_ascii_punctuation_char(c: char) -> (r: bool)
    ensures
        r == spec_ascii_punctuation(c),
{
    ('!' <= c && c <= '/') || (':' <= c && c <= '@') || ('[' <= c && c <= '`') || ('{' <= c && c
        <= '~')
}

/// Whether two strings hold the same characters.
pub fn str_eq(a: &str, b: &str) -> (r: bool)
    ensures
        r == (a@ == b@),
{
    let sa = String::from_str(a);
    let sb = String::from_str(b);
    sa == sb
}

/// Relies on Rc::clone: returns a new handle to the same allocation,
/// so the two handles carry the same value.
#[verifier::external_body]
pub fn rc_clone<T>(rc: &Rc<T>) -> (r: Rc<T>)
    ensures
        r == *rc,
{
    Rc::clone(rc)
}

/// Relies on String::push: appends one character at the end.
#[verifier::external_body]
pub fn push_char(s: &mut String, c: char)
    ensures
        final(s)@ == old(s)@.push(c),
{
    s.push(c)
}

} // verus!
