//! The character classes from which the tokens of a snapshot are drawn.
//!
//! Within ASCII each class is spelled out here. Outside ASCII the classes follow
//! Unicode, through three methods of `char` whose answers are given names and taken on
//! trust.

use vstd::prelude::*;

verus! {

/// Whether `c` has the Unicode property `White_Space`, as `char::is_whitespace` reports it.
pub uninterp spec fn unicode_whitespace(c: char) -> bool;

/// Whether `c` is a Unicode number (general categories `Nd`, `Nl`, `No`), as
/// `char::is_numeric` reports it.
pub uninterp spec fn unicode_numeric(c: char) -> bool;

/// Whether `c` is a Unicode letter or number, as `char::is_alphanumeric` reports it.
pub uninterp spec fn unicode_alphanumeric(c: char) -> bool;

/// `char::is_whitespace` depends on the character alone; its answer is [`unicode_whitespace`].
pub assume_specification[ char::is_whitespace ](c: char) -> (r: bool)
    ensures
        r == unicode_whitespace(c),
;

/// `char::is_numeric` depends on the character alone; its answer is [`unicode_numeric`].
pub assume_specification[ char::is_numeric ](c: char) -> (r: bool)
    ensures
        r == unicode_numeric(c),
;

/// `char::is_alphanumeric` depends on the character alone; its answer is
/// [`unicode_alphanumeric`].
pub assume_specification[ char::is_alphanumeric ](c: char) -> (r: bool)
    ensures
        r == unicode_alphanumeric(c),
;

/// Whether `c` is one of the ASCII letters.
pub open spec fn ascii_letter(c: char) -> bool {
    ('a' <= c && c <= 'z') || ('A' <= c && c <= 'Z')
}

/// Whether `c` is one of the ASCII digits.
pub open spec fn ascii_digit(c: char) -> bool {
    '0' <= c && c <= '9'
}

/// Whether `c` is ASCII whitespace: space, tab, line feed, vertical tab, form feed or
/// carriage return.
pub open spec fn ascii_whitespace(c: char) -> bool {
    c == ' ' || ('\t' <= c && c <= '\r')
}

/// Whether `c` lies outside ASCII.
pub open spec fn beyond_ascii(c: char) -> bool {
    c > '\x7f'
}

/// Whether `c` is whitespace: ASCII whitespace, or a character outside ASCII that
/// Unicode counts as whitespace.
pub open spec fn whitespace(c: char) -> bool {
    ascii_whitespace(c) || (beyond_ascii(c) && unicode_whitespace(c))
}

/// Whether `c` is a digit: an ASCII digit, or a character outside ASCII that Unicode
/// counts as a number.
pub open spec fn digit(c: char) -> bool {
    ascii_digit(c) || (beyond_ascii(c) && unicode_numeric(c))
}

/// Whether `c` is a letter or a digit: an ASCII letter or digit, or a character outside
/// ASCII that Unicode counts as a letter or a number.
pub open spec fn letter_or_digit(c: char) -> bool {
    ascii_letter(c) || ascii_digit(c) || (beyond_ascii(c) && unicode_alphanumeric(c))
}

/// A set of characters that a token or a gap between tokens is made of.
#[derive(Clone, Copy, Debug, PartialEq, Eq)]
pub enum CharClass {
    /// Anything but whitespace: the characters of a distribution's name.
    Name,
    /// Letters, digits, `:` and `_`: the characters of a property's key.
    Key,
    /// Digits and `v . _ , = ! < >`: the characters of a version expression.
    Version,
    /// The space character alone.
    Space,
    /// Space and tab.
    Blank,
}

/// Tests whether `c` is whitespace.
pub fn is_whitespace(c: char) -> (r: bool)
    ensures
        r == whitespace(c),
{
    c == ' ' || ('\t' <= c && c <= '\r') || (c > '\x7f' && c.is_whitespace())
}

/// Tests whether `c` is a digit.
pub fn is_digit(c: char) -> (r: bool)
    ensures
        r == digit(c),
{
    ('0' <= c && c <= '9') || (c > '\x7f' && c.is_numeric())
}

/// Tests whether `c` is a letter or a digit.
pub fn is_letter_or_digit(c: char) -> (r: bool)
    ensures
        r == letter_or_digit(c),
{
    ('a' <= c && c <= 'z') || ('A' <= c && c <= 'Z') || ('0' <= c && c <= '9') || (c > '\x7f'
        && c.is_alphanumeric())
}

impl CharClass {
    /// Whether `c` belongs to the class.
    pub open spec fn holds(self, c: char) -> bool {
        match self {
            CharClass::Name => !whitespace(c),
            CharClass::Key => letter_or_digit(c) || c == ':' || c == '_',
            CharClass::Version => digit(c) || c == 'v' || c == '.' || c == '_' || c == ','
                || c == '=' || c == '!' || c == '<' || c == '>',
            CharClass::Space => c == ' ',
            CharClass::Blank => c == ' ' || c == '\t',
        }
    }

    /// Tests whether `c` belongs to the class.
    pub fn contains(self, c: char) -> (r: bool)
        ensures
            r == self.holds(c),
    {
        match self {
            CharClass::Name => !is_whitespace(c),
            CharClass::Key => is_letter_or_digit(c) || c == ':' || c == '_',
            CharClass::Version => is_digit(c) || c == 'v' || c == '.' || c == '_' || c == ','
                || c == '=' || c == '!' || c == '<' || c == '>',
            CharClass::Space => c == ' ',
            CharClass::Blank => c == ' ' || c == '\t',
        }
    }
}

} // verus!
