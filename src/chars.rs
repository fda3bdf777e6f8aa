//! The character classes of the source and assembly grammars: whitespace and
//! word characters, both in the Unicode sense. An ASCII character is classified
//! here; any other one by the outside definitions of the two classes.
use vstd::prelude::*;

verus! {

/// Whether `c` is a Unicode word character: `Alphabetic`, `Join_Control`, or in
/// `Decimal_Number`, `Mark` or `Connector_Punctuation`.
pub uninterp spec fn unicode_word(c: char) -> bool;

/// Whether `c` has the Unicode `White_Space` property.
pub uninterp spec fn unicode_space(c: char) -> bool;

/// Relies on `regex_syntax::is_word_character`, the class of `\w`: whether `c` is
/// a Unicode word character. It panics only without the crate's default
/// `unicode-perl` feature, which this crate keeps.
#[verifier::external_body]
fn word_character(c: char) -> (r: bool)
    ensures
        r == unicode_word(c),
{
    regex_syntax::is_word_character(c)
}

/// Relies on `char::is_whitespace`, the class of `\s`: whether `c` has the
/// Unicode `White_Space` property.
#[verifier::external_body]
fn white_space(c: char) -> (r: bool)
    ensures
        r == unicode_space(c),
{
    c.is_whitespace()
}

pub open spec fn is_ascii_char(c: char) -> bool {
    (c as u32) < 0x80
}

/// A word character: in ASCII one of `[_0-9a-zA-Z]`, beyond it a Unicode word
/// character.
pub open spec fn is_word_char(c: char) -> bool {
    if is_ascii_char(c) {
        ('a' <= c <= 'z') || ('A' <= c <= 'Z') || ('0' <= c <= '9') || c == '_'
    } else {
        unicode_word(c)
    }
}

/// Whitespace: in ASCII a space, tab, line feed, vertical tab, form feed or
/// carriage return, beyond it a character with the `White_Space` property.
pub open spec fn is_white(c: char) -> bool {
    if is_ascii_char(c) {
        c == ' ' || c == '\t' || c == '\n' || c == '\x0b' || c == '\x0c' || c == '\r'
    } else {
        unicode_space(c)
    }
}

pub fn word_char(c: char) -> (r: bool)
    ensures
        r == is_word_char(c),
{
    if (c as u32) < 0x80 {
        ('a' <= c && c <= 'z') || ('A' <= c && c <= 'Z') || ('0' <= c && c <= '9') || c == '_'
    } else {
        word_character(c)
    }
}

pub fn white_char(c: char) -> (r: bool)
    ensures
        r == is_white(c),
{
    if (c as u32) < 0x80 {
        c == ' ' || c == '\t' || c == '\n' || c == '\x0b' || c == '\x0c' || c == '\r'
    } else {
        white_space(c)
    }
}

} // verus!
