//! Character classes of the language, shared by the lexer and the
//! numeric routines, with executable classifiers proved against them.

use vstd::prelude::*;

verus! {

/// A character that may form an identifier: an ASCII letter.
pub open spec fn is_word_char(c: char) -> bool {
    ('a' <= c && c <= 'z') || ('A' <= c && c <= 'Z')
}

/// A decimal digit.
pub open spec fn is_digit_char(c: char) -> bool {
    '0' <= c && c <= '9'
}

/// A character the lexer skips as whitespace.
pub open spec fn is_space_char(c: char) -> bool {
    c == ' ' || c == '\t' || c == '\n' || c == '\r'
}

/// The numeric value of a decimal digit character.
pub open spec fn digit_of(c: char) -> int {
    (c as int) - ('0' as int)
}

/// The decimal digit character with the given value.
pub open spec fn digit_char(d: int) -> char {
    if d == 0 {
        '0'
    } else if d == 1 {
        '1'
    } else if d == 2 {
        '2'
    } else if d == 3 {
        '3'
    } else if d == 4 {
        '4'
    } else if d == 5 {
        '5'
    } else if d == 6 {
        '6'
    } else if d == 7 {
        '7'
    } else if d == 8 {
        '8'
    } else {
        '9'
    }
}

pub fn is_word(c: char) -> (r: bool)
    ensures
        r == is_word_char(c),
{
    ('a' <= c && c <= 'z') || ('A' <= c && c <= 'Z')
}

pub fn is_digit(c: char) -> (r: bool)
    ensures
        r == is_digit_char(c),
{
    '0' <= c && c <= '9'
}

/// The numeric value of a digit character, as an executable step.
pub fn digit_value(c: char) -> (d: u32)
    requires
        is_digit_char(c),
    ensures
        d == digit_of(c),
        d <= 9,
{
    (c as u32) - ('0' as u32)
}

} // verus!
