//! Classes of characters.

use vstd::prelude::*;

verus! {

/// Whether a character denotes a newline.
pub open spec fn newline_char(c: char) -> bool {
    // Line Feed, Vertical Tab, Form Feed, Carriage Return.
    ||| '\x0A' <= c <= '\x0D'
    // Next Line, Line Separator, Paragraph Separator.
    ||| c == '\u{0085}' || c == '\u{2028}' || c == '\u{2029}'
}

/// Whether a character has the Unicode property `White_Space`.
pub open spec fn white_space(c: char) -> bool {
    ||| '\u{0009}' <= c <= '\u{000D}'
    ||| c == '\u{0020}' || c == '\u{0085}' || c == '\u{00A0}' || c == '\u{1680}'
    ||| '\u{2000}' <= c <= '\u{200A}'
    ||| c == '\u{2028}' || c == '\u{2029}' || c == '\u{202F}' || c == '\u{205F}'
    ||| c == '\u{3000}'
}

/// Whether a character is a decimal digit.
pub open spec fn digit(c: char) -> bool {
    '0' <= c <= '9'
}

/// Whether a character is a letter of ASCII.
pub open spec fn ascii_letter(c: char) -> bool {
    'a' <= c <= 'z' || 'A' <= c <= 'Z'
}

/// Whether a character is a hexadecimal digit.
pub open spec fn hex_digit(c: char) -> bool {
    digit(c) || 'a' <= c <= 'f' || 'A' <= c <= 'F'
}

/// Whether a character can begin the exponent of a number.
pub open spec fn exponent_char(c: char) -> bool {
    c == 'e' || c == 'E'
}

/// Whether a backslash in front of a character stands for that character.
pub open spec fn escapable(c: char) -> bool {
    ||| c == '[' || c == ']' || c == '\\' || c == '/' || c == '*'
    ||| c == '_' || c == '`' || c == '"' || c == '#' || c == '~'
}

/// Whether this character denotes a newline.
pub fn is_newline_char(character: char) -> (yes: bool)
    ensures
        yes == newline_char(character),
{
    match character {
        // Line Feed, Vertical Tab, Form Feed, Carriage Return.
        '\x0A'..='\x0D' => true,
        // Next Line, Line Separator, Paragraph Separator.
        '\u{0085}' | '\u{2028}' | '\u{2029}' => true,
        _ => false,
    }
}

/// Whether this character is white space, as `char::is_whitespace` has it.
pub fn is_white_space(c: char) -> (yes: bool)
    ensures
        yes == white_space(c),
{
    match c {
        '\u{0009}'..='\u{000D}' | '\u{2000}'..='\u{200A}' => true,
        '\u{0020}' | '\u{0085}' | '\u{00A0}' | '\u{1680}' => true,
        '\u{2028}' | '\u{2029}' | '\u{202F}' | '\u{205F}' | '\u{3000}' => true,
        _ => false,
    }
}

/// Whether this character is a decimal digit.
pub fn is_digit(c: char) -> (yes: bool)
    ensures
        yes == digit(c),
{
    '0' <= c && c <= '9'
}

/// Whether this character is a hexadecimal digit.
pub fn is_hex_digit(c: char) -> (yes: bool)
    ensures
        yes == hex_digit(c),
{
    is_digit(c) || ('a' <= c && c <= 'f') || ('A' <= c && c <= 'F')
}

/// Whether this character is a letter or a digit of ASCII.
pub fn is_alphanumeric(c: char) -> (yes: bool)
    ensures
        yes == (ascii_letter(c) || digit(c)),
{
    is_digit(c) || ('a' <= c && c <= 'z') || ('A' <= c && c <= 'Z')
}

/// Whether this character can begin the exponent of a number.
pub fn is_exponent_char(c: char) -> (yes: bool)
    ensures
        yes == exponent_char(c),
{
    c == 'e' || c == 'E'
}

/// Whether a backslash in front of this character stands for the character.
pub fn is_escapable(c: char) -> (yes: bool)
    ensures
        yes == escapable(c),
{
    match c {
        '[' | ']' | '\\' | '/' | '*' | '_' | '`' | '"' | '#' | '~' => true,
        _ => false,
    }
}

} // verus!
