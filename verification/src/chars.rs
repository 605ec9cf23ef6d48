//! Byte classes of the scanner.

use vstd::prelude::*;

verus! {

pub const SPACE: u8 = 0x20;
pub const NEWLINE: u8 = 0x0a;
pub const CARRIAGE_RETURN: u8 = 0x0d;
pub const HORIZONTAL_TAB: u8 = 0x09;
pub const ALERT_BEEP: u8 = 0x07;
pub const BACKSPACE: u8 = 0x08;
pub const VERTICAL_TAB: u8 = 0x0b;
pub const FORM_FEED: u8 = 0x0c;
pub const LEFT_BRACKET: u8 = 0x5b;
pub const RIGHT_BRACKET: u8 = 0x5d;
pub const LEFT_BRACE: u8 = 0x7b;
pub const RIGHT_BRACE: u8 = 0x7d;
pub const LEFT_PAREN: u8 = 0x28;
pub const RIGHT_PAREN: u8 = 0x29;
pub const EQUALS: u8 = 0x3d;
pub const LESS_THAN: u8 = 0x3c;
pub const GREATER_THAN: u8 = 0x3e;
pub const FORWARD_SLASH: u8 = 0x2f;
pub const BACKSLASH: u8 = 0x5c;
pub const TILDE: u8 = 0x7e;
pub const COLON: u8 = 0x3a;
pub const SEMICOLON: u8 = 0x3b;
pub const COMMA: u8 = 0x2c;
pub const DOUBLE_QUOTE: u8 = 0x22;
pub const SINGLE_QUOTE: u8 = 0x27;
pub const PERIOD: u8 = 0x2e;
pub const PLUS: u8 = 0x2b;
pub const MINUS: u8 = 0x2d;
pub const ASTERISK: u8 = 0x2a;
pub const CARET: u8 = 0x5e;
pub const PERCENT: u8 = 0x25;
pub const AMPERSAND: u8 = 0x26;
pub const OCTOTHORPE: u8 = 0x23;
pub const PIPE: u8 = 0x7c;
pub const UNDERSCORE: u8 = 0x5f;
pub const LOWER_A: u8 = 0x61;
pub const LOWER_B: u8 = 0x62;
pub const LOWER_E: u8 = 0x65;
pub const LOWER_F: u8 = 0x66;
pub const LOWER_N: u8 = 0x6e;
pub const LOWER_P: u8 = 0x70;
pub const LOWER_R: u8 = 0x72;
pub const LOWER_T: u8 = 0x74;
pub const LOWER_U: u8 = 0x75;
pub const LOWER_V: u8 = 0x76;
pub const LOWER_X: u8 = 0x78;
pub const LOWER_Z: u8 = 0x7a;
pub const UPPER_A: u8 = 0x41;
pub const UPPER_E: u8 = 0x45;
pub const UPPER_F: u8 = 0x46;
pub const UPPER_P: u8 = 0x50;
pub const UPPER_X: u8 = 0x58;
pub const UPPER_Z: u8 = 0x5a;
pub const NUM_0: u8 = 0x30;
pub const NUM_9: u8 = 0x39;

/// A line feed or a carriage return.
#[verifier::when_used_as_spec(spec_is_newline)]
pub fn is_newline(c: u8) -> (r: bool)
    ensures
        r == spec_is_newline(c),
{
    c == NEWLINE || c == CARRIAGE_RETURN
}

/// A line feed or a carriage return.
pub open spec fn spec_is_newline(c: u8) -> bool {
    c == NEWLINE || c == CARRIAGE_RETURN
}

/// Space, horizontal tab, vertical tab, form feed, or a newline byte.
#[verifier::when_used_as_spec(spec_is_space)]
pub fn is_space(c: u8) -> (r: bool)
    ensures
        r == spec_is_space(c),
{
    c == SPACE || c == HORIZONTAL_TAB || c == VERTICAL_TAB || c == FORM_FEED || is_newline(c)
}

/// Space, horizontal tab, vertical tab, form feed, or a newline byte.
pub open spec fn spec_is_space(c: u8) -> bool {
    c == SPACE || c == HORIZONTAL_TAB || c == VERTICAL_TAB || c == FORM_FEED || spec_is_newline(c)
}

/// A letter that may start a name: `A`-`Z`, `a`-`z`, or `_`.
#[verifier::when_used_as_spec(spec_is_alpha)]
pub fn is_alpha(c: u8) -> (r: bool)
    ensures
        r == spec_is_alpha(c),
{
    (c >= LOWER_A && c <= LOWER_Z) || (c >= UPPER_A && c <= UPPER_Z) || c == UNDERSCORE
}

/// A letter that may start a name: `A`-`Z`, `a`-`z`, or `_`.
pub open spec fn spec_is_alpha(c: u8) -> bool {
    (LOWER_A <= c <= LOWER_Z) || (UPPER_A <= c <= UPPER_Z) || c == UNDERSCORE
}

/// The value of a decimal digit, or `None` for any other byte.
#[verifier::when_used_as_spec(spec_from_digit)]
pub fn from_digit(c: u8) -> (r: Option<u8>)
    ensures
        r == spec_from_digit(c),
{
    if c >= NUM_0 && c <= NUM_9 {
        Some(c - NUM_0)
    } else {
        None
    }
}

/// The value of a decimal digit, or `None` for any other byte.
pub open spec fn spec_from_digit(c: u8) -> Option<u8> {
    if NUM_0 <= c <= NUM_9 {
        Some((c - NUM_0) as u8)
    } else {
        None
    }
}

/// A decimal digit.
#[verifier::when_used_as_spec(spec_is_digit)]
pub fn is_digit(c: u8) -> (r: bool)
    ensures
        r == spec_is_digit(c),
{
    from_digit(c).is_some()
}

/// A decimal digit.
pub open spec fn spec_is_digit(c: u8) -> bool {
    NUM_0 <= c <= NUM_9
}

/// The value of a hexadecimal digit in either case, or `None` for any other byte.
#[verifier::when_used_as_spec(spec_from_hex_digit)]
pub fn from_hex_digit(c: u8) -> (r: Option<u8>)
    ensures
        r == spec_from_hex_digit(c),
{
    if c >= NUM_0 && c <= NUM_9 {
        Some(c - NUM_0)
    } else if c >= LOWER_A && c <= LOWER_F {
        Some(10 + (c - LOWER_A))
    } else if c >= UPPER_A && c <= UPPER_F {
        Some(10 + (c - UPPER_A))
    } else {
        None
    }
}

/// The value of a hexadecimal digit in either case, or `None` for any other
/// byte.
pub open spec fn spec_from_hex_digit(c: u8) -> Option<u8> {
    if NUM_0 <= c <= NUM_9 {
        Some((c - NUM_0) as u8)
    } else if LOWER_A <= c <= LOWER_F {
        Some((10 + c - LOWER_A) as u8)
    } else if UPPER_A <= c <= UPPER_F {
        Some((10 + c - UPPER_A) as u8)
    } else {
        None
    }
}

/// Every digit value is below its base.
pub proof fn lemma_digit_ranges(c: u8)
    ensures
        spec_from_digit(c) matches Some(d) ==> d < 10,
        spec_from_hex_digit(c) matches Some(h) ==> h < 16,
        spec_is_digit(c) <==> spec_from_digit(c).is_some(),
{
}

} // verus!
