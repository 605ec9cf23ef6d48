//! Numeric literals: where one ends, and what it denotes.
//!
//! A decimal literal is `D* [. D+] [e [+-] D+]` with at least one digit
//! before the exponent; a hexadecimal one is `0x H* [. H+] [p [+-] D+]`,
//! likewise. A literal with neither a fraction nor an exponent whose value
//! fits in a signed 64-bit integer denotes that integer. Every other literal
//! denotes a binary64 number, which is left to the embedder to compute from
//! the literal's text.

use crate::chars::{
    from_digit, from_hex_digit, lemma_digit_ranges, spec_from_digit, spec_from_hex_digit,
    spec_is_digit, LOWER_E, LOWER_P, LOWER_X, MINUS, NUM_0, PERIOD, PLUS, UPPER_E, UPPER_P, UPPER_X,
};
use vstd::prelude::*;

verus! {

/// What a literal denotes.
#[derive(Clone, Copy, Debug, PartialEq, Eq, Structural)]
pub enum NumeralKind {
    Integer(i64),
    Float,
}

/// A literal that was recognized: the position after its last byte, and
/// what it denotes.
#[derive(Clone, Copy, Debug, PartialEq, Eq, Structural)]
pub struct Numeral {
    pub end: usize,
    pub kind: NumeralKind,
}

/// The byte at position `i`, if there is one.
pub open spec fn at(s: Seq<u8>, i: int) -> Option<u8> {
    if 0 <= i < s.len() {
        Some(s[i])
    } else {
        None
    }
}

/// The value of a byte as a digit of the base, if it is one.
pub open spec fn digit_of(c: u8, hex: bool) -> Option<u8> {
    if hex {
        spec_from_hex_digit(c)
    } else {
        spec_from_digit(c)
    }
}

/// The base: 16 or 10.
pub open spec fn base_of(hex: bool) -> int {
    if hex {
        16
    } else {
        10
    }
}

/// The first position at or after `i` that holds no digit of the base.
pub open spec fn digits_end(s: Seq<u8>, i: int, hex: bool) -> int
    decreases s.len() - i,
{
    if 0 <= i < s.len() && digit_of(s[i], hex).is_some() {
        digits_end(s, i + 1, hex)
    } else {
        i
    }
}

/// The value of the digits in `s[from..to)`, read in the base.
pub open spec fn digits_value(s: Seq<u8>, from: int, to: int, hex: bool) -> int
    decreases to - from,
{
    if from >= to || !(0 < to <= s.len()) {
        0
    } else {
        digits_value(s, from, to - 1, hex) * base_of(hex) + match digit_of(s[to - 1], hex) {
            Some(d) => d as int,
            None => 0,
        }
    }
}

/// Whether a literal in the given base starts at `i` with the prefix, if
/// any, already passed: a digit, or a point with a digit after it.
pub open spec fn mantissa_starts(s: Seq<u8>, i: int, hex: bool) -> bool {
    (at(s, i) matches Some(c) && digit_of(c, hex).is_some()) || (at(s, i) == Some(PERIOD) && (at(
        s,
        i + 1,
    ) matches Some(c) && digit_of(c, hex).is_some()))
}

/// Whether a hexadecimal prefix stands at `i`.
pub open spec fn hex_prefix(s: Seq<u8>, i: int) -> bool {
    at(s, i) == Some(NUM_0) && (at(s, i + 1) == Some(LOWER_X) || at(s, i + 1) == Some(UPPER_X))
}

/// A plus or a minus sign.
pub open spec fn is_sign(c: u8) -> bool {
    c == PLUS || c == MINUS
}

/// The literal whose mantissa starts at `i`, or `None` if what stands
/// there is malformed: a mantissa without a digit, or an exponent marker
/// without a digit after it and its optional sign.
pub open spec fn mantissa_and_exponent(s: Seq<u8>, i: int, hex: bool) -> Option<Numeral> {
    let whole_end = digits_end(s, i, hex);
    let has_fraction = at(s, whole_end) == Some(PERIOD) && (at(s, whole_end + 1) matches Some(c)
        && digit_of(c, hex).is_some());
    let mantissa_end = if has_fraction {
        digits_end(s, whole_end + 1, hex)
    } else {
        whole_end
    };
    let marker = at(s, mantissa_end);
    let has_exponent = if hex {
        marker == Some(LOWER_P) || marker == Some(UPPER_P)
    } else {
        marker == Some(LOWER_E) || marker == Some(UPPER_E)
    };
    let exponent_start = if at(s, mantissa_end + 1) matches Some(c) && is_sign(c) {
        mantissa_end + 2
    } else {
        mantissa_end + 1
    };
    if whole_end == i && !has_fraction {
        None
    } else if has_exponent {
        if at(s, exponent_start) matches Some(c) && spec_is_digit(c) {
            Some(
                Numeral {
                    end: digits_end(s, exponent_start, false) as usize,
                    kind: NumeralKind::Float,
                },
            )
        } else {
            None
        }
    } else if has_fraction {
        Some(Numeral { end: mantissa_end as usize, kind: NumeralKind::Float })
    } else {
        let value = digits_value(s, i, whole_end, hex);
        Some(
            Numeral {
                end: whole_end as usize,
                kind: if value <= i64::MAX {
                    NumeralKind::Integer(value as i64)
                } else {
                    NumeralKind::Float
                },
            },
        )
    }
}

/// The literal that starts at `start`, or `None` if what stands there is
/// malformed.
pub open spec fn spec_scan_numeral(s: Seq<u8>, start: int) -> Option<Numeral> {
    if hex_prefix(s, start) {
        mantissa_and_exponent(s, start + 2, true)
    } else {
        mantissa_and_exponent(s, start, false)
    }
}

/// Whether the whole of `s` is one literal.
pub open spec fn spec_is_numeral(s: Seq<u8>) -> bool {
    spec_scan_numeral(s, 0) matches Some(n) && n.end == s.len()
}

/// A run of digits ends within the text.
pub proof fn lemma_digits_end_bounds(s: Seq<u8>, i: int, hex: bool)
    requires
        0 <= i <= s.len(),
    ensures
        i <= digits_end(s, i, hex) <= s.len(),
    decreases s.len() - i,
{
    if i < s.len() && digit_of(s[i], hex).is_some() {
        lemma_digits_end_bounds(s, i + 1, hex);
    }
}

/// A literal ends after where it starts and within the text.
pub proof fn lemma_numeral_bounds(s: Seq<u8>, start: int)
    requires
        0 <= start <= s.len(),
        s.len() <= usize::MAX,
    ensures
        spec_scan_numeral(s, start) matches Some(n) ==> start < n.end <= s.len(),
{
    let hex = hex_prefix(s, start);
    let i = if hex {
        start + 2
    } else {
        start
    };
    lemma_digits_end_bounds(s, i, hex);
    let whole_end = digits_end(s, i, hex);
    if whole_end + 1 <= s.len() {
        lemma_digits_end_bounds(s, whole_end + 1, hex);
    }
    let has_fraction = at(s, whole_end) == Some(PERIOD) && (at(s, whole_end + 1) matches Some(c)
        && digit_of(c, hex).is_some());
    let mantissa_end = if has_fraction {
        digits_end(s, whole_end + 1, hex)
    } else {
        whole_end
    };
    if mantissa_end + 1 <= s.len() {
        lemma_digits_end_bounds(s, mantissa_end + 1, false);
    }
    if mantissa_end + 2 <= s.len() {
        lemma_digits_end_bounds(s, mantissa_end + 2, false);
    }
}

fn peek(s: &Vec<u8>, i: usize) -> (r: Option<u8>)
    ensures
        r == at(s@, i as int),
{
    if i < s.len() {
        Some(s[i])
    } else {
        None
    }
}

fn peek_is(s: &Vec<u8>, i: usize, c: u8) -> (r: bool)
    ensures
        r == (at(s@, i as int) == Some(c)),
{
    i < s.len() && s[i] == c
}

fn digit_at(s: &Vec<u8>, i: usize, hex: bool) -> (r: Option<u8>)
    ensures
        r.is_some() == (at(s@, i as int) matches Some(c) && digit_of(c, hex).is_some()),
        r.is_some() ==> Some(r.unwrap()) == digit_of(s@[i as int], hex) && r.unwrap() < 16,
{
    if i < s.len() {
        proof {
            lemma_digit_ranges(s[i as int]);
        }
        if hex {
            from_hex_digit(s[i])
        } else {
            from_digit(s[i])
        }
    } else {
        None
    }
}

/// Passes the digits that start at `start`: returns where they end, and
/// their value unless it is above `i64::MAX`.
pub fn scan_digits(s: &Vec<u8>, start: usize, hex: bool) -> (r: (usize, Option<i64>))
    requires
        start <= s.len(),
    ensures
        r.0 == digits_end(s@, start as int, hex),
        start <= r.0 <= s.len(),
        digits_value(s@, start as int, r.0 as int, hex) >= 0,
        r.1 == (if digits_value(s@, start as int, r.0 as int, hex) <= i64::MAX {
            Some(digits_value(s@, start as int, r.0 as int, hex) as i64)
        } else {
            None
        }),
{
    let mut i: usize = start;
    let mut value: Option<i64> = Some(0);
    let base: i64 = if hex { 16 } else { 10 };
    loop
        invariant
            start <= i <= s.len(),
            base == base_of(hex),
            digits_end(s@, start as int, hex) == digits_end(s@, i as int, hex),
            digits_value(s@, start as int, i as int, hex) >= 0,
            value == (if digits_value(s@, start as int, i as int, hex) <= i64::MAX {
                Some(digits_value(s@, start as int, i as int, hex) as i64)
            } else {
                None
            }),
        ensures
            start <= i <= s.len(),
            i == digits_end(s@, start as int, hex),
            digits_value(s@, start as int, i as int, hex) >= 0,
            value == (if digits_value(s@, start as int, i as int, hex) <= i64::MAX {
                Some(digits_value(s@, start as int, i as int, hex) as i64)
            } else {
                None
            }),
        decreases s.len() - i,
    {
        match digit_at(s, i, hex) {
            None => {
                break ;
            },
            Some(d) => {
                proof {
                    let old_value = digits_value(s@, start as int, i as int, hex);
                    assert(digits_value(s@, start as int, i + 1, hex) == old_value * base_of(hex)
                        + d);
                    assert(old_value * base_of(hex) >= old_value) by (nonlinear_arith)
                        requires
                            old_value >= 0,
                            base_of(hex) >= 1,
                    ;
                }
                value =
                match value {
                    None => None,
                    Some(v) => match v.checked_mul(base) {
                        None => None,
                        Some(scaled) => scaled.checked_add(d as i64),
                    },
                };
                i = i + 1;
            },
        }
    }
    (i, value)
}

fn scan_mantissa_and_exponent(s: &Vec<u8>, i: usize, hex: bool) -> (r: Option<Numeral>)
    requires
        i <= s.len(),
    ensures
        r == mantissa_and_exponent(s@, i as int, hex),
        r matches Some(n) ==> i < n.end <= s.len(),
{
    let (whole_end, value) = scan_digits(s, i, hex);
    let has_fraction = peek_is(s, whole_end, PERIOD) && whole_end < s.len() && digit_at(
        s,
        whole_end + 1,
        hex,
    ).is_some();
    let mantissa_end = if has_fraction {
        scan_digits(s, whole_end + 1, hex).0
    } else {
        whole_end
    };
    let has_exponent = if hex {
        peek_is(s, mantissa_end, LOWER_P) || peek_is(s, mantissa_end, UPPER_P)
    } else {
        peek_is(s, mantissa_end, LOWER_E) || peek_is(s, mantissa_end, UPPER_E)
    };
    if whole_end == i && !has_fraction {
        None
    } else if has_exponent {
        let exponent_start = if mantissa_end + 1 < s.len() && (s[mantissa_end + 1] == PLUS || s[
            mantissa_end + 1] == MINUS) {
            mantissa_end + 2
        } else {
            mantissa_end + 1
        };
        if digit_at(s, exponent_start, false).is_some() {
            let (end, _value) = scan_digits(s, exponent_start, false);
            Some(Numeral { end, kind: NumeralKind::Float })
        } else {
            None
        }
    } else if has_fraction {
        Some(Numeral { end: mantissa_end, kind: NumeralKind::Float })
    } else {
        Some(
            Numeral {
                end: whole_end,
                kind: match value {
                    Some(v) => NumeralKind::Integer(v),
                    None => NumeralKind::Float,
                },
            },
        )
    }
}

/// Recognizes the literal that starts at `start`.
#[verifier::when_used_as_spec(spec_scan_numeral_exec)]
pub fn scan_numeral(s: &Vec<u8>, start: usize) -> (r: Option<Numeral>)
    requires
        start <= s.len(),
    ensures
        r == spec_scan_numeral(s@, start as int),
        r matches Some(n) ==> start < n.end <= s.len(),
{
    if peek_is(s, start, NUM_0) && start < s.len() && (peek_is(s, start + 1, LOWER_X) || peek_is(
        s,
        start + 1,
        UPPER_X,
    )) {
        scan_mantissa_and_exponent(s, start + 2, true)
    } else {
        scan_mantissa_and_exponent(s, start, false)
    }
}

/// The literal that starts at `start`, or `None` if what stands there is
/// malformed.
pub open spec fn spec_scan_numeral_exec(s: &Vec<u8>, start: usize) -> Option<Numeral> {
    spec_scan_numeral(s@, start as int)
}

/// Whether the whole of `s` is one literal.
pub fn is_numeral(s: &Vec<u8>) -> (r: bool)
    ensures
        r == spec_is_numeral(s@),
{
    match scan_numeral(s, 0) {
        Some(n) => n.end == s.len(),
        None => false,
    }
}

} // verus!
