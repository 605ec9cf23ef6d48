//! Binary64 numbers, held by their bit patterns.
//!
//! The machine never computes in floating point itself. What can be decided
//! on the encoding alone (order, equality, sign, whether a number is an
//! integer) is decided here; arithmetic on numbers is asked of the embedder.

use vstd::arithmetic::power2::pow2;
use vstd::prelude::*;

verus! {

pub const SIGN_BIT: u64 = 0x8000_0000_0000_0000;
pub const INFINITY_BITS: u64 = 0x7ff0_0000_0000_0000;
pub const HIDDEN_BIT: u64 = 0x0010_0000_0000_0000;

/// The encoding without its sign bit.
pub open spec fn magnitude(bits: u64) -> int {
    if bits >= SIGN_BIT {
        bits - SIGN_BIT
    } else {
        bits as int
    }
}

/// Whether the sign bit is set.
pub open spec fn is_negative(bits: u64) -> bool {
    bits >= SIGN_BIT
}

/// The biased exponent field, `0..=2047`.
pub open spec fn exponent(bits: u64) -> int {
    magnitude(bits) / (HIDDEN_BIT as int)
}

/// The fraction field, below `2^52`.
pub open spec fn fraction(bits: u64) -> int {
    magnitude(bits) % (HIDDEN_BIT as int)
}

/// Whether the encoding is that of a NaN: above the encoding of infinity, the
/// sign apart.
pub open spec fn spec_is_nan(bits: u64) -> bool {
    magnitude(bits) > INFINITY_BITS
}

/// Whether the encoding is that of a finite number.
pub open spec fn is_finite(bits: u64) -> bool {
    magnitude(bits) < INFINITY_BITS
}

/// An integer that orders the numbers as their values do: the magnitude of
/// the encoding, negated for a negative number. Both zeros have the key 0.
pub open spec fn order_key(bits: u64) -> int {
    if is_negative(bits) {
        -magnitude(bits)
    } else {
        magnitude(bits)
    }
}

/// Numeric equality: false if either side is NaN, and `-0 == +0`.
pub open spec fn spec_number_eq(a: u64, b: u64) -> bool {
    !spec_is_nan(a) && !spec_is_nan(b) && order_key(a) == order_key(b)
}

/// Numeric `<`: false if either side is NaN.
pub open spec fn spec_number_lt(a: u64, b: u64) -> bool {
    !spec_is_nan(a) && !spec_is_nan(b) && order_key(a) < order_key(b)
}

/// Numeric `<=`: false if either side is NaN.
pub open spec fn spec_number_le(a: u64, b: u64) -> bool {
    !spec_is_nan(a) && !spec_is_nan(b) && order_key(a) <= order_key(b)
}

/// The number of opposite sign: the encoding with its sign bit flipped.
pub open spec fn spec_number_negate(bits: u64) -> u64 {
    if bits >= SIGN_BIT {
        (bits - SIGN_BIT) as u64
    } else {
        (bits + SIGN_BIT) as u64
    }
}

/// Whether the number is a NaN.
#[verifier::when_used_as_spec(spec_is_nan)]
pub fn is_nan(bits: u64) -> (r: bool)
    ensures
        r == spec_is_nan(bits),
{
    let m: u64 = if bits >= SIGN_BIT { bits - SIGN_BIT } else { bits };
    m > INFINITY_BITS
}

fn key_of(bits: u64) -> (k: i64)
    ensures
        k == order_key(bits),
{
    if bits >= SIGN_BIT {
        let m: u64 = bits - SIGN_BIT;
        -(m as i64)
    } else {
        bits as i64
    }
}

/// Numeric equality: false if either side is NaN, and `-0 == +0`.
#[verifier::when_used_as_spec(spec_number_eq)]
pub fn number_eq(a: u64, b: u64) -> (r: bool)
    ensures
        r == spec_number_eq(a, b),
{
    !is_nan(a) && !is_nan(b) && key_of(a) == key_of(b)
}

/// Numeric `<`: false if either side is NaN.
#[verifier::when_used_as_spec(spec_number_lt)]
pub fn number_lt(a: u64, b: u64) -> (r: bool)
    ensures
        r == spec_number_lt(a, b),
{
    !is_nan(a) && !is_nan(b) && key_of(a) < key_of(b)
}

/// Numeric `<=`: false if either side is NaN.
#[verifier::when_used_as_spec(spec_number_le)]
pub fn number_le(a: u64, b: u64) -> (r: bool)
    ensures
        r == spec_number_le(a, b),
{
    !is_nan(a) && !is_nan(b) && key_of(a) <= key_of(b)
}

/// The number of opposite sign.
#[verifier::when_used_as_spec(spec_number_negate)]
pub fn number_negate(bits: u64) -> (r: u64)
    ensures
        r == spec_number_negate(bits),
{
    if bits >= SIGN_BIT {
        bits - SIGN_BIT
    } else {
        bits + SIGN_BIT
    }
}

/// Where a number lies among the signed 64-bit integers.
#[derive(Clone, Copy, Debug, PartialEq, Eq, Structural)]
pub enum Integral {
    /// Not a number.
    Unordered,
    /// Below every 64-bit integer (negative infinity included).
    Below,
    /// Above every 64-bit integer (positive infinity included).
    Above,
    /// Between two 64-bit integers: the greatest integer that is not above
    /// the number, and whether the number equals it.
    Within { floor: i64, exact: bool },
}

/// The significand of a finite number: the fraction, with the hidden bit
/// unless the number is subnormal or zero.
pub open spec fn significand(bits: u64) -> int {
    if exponent(bits) == 0 {
        fraction(bits)
    } else {
        fraction(bits) + HIDDEN_BIT
    }
}

/// The power of two that scales the significand of a finite number: its
/// absolute value is `significand * 2^scale`.
pub open spec fn scale(bits: u64) -> int {
    if exponent(bits) == 0 {
        -1074
    } else {
        exponent(bits) - 1075
    }
}

/// The greatest integer that is not above the absolute value of a finite number.
pub open spec fn magnitude_floor(bits: u64) -> int {
    if scale(bits) >= 0 {
        significand(bits) * pow2(scale(bits) as nat)
    } else {
        significand(bits) / (pow2((-scale(bits)) as nat) as int)
    }
}

/// Whether the value of a finite number is an integer.
pub open spec fn is_integer(bits: u64) -> bool {
    scale(bits) >= 0 || significand(bits) % (pow2((-scale(bits)) as nat) as int) == 0
}

/// The greatest integer that is not above the value of a finite number.
pub open spec fn floor(bits: u64) -> int {
    if !is_negative(bits) {
        magnitude_floor(bits)
    } else if is_integer(bits) {
        -magnitude_floor(bits)
    } else {
        -magnitude_floor(bits) - 1
    }
}

/// Where a number lies among the signed 64-bit integers.
pub open spec fn spec_classify(bits: u64) -> Integral {
    if spec_is_nan(bits) {
        Integral::Unordered
    } else if !is_finite(bits) {
        if is_negative(bits) {
            Integral::Below
        } else {
            Integral::Above
        }
    } else if floor(bits) < i64::MIN {
        Integral::Below
    } else if floor(bits) > i64::MAX {
        Integral::Above
    } else {
        Integral::Within { floor: floor(bits) as i64, exact: is_integer(bits) }
    }
}

fn power_of_two(k: u64) -> (p: u64)
    requires
        k < 64,
    ensures
        p == pow2(k as nat),
        p > 0,
{
    proof {
        vstd::bits::lemma_u64_pow2_no_overflow(k as nat);
        vstd::bits::lemma_u64_shl_is_mul(1, k);
    }
    1u64 << k
}

proof fn lemma_pow2_at_least(a: nat, b: nat)
    requires
        a <= b,
    ensures
        pow2(a) <= pow2(b),
{
    if a < b {
        vstd::arithmetic::power2::lemma_pow2_strictly_increases(a, b);
    }
}

/// Where a number lies among the signed 64-bit integers.
#[verifier::when_used_as_spec(spec_classify)]
pub fn classify(bits: u64) -> (r: Integral)
    ensures
        r == spec_classify(bits),
{
    let negative = bits >= SIGN_BIT;
    let m: u64 = if negative { bits - SIGN_BIT } else { bits };
    if m > INFINITY_BITS {
        return Integral::Unordered;
    }
    if m == INFINITY_BITS {
        return if negative { Integral::Below } else { Integral::Above };
    }
    let e: u64 = m / HIDDEN_BIT;
    let f: u64 = m % HIDDEN_BIT;
    proof {
        vstd::arithmetic::power2::lemma2_to64();
        vstd::arithmetic::power2::lemma2_to64_rest();
    }
    if e == 0 || e < 1023 {
        // Below one in absolute value.
        let sig: u64 = if e == 0 { f } else { f + HIDDEN_BIT };
        proof {
            let k: nat = (-scale(bits)) as nat;
            lemma_pow2_at_least(53, k);
            vstd::arithmetic::div_mod::lemma_basic_div(sig as int, pow2(k) as int);
            vstd::arithmetic::div_mod::lemma_small_mod(sig as nat, pow2(k));
        }
        if sig == 0 {
            Integral::Within { floor: 0, exact: true }
        } else if negative {
            Integral::Within { floor: -1, exact: false }
        } else {
            Integral::Within { floor: 0, exact: false }
        }
    } else if e < 1075 {
        let sig: u64 = f + HIDDEN_BIT;
        let k: u64 = 1075 - e;
        let p: u64 = power_of_two(k);
        let whole: u64 = sig / p;
        let exact: bool = sig % p == 0;
        proof {
            vstd::arithmetic::div_mod::lemma_div_nonincreasing(sig as int, p as int);
            vstd::arithmetic::div_mod::lemma_div_pos_is_pos(sig as int, p as int);
        }
        if !negative {
            Integral::Within { floor: whole as i64, exact }
        } else if exact {
            Integral::Within { floor: -(whole as i64), exact }
        } else {
            Integral::Within { floor: -(whole as i64) - 1, exact }
        }
    } else if e < 1086 {
        let sig: u64 = f + HIDDEN_BIT;
        let k: u64 = e - 1075;
        let p: u64 = power_of_two(k);
        proof {
            lemma_pow2_at_least(k as nat, 10);
            assert(sig * p < 0x8000_0000_0000_0000) by (nonlinear_arith)
                requires
                    sig < 0x20_0000_0000_0000,
                    0 < p <= 1024,
            ;
        }
        let whole: u64 = sig * p;
        if negative {
            Integral::Within { floor: -(whole as i64), exact: true }
        } else {
            Integral::Within { floor: whole as i64, exact: true }
        }
    } else {
        let sig: u64 = f + HIDDEN_BIT;
        proof {
            let k: nat = (e - 1075) as nat;
            lemma_pow2_at_least(11, k);
            assert(sig * pow2(k) >= 0x8000_0000_0000_0000) by (nonlinear_arith)
                requires
                    sig >= 0x10_0000_0000_0000,
                    pow2(k) >= 2048,
            ;
            if e == 1086 {
                assert(sig * pow2(11) == sig * 2048);
            } else {
                lemma_pow2_at_least(12, k);
                assert(sig * pow2(k) > 0x8000_0000_0000_0000) by (nonlinear_arith)
                    requires
                        sig >= 0x10_0000_0000_0000,
                        pow2(k) >= 4096,
                ;
            }
        }
        if negative && e == 1086 && f == 0 {
            Integral::Within { floor: i64::MIN, exact: true }
        } else if negative {
            Integral::Below
        } else {
            Integral::Above
        }
    }
}

/// The integer that a number equals, if it equals one that fits in 64 bits.
pub open spec fn spec_number_to_integer(bits: u64) -> Option<i64> {
    match spec_classify(bits) {
        Integral::Within { floor, exact: true } => Some(floor),
        _ => None,
    }
}

/// The integer that a number equals, if it equals one that fits in 64 bits.
#[verifier::when_used_as_spec(spec_number_to_integer)]
pub fn number_to_integer(bits: u64) -> (r: Option<i64>)
    ensures
        r == spec_number_to_integer(bits),
{
    match classify(bits) {
        Integral::Within { floor, exact: true } => Some(floor),
        _ => None,
    }
}

/// `i < x` for an integer `i` and a number `x`, by their mathematical values.
pub open spec fn spec_integer_lt_number(i: i64, bits: u64) -> bool {
    match spec_classify(bits) {
        Integral::Unordered => false,
        Integral::Below => false,
        Integral::Above => true,
        Integral::Within { floor, exact } => if exact {
            i < floor
        } else {
            i <= floor
        },
    }
}

/// `i <= x` for an integer `i` and a number `x`, by their mathematical values.
pub open spec fn spec_integer_le_number(i: i64, bits: u64) -> bool {
    match spec_classify(bits) {
        Integral::Unordered => false,
        Integral::Below => false,
        Integral::Above => true,
        Integral::Within { floor, exact } => i <= floor,
    }
}

/// `x < i` for a number `x` and an integer `i`, by their mathematical values.
pub open spec fn spec_number_lt_integer(bits: u64, i: i64) -> bool {
    match spec_classify(bits) {
        Integral::Unordered => false,
        Integral::Below => true,
        Integral::Above => false,
        Integral::Within { floor, exact } => floor < i,
    }
}

/// `x <= i` for a number `x` and an integer `i`, by their mathematical values.
pub open spec fn spec_number_le_integer(bits: u64, i: i64) -> bool {
    match spec_classify(bits) {
        Integral::Unordered => false,
        Integral::Below => true,
        Integral::Above => false,
        Integral::Within { floor, exact } => if exact {
            floor <= i
        } else {
            floor < i
        },
    }
}

/// `i < x` for an integer `i` and a number `x`, by their mathematical values.
#[verifier::when_used_as_spec(spec_integer_lt_number)]
pub fn integer_lt_number(i: i64, bits: u64) -> (r: bool)
    ensures
        r == spec_integer_lt_number(i, bits),
{
    match classify(bits) {
        Integral::Unordered => false,
        Integral::Below => false,
        Integral::Above => true,
        Integral::Within { floor, exact } => if exact {
            i < floor
        } else {
            i <= floor
        },
    }
}

/// `i <= x` for an integer `i` and a number `x`, by their mathematical
/// values.
#[verifier::when_used_as_spec(spec_integer_le_number)]
pub fn integer_le_number(i: i64, bits: u64) -> (r: bool)
    ensures
        r == spec_integer_le_number(i, bits),
{
    match classify(bits) {
        Integral::Unordered => false,
        Integral::Below => false,
        Integral::Above => true,
        Integral::Within { floor, exact } => i <= floor,
    }
}

/// `x < i` for a number `x` and an integer `i`, by their mathematical values.
#[verifier::when_used_as_spec(spec_number_lt_integer)]
pub fn number_lt_integer(bits: u64, i: i64) -> (r: bool)
    ensures
        r == spec_number_lt_integer(bits, i),
{
    match classify(bits) {
        Integral::Unordered => false,
        Integral::Below => true,
        Integral::Above => false,
        Integral::Within { floor, exact } => floor < i,
    }
}

/// `x <= i` for a number `x` and an integer `i`, by their mathematical
/// values.
#[verifier::when_used_as_spec(spec_number_le_integer)]
pub fn number_le_integer(bits: u64, i: i64) -> (r: bool)
    ensures
        r == spec_number_le_integer(bits, i),
{
    match classify(bits) {
        Integral::Unordered => false,
        Integral::Below => true,
        Integral::Above => false,
        Integral::Within { floor, exact } => if exact {
            floor <= i
        } else {
            floor < i
        },
    }
}

/// The absolute value of a finite number, times `2^1074`: an integer.
pub open spec fn scaled_magnitude(bits: u64) -> int {
    significand(bits) * pow2((scale(bits) + 1074) as nat)
}

/// The value of a finite number, times `2^1074`: an integer.
pub open spec fn scaled_value(bits: u64) -> int {
    if is_negative(bits) {
        -scaled_magnitude(bits)
    } else {
        scaled_magnitude(bits)
    }
}

/// Among finite numbers, a greater encoding without its sign is a
/// greater absolute value.
proof fn lemma_magnitude_order(a: u64, b: u64)
    requires
        is_finite(a),
        is_finite(b),
        magnitude(a) < magnitude(b),
    ensures
        0 <= scaled_magnitude(a) < scaled_magnitude(b),
{
    let ea = exponent(a);
    let eb = exponent(b);
    let pa = pow2((scale(a) + 1074) as nat);
    let pb = pow2((scale(b) + 1074) as nat);
    let sa = significand(a);
    let sb = significand(b);
    vstd::arithmetic::power2::lemma_pow2_pos((scale(a) + 1074) as nat);
    vstd::arithmetic::power2::lemma_pow2_pos((scale(b) + 1074) as nat);
    assert(0 <= sa * pa) by (nonlinear_arith)
        requires
            0 <= sa,
            0 < pa,
    ;
    if ea == eb {
        assert(sa * pa < sb * pb) by (nonlinear_arith)
            requires
                0 <= sa < sb,
                pa == pb,
                0 < pa,
        ;
    } else {
        assert(ea < eb);
        assert(sb * pb >= 0x10_0000_0000_0000 * pb) by (nonlinear_arith)
            requires
                sb >= 0x10_0000_0000_0000,
                0 < pb,
        ;
        if ea == 0 {
            vstd::arithmetic::power2::lemma2_to64();
            assert(sa * pa < 0x10_0000_0000_0000 * pb) by (nonlinear_arith)
                requires
                    0 <= sa < 0x10_0000_0000_0000,
                    pa == 1,
                    1 <= pb,
            ;
        } else {
            let upper = pow2(ea as nat);
            vstd::arithmetic::power2::lemma_pow2_unfold(ea as nat);
            lemma_pow2_at_least(ea as nat, (eb - 1) as nat);
            assert(sa * pa < 0x10_0000_0000_0000 * pb) by (nonlinear_arith)
                requires
                    0 <= sa < 0x20_0000_0000_0000,
                    0 < pa,
                    upper == 2 * pa,
                    upper <= pb,
            ;
        }
    }
}

/// The order of the keys is the order of the values: of two finite
/// numbers, the one with the lesser key is the lesser number, and two
/// numbers with the same key are the same number, the two zeros being one.
pub proof fn lemma_order_key(a: u64, b: u64)
    requires
        is_finite(a),
        is_finite(b),
    ensures
        (order_key(a) < order_key(b)) == (scaled_value(a) < scaled_value(b)),
        (order_key(a) == order_key(b)) == (scaled_value(a) == scaled_value(b)),
        spec_number_lt(a, b) == (scaled_value(a) < scaled_value(b)),
        spec_number_le(a, b) == (scaled_value(a) <= scaled_value(b)),
        spec_number_eq(a, b) == (scaled_value(a) == scaled_value(b)),
{
    vstd::arithmetic::power2::lemma_pow2_pos((scale(a) + 1074) as nat);
    vstd::arithmetic::power2::lemma_pow2_pos((scale(b) + 1074) as nat);
    assert(0 <= scaled_magnitude(a)) by (nonlinear_arith)
        requires
            scaled_magnitude(a) == significand(a) * pow2((scale(a) + 1074) as nat),
            0 <= significand(a),
            0 < pow2((scale(a) + 1074) as nat),
    ;
    assert(0 <= scaled_magnitude(b)) by (nonlinear_arith)
        requires
            scaled_magnitude(b) == significand(b) * pow2((scale(b) + 1074) as nat),
            0 <= significand(b),
            0 < pow2((scale(b) + 1074) as nat),
    ;
    if magnitude(a) < magnitude(b) {
        lemma_magnitude_order(a, b);
    } else if magnitude(b) < magnitude(a) {
        lemma_magnitude_order(b, a);
    } else {
        assert(exponent(a) == exponent(b));
        assert(fraction(a) == fraction(b));
    }
    if magnitude(a) == 0 {
        assert(significand(a) == 0);
        assert(scaled_magnitude(a) == 0) by (nonlinear_arith)
            requires
                scaled_magnitude(a) == significand(a) * pow2((scale(a) + 1074) as nat),
                significand(a) == 0,
        ;
    }
    if magnitude(b) == 0 {
        assert(significand(b) == 0);
        assert(scaled_magnitude(b) == 0) by (nonlinear_arith)
            requires
                scaled_magnitude(b) == significand(b) * pow2((scale(b) + 1074) as nat),
                significand(b) == 0,
        ;
    }
    if magnitude(a) > 0 {
        lemma_magnitude_order(0, a);
        assert(scaled_magnitude(0) >= 0);
    }
    if magnitude(b) > 0 {
        lemma_magnitude_order(0, b);
    }
}

/// Two numbers that are equal are among the integers alike: where one
/// equals an integer, the other equals the same integer.
pub proof fn lemma_equal_numbers_classify_alike(a: u64, b: u64)
    requires
        spec_number_eq(a, b),
    ensures
        spec_number_to_integer(a) == spec_number_to_integer(b),
{
    if magnitude(a) == 0 {
        assert(magnitude(b) == 0);
        assert(exponent(a) == 0 && fraction(a) == 0);
        assert(exponent(b) == 0 && fraction(b) == 0);
        vstd::arithmetic::power2::lemma_pow2_pos(1074);
        assert(0int / (pow2(1074) as int) == 0) by (nonlinear_arith)
            requires
                pow2(1074) > 0,
        ;
        assert(0int % (pow2(1074) as int) == 0) by (nonlinear_arith)
            requires
                pow2(1074) > 0,
        ;
        assert(spec_classify(a) == (Integral::Within { floor: 0, exact: true }));
        assert(spec_classify(b) == (Integral::Within { floor: 0, exact: true }));
    } else {
        assert(a == b);
    }
}

/// Two numbers that equal the same integer are equal.
pub proof fn lemma_integers_are_equal(a: u64, b: u64)
    requires
        spec_number_to_integer(a) is Some,
        spec_number_to_integer(a) == spec_number_to_integer(b),
    ensures
        spec_number_eq(a, b),
{
    lemma_integer_value(a);
    lemma_integer_value(b);
    lemma_order_key(a, b);
}

/// The integer that a number equals is its value: a number that equals
/// an integer has that integer, times `2^1074`, as its scaled value.
pub proof fn lemma_integer_value(a: u64)
    requires
        spec_number_to_integer(a) is Some,
    ensures
        is_finite(a),
        scaled_value(a) == spec_number_to_integer(a).unwrap() * pow2(1074),
{
    let s = scale(a);
    let sig = significand(a);
    let i = spec_number_to_integer(a).unwrap() as int;
    assert(is_integer(a));
    assert(floor(a) == i);
    if s >= 0 {
        vstd::arithmetic::power2::lemma_pow2_adds(s as nat, 1074);
        assert(sig * pow2((s + 1074) as nat) == (sig * pow2(s as nat)) * pow2(1074))
            by (nonlinear_arith)
            requires
                pow2((s + 1074) as nat) == pow2(s as nat) * pow2(1074),
        ;
    } else {
        let k = (-s) as nat;
        let d = pow2(k) as int;
        vstd::arithmetic::power2::lemma_pow2_pos(k);
        vstd::arithmetic::power2::lemma_pow2_adds(k, (s + 1074) as nat);
        vstd::arithmetic::div_mod::lemma_fundamental_div_mod(sig, d);
        let q = sig / d;
        assert(sig == d * q);
        assert(sig * pow2((s + 1074) as nat) == q * pow2(1074)) by (nonlinear_arith)
            requires
                sig == d * q,
                pow2(1074) == d * pow2((s + 1074) as nat),
        ;
    }
    assert((-scaled_magnitude(a)) == (-magnitude_floor(a)) * pow2(1074)) by (nonlinear_arith)
        requires
            scaled_magnitude(a) == magnitude_floor(a) * pow2(1074),
    ;
}

} // verus!
