//! Signed 64-bit integer arithmetic of the value domain.

use vstd::prelude::*;

verus! {

/// The signed 64-bit integer that is congruent to `x` modulo `2^64`.
pub open spec fn wrap(x: int) -> i64 {
    let m = x % 0x1_0000_0000_0000_0000;
    if m > i64::MAX {
        (m - 0x1_0000_0000_0000_0000) as i64
    } else {
        m as i64
    }
}

/// The quotient rounded toward negative infinity.
pub open spec fn floor_div(a: int, b: int) -> int
    recommends
        b != 0,
{
    if b > 0 {
        a / b
    } else {
        (-a) / (-b)
    }
}

/// The remainder that goes with `floor_div`: `a - floor_div(a, b) * b`,
/// which is zero or has the sign of `b`.
pub open spec fn floor_mod(a: int, b: int) -> int
    recommends
        b != 0,
{
    a - floor_div(a, b) * b
}

/// Addition that wraps around.
pub fn integer_add(a: i64, b: i64) -> (r: i64)
    ensures
        r == wrap(a + b),
{
    a.wrapping_add(b)
}

/// Subtraction that wraps around.
pub fn integer_subtract(a: i64, b: i64) -> (r: i64)
    ensures
        r == wrap(a - b),
{
    a.wrapping_sub(b)
}

/// Multiplication that wraps around.
pub fn integer_multiply(a: i64, b: i64) -> (r: i64)
    ensures
        r == wrap(a * b),
{
    a.wrapping_mul(b)
}

/// Negation that wraps around: `i64::MIN` is its own negation.
pub fn integer_negate(a: i64) -> (r: i64)
    ensures
        r == wrap(-a),
{
    0i64.wrapping_sub(a)
}

/// Euclidean quotient and remainder by a positive divisor.
fn euclid(x: i128, d: i128) -> (r: (i128, i128))
    requires
        -0x8000_0000_0000_0000 <= x <= 0x8000_0000_0000_0000,
        0 < d <= 0x8000_0000_0000_0000,
    ensures
        r.0 == x / d,
        r.1 == x % d,
        x >= 0 ==> 0 <= r.0 <= x,
        x < 0 ==> x <= r.0 < 0,
        d >= 2 && x != 0 ==> -0x8000_0000_0000_0000 <= r.0 < 0x8000_0000_0000_0000,
{
    if x >= 0 {
        proof {
            vstd::arithmetic::div_mod::lemma_div_pos_is_pos(x as int, d as int);
            vstd::arithmetic::div_mod::lemma_div_nonincreasing(x as int, d as int);
            if d >= 2 && x != 0 {
                vstd::arithmetic::div_mod::lemma_div_decreases(x as int, d as int);
            }
        }
        (x / d, x % d)
    } else {
        let y: i128 = -x;
        let qt: i128 = y / d;
        let m: i128 = y % d;
        proof {
            vstd::arithmetic::div_mod::lemma_div_pos_is_pos(y as int, d as int);
            vstd::arithmetic::div_mod::lemma_div_nonincreasing(y as int, d as int);
            vstd::arithmetic::div_mod::lemma_fundamental_div_mod(y as int, d as int);
            if d >= 2 {
                vstd::arithmetic::div_mod::lemma_div_decreases(y as int, d as int);
            }
        }
        if m == 0 {
            proof {
                assert(x == (-qt) * d + 0) by (nonlinear_arith)
                    requires
                        y == d * qt + m,
                        m == 0,
                        x == -y,
                ;
                vstd::arithmetic::div_mod::lemma_fundamental_div_mod_converse(
                    x as int,
                    d as int,
                    -qt as int,
                    0,
                );
                if qt == 0 {
                    assert(y == 0) by (nonlinear_arith)
                        requires
                            y == d * qt + m,
                            m == 0,
                            qt == 0,
                    ;
                }
            }
            (-qt, 0)
        } else {
            proof {
                assert(x == (-qt - 1) * d + (d - m)) by (nonlinear_arith)
                    requires
                        y == d * qt + m,
                        x == -y,
                ;
                vstd::arithmetic::div_mod::lemma_fundamental_div_mod_converse(
                    x as int,
                    d as int,
                    (-qt - 1) as int,
                    (d - m) as int,
                );
                if d >= 2 {
                } else {
                    assert(m < d);
                }
            }
            (-qt - 1, d - m)
        }
    }
}

/// Division rounded toward negative infinity, wrapped to 64 bits (only
/// `i64::MIN` by `-1` wraps).
pub fn integer_floor_div(a: i64, b: i64) -> (r: i64)
    requires
        b != 0,
    ensures
        r == wrap(floor_div(a as int, b as int)),
{
    proof {
        vstd::arithmetic::div_mod::lemma_div_basics(a as int);
        vstd::arithmetic::div_mod::lemma_div_basics(-(a as int));
        vstd::arithmetic::div_mod::lemma_div_basics(b as int);
        vstd::arithmetic::div_mod::lemma_div_basics(-(b as int));
    }
    if b == 1 {
        a
    } else if b == -1 {
        0i64.wrapping_sub(a)
    } else if a == 0 {
        0
    } else if b < 0 {
        let (q, _m) = euclid(-(a as i128), -(b as i128));
        q as i64
    } else {
        let (q, _m) = euclid(a as i128, b as i128);
        q as i64
    }
}

/// The remainder of the division rounded toward negative infinity.
pub fn integer_floor_mod(a: i64, b: i64) -> (r: i64)
    requires
        b != 0,
    ensures
        r == floor_mod(a as int, b as int),
{
    if b < 0 {
        let (q, m) = euclid(-(a as i128), -(b as i128));
        proof {
            vstd::arithmetic::div_mod::lemma_fundamental_div_mod(-(a as int), -(b as int));
            vstd::arithmetic::div_mod::lemma_mod_bound(-(a as int), -(b as int));
            assert(a - q * b == -m) by (nonlinear_arith)
                requires
                    -(a as int) == (-(b as int)) * q + m,
            ;
        }
        (-m) as i64
    } else {
        let (q, m) = euclid(a as i128, b as i128);
        proof {
            vstd::arithmetic::div_mod::lemma_fundamental_div_mod(a as int, b as int);
            vstd::arithmetic::div_mod::lemma_mod_bound(a as int, b as int);
            assert(a - q * b == m) by (nonlinear_arith)
                requires
                    a as int == (b as int) * q + m,
            ;
        }
        m as i64
    }
}

/// The bits of `a` moved left by `n` places, zeros coming in; a negative
/// `n` moves them right by `-n`, again with zeros coming in, and a distance
/// of 64 or more leaves 0.
pub open spec fn shift(a: i64, n: int) -> i64 {
    if n <= -64 || n >= 64 {
        0
    } else if n == 0 {
        a
    } else if n > 0 {
        ((a as u64) << (n as u64)) as i64
    } else {
        ((a as u64) >> ((-n) as u64)) as i64
    }
}

/// The bits moved left; right for a negative distance.
pub open spec fn spec_shift_left(a: i64, n: i64) -> i64 {
    shift(a, n as int)
}

/// The bits moved right without sign extension; left for a negative distance.
pub open spec fn spec_shift_right(a: i64, n: i64) -> i64 {
    shift(a, -(n as int))
}

/// The bits moved left; right for a negative distance.
#[verifier::when_used_as_spec(spec_shift_left)]
pub fn shift_left(a: i64, n: i64) -> (r: i64)
    ensures
        r == spec_shift_left(a, n),
{
    let bits: u64 = #[verifier::truncate] (a as u64);
    if n <= -64 || n >= 64 {
        0
    } else if n == 0 {
        a
    } else if n > 0 {
        let s: u64 = n as u64;
        #[verifier::truncate] ((bits << s) as i64)
    } else {
        let s: u64 = (-n) as u64;
        #[verifier::truncate] ((bits >> s) as i64)
    }
}

/// The bits moved right without sign extension; left for a negative distance.
#[verifier::when_used_as_spec(spec_shift_right)]
pub fn shift_right(a: i64, n: i64) -> (r: i64)
    ensures
        r == spec_shift_right(a, n),
{
    let bits: u64 = #[verifier::truncate] (a as u64);
    if n <= -64 || n >= 64 {
        0
    } else if n == 0 {
        a
    } else if n > 0 {
        let s: u64 = n as u64;
        #[verifier::truncate] ((bits >> s) as i64)
    } else {
        let s: u64 = (-n) as u64;
        #[verifier::truncate] ((bits << s) as i64)
    }
}

/// Shifting left by `n` is shifting right by `-n`, and the other way round.
pub proof fn lemma_shift_reverses(a: i64, n: i64)
    requires
        n != i64::MIN,
    ensures
        spec_shift_left(a, n) == spec_shift_right(a, (-n) as i64),
        spec_shift_right(a, n) == spec_shift_left(a, (-n) as i64),
{
}

/// While the mathematical result fits in 64 bits, integer addition,
/// subtraction, multiplication and negation give exactly that result, and
/// floor division and modulo do so for any nonzero divisor whose quotient fits.
pub proof fn lemma_integer_arithmetic_exact(a: i64, b: i64)
    ensures
        i64::MIN <= a + b <= i64::MAX ==> wrap(a + b) == a + b,
        i64::MIN <= a - b <= i64::MAX ==> wrap(a - b) == a - b,
        i64::MIN <= a * b <= i64::MAX ==> wrap(a * b) == a * b,
        i64::MIN <= -a <= i64::MAX ==> wrap(-a) == -a,
        b != 0 && !(a == i64::MIN && b == -1) ==> wrap(floor_div(a as int, b as int)) == floor_div(
            a as int,
            b as int,
        ),
        b != 0 ==> {
            let q = floor_div(a as int, b as int);
            let m = floor_mod(a as int, b as int);
            &&& a == q * b + m
            &&& (b > 0 ==> 0 <= m < b)
            &&& (b < 0 ==> b < m <= 0)
        },
{
    if b != 0 {
        let x: int = if b > 0 { a as int } else { -(a as int) };
        let d: int = if b > 0 { b as int } else { -(b as int) };
        vstd::arithmetic::div_mod::lemma_fundamental_div_mod(x, d);
        vstd::arithmetic::div_mod::lemma_mod_bound(x, d);
        let q = x / d;
        let r = x % d;
        assert(x == d * q + r);
        assert(floor_div(a as int, b as int) == q);
        assert(a - q * b == (if b > 0 { r } else { -r })) by (nonlinear_arith)
            requires
                x == d * q + r,
                x == (if b > 0 { a as int } else { -(a as int) }),
                d == (if b > 0 { b as int } else { -(b as int) }),
        ;
        if !(a == i64::MIN && b == -1) {
            if x >= 0 {
                vstd::arithmetic::div_mod::lemma_div_pos_is_pos(x, d);
                vstd::arithmetic::div_mod::lemma_div_nonincreasing(x, d);
                if d >= 2 && x > 0 {
                    vstd::arithmetic::div_mod::lemma_div_decreases(x, d);
                }
            } else {
                // x < 0: x <= q * d with q <= 0
                assert(x <= q && q <= 0) by (nonlinear_arith)
                    requires
                        x == d * q + r,
                        0 <= r < d,
                        x < 0,
                        d >= 1,
                ;
            }
        }
    }
}

} // verus!
