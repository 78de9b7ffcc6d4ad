use vstd::prelude::*;

verus! {

use vstd::arithmetic::div_mod::{
    lemma_fundamental_div_mod, lemma_div_is_ordered_by_denominator, lemma_div_nonincreasing,
    lemma_mod_bound,
};
use vstd::arithmetic::mul::lemma_mul_unary_negation;

/// Absolute value of an integer.
pub open spec fn iabs(a: int) -> int {
    if a >= 0 {
        a
    } else {
        -a
    }
}

/// Quotient of `a` by `b` rounded toward zero, as Rust's `/` computes it.
pub open spec fn trunc_div(a: int, b: int) -> int
    recommends
        b != 0,
{
    if (a >= 0) == (b >= 0) {
        iabs(a) / iabs(b)
    } else {
        -(iabs(a) / iabs(b))
    }
}

/// Remainder of `a` by `b` rounded toward zero: it has the sign of `a`,
/// as Rust's `%` computes it.
pub open spec fn trunc_rem(a: int, b: int) -> int
    recommends
        b != 0,
{
    if a >= 0 {
        iabs(a) % iabs(b)
    } else {
        -(iabs(a) % iabs(b))
    }
}

/// Quotient of `a` by `b` rounded toward negative infinity.
pub open spec fn floor_div(a: int, b: int) -> int
    recommends
        b != 0,
{
    if (a >= 0) == (b >= 0) {
        iabs(a) / iabs(b)
    } else if iabs(a) % iabs(b) == 0 {
        -(iabs(a) / iabs(b))
    } else {
        -(iabs(a) / iabs(b)) - 1
    }
}

/// Remainder of `a` by `b` under floor division: it has the sign of `b`.
pub open spec fn floor_mod(a: int, b: int) -> int
    recommends
        b != 0,
{
    a - b * floor_div(a, b)
}

/// Truncating division and remainder reassemble the dividend, and the
/// remainder is smaller than the divisor and carries the dividend's sign.
pub proof fn lemma_trunc_div_mod(a: int, b: int)
    requires
        b != 0,
    ensures
        a == b * trunc_div(a, b) + trunc_rem(a, b),
        iabs(trunc_rem(a, b)) < iabs(b),
        a >= 0 ==> trunc_rem(a, b) >= 0,
        a < 0 ==> trunc_rem(a, b) <= 0,
{
    let ua = iabs(a);
    let ub = iabs(b);
    lemma_fundamental_div_mod(ua, ub);
    lemma_mod_bound(ua, ub);
    let q = ua / ub;
    let r = ua % ub;
    assert(ua == ub * q + r);
    if a >= 0 && b >= 0 {
        assert(a == b * trunc_div(a, b) + trunc_rem(a, b));
    } else if a >= 0 {
        // b < 0: a == ua, b == -ub, trunc_div == -q, trunc_rem == r
        lemma_mul_unary_negation(ub, q);
        assert((-ub) * (-q) == ub * q) by {
            lemma_mul_unary_negation(-ub, q);
        }
        assert(a == b * (-q) + r);
    } else if b >= 0 {
        // a < 0: a == -ua, trunc_div == -q, trunc_rem == -r
        lemma_mul_unary_negation(ub, q);
        assert(-a == b * q + r);
        assert(a == b * (-q) + (-r));
    } else {
        // a < 0, b < 0: trunc_div == q, trunc_rem == -r
        assert(-a == (-b) * q + r);
        lemma_mul_unary_negation(b, q);
        assert(a == b * q + (-r));
    }
}

/// Floor division and remainder reassemble the dividend, and the remainder
/// lies between zero (inclusive) and the divisor.
pub proof fn lemma_floor_div_mod(a: int, b: int)
    requires
        b != 0,
    ensures
        a == b * floor_div(a, b) + floor_mod(a, b),
        b > 0 ==> 0 <= floor_mod(a, b) < b,
        b < 0 ==> b < floor_mod(a, b) <= 0,
{
    lemma_trunc_div_mod(a, b);
    let qt = trunc_div(a, b);
    let rt = trunc_rem(a, b);
    if (a >= 0) == (b >= 0) {
        assert(floor_div(a, b) == qt && floor_mod(a, b) == rt);
    } else if iabs(a) % iabs(b) == 0 {
        assert(rt == 0);
        assert(floor_div(a, b) == qt);
        assert(floor_mod(a, b) == a - b * qt);
    } else {
        assert(floor_div(a, b) == qt - 1);
        assert(b * (qt - 1) == b * qt - b) by {
            vstd::arithmetic::mul::lemma_mul_is_distributive_sub(b, qt, 1);
        }
        assert(floor_mod(a, b) == rt + b);
    }
}

/// Division of a nonnegative value by a larger positive divisor yields a
/// quotient no bigger than half the value.
proof fn lemma_div_by_two_or_more(x: int, d: int)
    requires
        x >= 0,
        d >= 2,
    ensures
        x / d <= x / 2,
{
    lemma_div_is_ordered_by_denominator(x, 2, d);
}

/// Truncating quotient of two `i64` values, as Rust's `/` computes it.
pub fn trunc_div_i64(a: i64, b: i64) -> (r: i64)
    requires
        b != 0,
        !(a == i64::MIN && b == -1),
    ensures
        r as int == trunc_div(a as int, b as int),
{
    proof {
        lemma_trunc_div_i64_fits(a as int, b as int);
        lemma_checked_div_is_trunc(a as int, b as int);
    }
    match a.checked_div(b) {
        Some(q) => q,
        None => {
            proof {
                assert(false);
            }
            0
        },
    }
}

/// The truncating quotient of `i64` values fits in `i64` except for
/// `i64::MIN / -1`.
proof fn lemma_trunc_div_i64_fits(a: int, b: int)
    requires
        b != 0,
        i64::MIN <= a <= i64::MAX,
        i64::MIN <= b <= i64::MAX,
        !(a == i64::MIN && b == -1),
    ensures
        i64::MIN <= trunc_div(a, b) <= i64::MAX,
{
    let ua = iabs(a);
    let ub = iabs(b);
    lemma_div_nonincreasing(ua, ub);
    vstd::arithmetic::div_mod::lemma_div_pos_is_pos(ua, ub);
    if ub >= 2 {
        lemma_div_by_two_or_more(ua, ub);
        assert(ua / 2 <= i64::MAX) by {
            lemma_div_is_ordered(ua, iabs(i64::MIN as int), 2);
        }
    } else {
        assert(ub == 1);
        assert(ua / 1 == ua) by {
            vstd::arithmetic::div_mod::lemma_basic_div_specific_divisor(1);
        }
        if a == i64::MIN {
            assert(b == 1);
        }
    }
}

proof fn lemma_div_is_ordered(x: int, y: int, z: int)
    requires
        x <= y,
        0 <= x,
        z >= 1,
    ensures
        x / z <= y / z,
{
    vstd::arithmetic::div_mod::lemma_div_is_ordered(x, y, z);
}

/// `i64::checked_div` computes the truncating quotient whenever it fits.
proof fn lemma_checked_div_is_trunc(a: int, b: int)
    requires
        b != 0,
    ensures
        ({
            let vstd_q = if a == 0 {
                0int
            } else if a > 0 && b > 0 {
                a / b
            } else if a < 0 && b < 0 {
                ((a * -1) / (b * -1))
            } else if a < 0 {
                ((a * -1) / b) * -1
            } else {
                (a / (b * -1)) * -1
            };
            vstd_q == trunc_div(a, b)
        }),
{
    if a == 0 {
        assert(0int / iabs(b) == 0) by {
            vstd::arithmetic::div_mod::lemma_div_of0(iabs(b));
        }
    }
}

/// Truncating remainder of two `i64` values, as Rust's `%` computes it.
pub fn trunc_rem_i64(a: i64, b: i64) -> (r: i64)
    requires
        b != 0,
        !(a == i64::MIN && b == -1),
    ensures
        r as int == trunc_rem(a as int, b as int),
{
    proof {
        lemma_trunc_div_mod(a as int, b as int);
    }
    match a.checked_rem(b) {
        Some(r) => r,
        None => {
            proof {
                assert(false);
            }
            0
        },
    }
}

/// Floor quotient of two `i64` values.
pub fn floor_div_i64(a: i64, b: i64) -> (r: i64)
    requires
        b != 0,
        !(a == i64::MIN && b == -1),
    ensures
        r as int == floor_div(a as int, b as int),
{
    let q = trunc_div_i64(a, b);
    let rem = trunc_rem_i64(a, b);
    if rem != 0 && ((a < 0) != (b < 0)) {
        proof {
            lemma_floor_div_q_minus_one_fits(a as int, b as int);
        }
        q - 1
    } else {
        proof {
            if rem == 0 {
                assert(iabs(a as int) % iabs(b as int) == 0);
            }
        }
        q
    }
}

/// When the signs differ and the division is inexact, decrementing the
/// truncating quotient stays within `i64`.
proof fn lemma_floor_div_q_minus_one_fits(a: int, b: int)
    requires
        b != 0,
        i64::MIN <= a <= i64::MAX,
        i64::MIN <= b <= i64::MAX,
        !(a == i64::MIN && b == -1),
        (a < 0) != (b < 0),
        trunc_rem(a, b) != 0,
    ensures
        i64::MIN < trunc_div(a, b) <= 0,
        floor_div(a, b) == trunc_div(a, b) - 1,
{
    let ua = iabs(a);
    let ub = iabs(b);
    vstd::arithmetic::div_mod::lemma_div_pos_is_pos(ua, ub);
    if ub == 1 {
        assert(ua % 1int == 0) by {
            lemma_mod_bound(ua, 1);
        }
        assert(false);
    } else {
        lemma_div_by_two_or_more(ua, ub);
        assert(ua / 2 <= i64::MAX) by {
            lemma_div_is_ordered(ua, iabs(i64::MIN as int), 2);
        }
    }
}

/// Floor remainder of two `i64` values.
pub fn floor_mod_i64(a: i64, b: i64) -> (r: i64)
    requires
        b != 0,
        !(a == i64::MIN && b == -1),
    ensures
        r as int == floor_mod(a as int, b as int),
{
    proof {
        lemma_trunc_div_mod(a as int, b as int);
        lemma_floor_div_mod(a as int, b as int);
    }
    let rem = trunc_rem_i64(a, b);
    if rem != 0 && ((a < 0) != (b < 0)) {
        proof {
            lemma_floor_div_q_minus_one_fits(a as int, b as int);
            assert(b * (trunc_div(a as int, b as int) - 1) == b * trunc_div(a as int, b as int)
                - b) by {
                vstd::arithmetic::mul::lemma_mul_is_distributive_sub(
                    b as int,
                    trunc_div(a as int, b as int),
                    1,
                );
            }
        }
        rem + b
    } else {
        proof {
            if rem == 0 {
                assert(iabs(a as int) % iabs(b as int) == 0);
                assert(b * floor_div(a as int, b as int) == b * trunc_div(a as int, b as int));
            }
        }
        rem
    }
}


/// The floor quotient of `i64` values fits in `i64` except for `i64::MIN`
/// over minus one.
pub proof fn lemma_floor_div_fits(a: int, b: int)
    requires
        b != 0,
        i64::MIN <= a <= i64::MAX,
        i64::MIN <= b <= i64::MAX,
        !(a == i64::MIN && b == -1),
    ensures
        i64::MIN <= floor_div(a, b) <= i64::MAX,
{
    lemma_trunc_div_i64_fits(a, b);
    lemma_trunc_div_mod(a, b);
    if (a >= 0) != (b >= 0) && iabs(a) % iabs(b) != 0 {
        lemma_floor_div_q_minus_one_fits(a, b);
    }
}

/// The floor quotient of `i64::MIN` by minus one leaves the machine range.
pub proof fn lemma_floor_div_min_negone(a: int, b: int)
    requires
        a == i64::MIN,
        b == -1,
    ensures
        !(i64::MIN <= floor_div(a, b) <= i64::MAX),
{
    assert(iabs(a) / iabs(b) == iabs(a)) by {
        vstd::arithmetic::div_mod::lemma_basic_div_specific_divisor(1);
    }
}

/// The floor remainder always fits in `i64` for an `i64` divisor.
pub proof fn lemma_floor_mod_fits(a: int, b: int)
    requires
        b != 0,
        i64::MIN <= b <= i64::MAX,
    ensures
        i64::MIN <= floor_mod(a, b) <= i64::MAX,
{
    lemma_floor_div_mod(a, b);
}

/// The floor remainder of `i64::MIN` by minus one is zero.
pub proof fn lemma_floor_mod_min_negone()
    ensures
        floor_mod(i64::MIN as int, -1) == 0,
{
    let a = i64::MIN as int;
    assert(iabs(a) / 1int == iabs(a)) by {
        vstd::arithmetic::div_mod::lemma_basic_div_specific_divisor(1);
    }
    assert(iabs(a) % 1int == 0) by {
        lemma_mod_bound(iabs(a), 1);
    }
    assert(floor_div(a, -1) == iabs(a));
    assert(floor_mod(a, -1) == a - (-1) * iabs(a));
    assert((-1) * iabs(a) == -iabs(a)) by {
        lemma_mul_unary_negation(1, iabs(a));
        vstd::arithmetic::mul::lemma_mul_basics(iabs(a));
    }
}

} // verus!
