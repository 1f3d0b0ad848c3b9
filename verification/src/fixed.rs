//! Saturating fixed-point arithmetic over `i128` mantissas.
//!
//! A value with `f` fractional bits is stored as the mantissa `m` and
//! denotes `m / 2^f`.  Every mantissa the engine keeps is clamped to the
//! interval `[-4, 4]` in value (`[-4 * 2^f, 4 * 2^f]` in mantissa units):
//! the escape radius of the iteration is 2, so any value at or beyond
//! magnitude 4 behaves identically under the escape test, and clamping
//! there keeps all intermediate products inside `i128`.

use vstd::prelude::*;
use vstd::arithmetic::power2::{
    pow2, lemma_pow2_adds, lemma_pow2_pos, lemma_pow2_strictly_increases, lemma2_to64,
    lemma2_to64_rest,
};
use vstd::arithmetic::div_mod::{
    lemma_fundamental_div_mod, lemma_fundamental_div_mod_converse,
    lemma_mod_division_less_than_divisor,
};

verus! {

/// Largest fractional width any backend may use: with this cap, a product
/// of two in-range mantissas stays below `2^126` and fits in an `i128`.
pub const MAX_FRAC_BITS: u32 = 61;

/// Mantissa bound for `f` fractional bits: the value 4.
pub open spec fn sat_bound(f: nat) -> int {
    4 * pow2(f) as int
}

/// An in-range mantissa at `f` fractional bits.
pub open spec fn fix_ok(m: int, f: nat) -> bool {
    -sat_bound(f) <= m <= sat_bound(f)
}

/// Clamp a mantissa back into the representable interval.
pub open spec fn sat(x: int, f: nat) -> int {
    if x > sat_bound(f) {
        sat_bound(f)
    } else if x < -sat_bound(f) {
        -sat_bound(f)
    } else {
        x
    }
}

/// Fixed-point product: multiply the mantissas, drop `f` fractional bits
/// rounding toward minus infinity, then clamp.
pub open spec fn fix_mul(a: int, b: int, f: nat) -> int {
    sat((a * b) / (pow2(f) as int), f)
}

pub broadcast proof fn lemma_sat_ok(x: int, f: nat)
    ensures
        fix_ok(#[trigger] sat(x, f), f),
{
    lemma_pow2_pos(f);
}

/// `2^e` for exponents up to 63, by repeated doubling.
pub fn pow2_exec(e: u32) -> (r: u64)
    requires
        e <= 63,
    ensures
        r == pow2(e as nat),
{
    let mut r: u64 = 1;
    let mut i: u32 = 0;
    proof {
        lemma2_to64();
    }
    while i < e
        invariant
            i <= e <= 63,
            r == pow2(i as nat),
        decreases e - i,
    {
        proof {
            lemma_pow2_strictly_increases(i as nat, 63);
            lemma2_to64_rest();
            lemma_pow2_adds(i as nat, 1);
            lemma2_to64();
        }
        r = r * 2;
        i = i + 1;
    }
    r
}

/// Floor division `n / d` for a positive divisor, computed through
/// unsigned division so the rounding direction is explicit.
pub fn div_floor(n: i128, d: i128) -> (q: i128)
    requires
        d > 0,
        n > i128::MIN,
    ensures
        q == n as int / d as int,
        n >= 0 ==> 0 <= q <= n,
        n < 0 ==> n <= q <= 0,
{
    if n >= 0 {
        let nn: u128 = n as u128;
        let dd: u128 = d as u128;
        let qq: u128 = nn / dd;
        proof {
            assert(qq <= nn) by {
                lemma_div_is_ordered_by_one(nn as int, dd as int);
            }
        }
        qq as i128
    } else {
        let nn: u128 = (-n) as u128;
        let dd: u128 = d as u128;
        let qq: u128 = (nn + (dd - 1)) / dd;
        proof {
            lemma_div_neg(nn as int, dd as int);
            assert(qq <= nn) by {
                lemma_ceil_div_le(nn as int, dd as int);
            }
        }
        -(qq as i128)
    }
}

/// Floor division never increases a nonnegative dividend.
proof fn lemma_div_is_ordered_by_one(n: int, d: int)
    requires
        n >= 0,
        d >= 1,
    ensures
        n / d <= n,
        n / d >= 0,
{
    lemma_fundamental_div_mod(n, d);
    lemma_mod_division_less_than_divisor(n, d);
    if n / d > n {
        vstd::arithmetic::mul::lemma_mul_inequality(1, n / d, d);
    }
    if n / d < 0 {
        vstd::arithmetic::mul::lemma_mul_inequality(n / d, -1, d);
    }
}

/// The rounded-up quotient `(n + d - 1) / d` stays at or below `n`.
proof fn lemma_ceil_div_le(n: int, d: int)
    requires
        n >= 0,
        d >= 1,
    ensures
        0 <= (n + d - 1) / d <= n,
{
    vstd::arithmetic::div_mod::lemma_div_pos_is_pos(n + d - 1, d);
    assert(n + d - 1 < d * (n + 1)) by (nonlinear_arith)
        requires
            n >= 0,
            d >= 1,
    ;
    vstd::arithmetic::div_mod::lemma_multiply_divide_lt(n + d - 1, d, n + 1);
}

/// Floor division of a negated dividend, written with the rounded-up
/// unsigned quotient.
proof fn lemma_div_neg(nn: int, d: int)
    requires
        nn >= 0,
        d > 0,
    ensures
        (-nn) / d == -((nn + d - 1) / d),
{
    let q = nn / d;
    let r = nn % d;
    lemma_fundamental_div_mod(nn, d);
    lemma_mod_division_less_than_divisor(nn, d);
    assert((-q) * d == -(q * d) && (-q - 1) * d == -(q * d) - d && (q + 1) * d == q * d + d
        && d * q == q * d) by (nonlinear_arith);
    if r == 0 {
        lemma_fundamental_div_mod_converse(-nn, d, -q, 0);
        lemma_fundamental_div_mod_converse(nn + d - 1, d, q, d - 1);
    } else {
        lemma_fundamental_div_mod_converse(-nn, d, -q - 1, d - r);
        lemma_fundamental_div_mod_converse(nn + d - 1, d, q + 1, r - 1);
    }
}

/// Clamp an `i128` mantissa into the representable interval for `f`
/// fractional bits.
pub fn sat_exec(x: i128, f: u32) -> (r: i128)
    requires
        f <= MAX_FRAC_BITS,
    ensures
        r == sat(x as int, f as nat),
        fix_ok(r as int, f as nat),
{
    proof {
        lemma_pow2_adds(f as nat, 2);
        lemma2_to64();
    }
    let b: i128 = pow2_exec(f + 2) as i128;
    if x > b {
        b
    } else if x < -b {
        -b
    } else {
        x
    }
}

/// Fixed-point multiplication of two in-range mantissas.
pub fn mul_fix(a: i128, b: i128, f: u32) -> (r: i128)
    requires
        f <= MAX_FRAC_BITS,
        fix_ok(a as int, f as nat),
        fix_ok(b as int, f as nat),
    ensures
        r == fix_mul(a as int, b as int, f as nat),
        fix_ok(r as int, f as nat),
{
    proof {
        lemma2_to64();
        lemma2_to64_rest();
        assert(sat_bound(f as nat) == pow2((f + 2) as nat)) by {
            lemma_pow2_adds(f as nat, 2);
        }
        if f + 2 < 63 {
            lemma_pow2_strictly_increases((f + 2) as nat, 63);
        }
        assert(-0x40000000000000000000000000000000 <= a as int * b as int
            <= 0x40000000000000000000000000000000) by (nonlinear_arith)
            requires
                -0x8000000000000000 <= a as int <= 0x8000000000000000,
                -0x8000000000000000 <= b as int <= 0x8000000000000000,
        ;
    }
    let p: i128 = a * b;
    proof {
        lemma_pow2_pos(f as nat);
    }
    let pw: i128 = pow2_exec(f) as i128;
    let q: i128 = div_floor(p, pw);
    sat_exec(q, f)
}

/// Move a mantissa from one fractional width to another: widening shifts
/// left exactly, narrowing drops bits rounding toward minus infinity.
pub open spec fn rescale(m: int, from: nat, to: nat) -> int {
    if to >= from {
        m * pow2((to - from) as nat) as int
    } else {
        m / pow2((from - to) as nat) as int
    }
}

/// Rescale an in-range mantissa; the result is in range at the new width.
pub fn rescale_exec(m: i128, from: u32, to: u32) -> (r: i128)
    requires
        from <= MAX_FRAC_BITS,
        to <= MAX_FRAC_BITS,
        fix_ok(m as int, from as nat),
    ensures
        r == rescale(m as int, from as nat, to as nat),
        fix_ok(r as int, to as nat),
{
    if to >= from {
        let d = to - from;
        let sh: i128 = pow2_exec(d) as i128;
        proof {
            lemma_pow2_pos(d as nat);
            lemma_pow2_adds(from as nat, 2);
            lemma_pow2_adds(to as nat, 2);
            lemma_pow2_adds((from + 2) as nat, d as nat);
            if to + 2 < 63 {
                lemma_pow2_strictly_increases((to + 2) as nat, 63);
            }
            lemma2_to64();
            lemma2_to64_rest();
            assert(-(pow2((from + 2) as nat) * pow2(d as nat)) <= m as int * sh as int
                <= pow2((from + 2) as nat) * pow2(d as nat)) by (nonlinear_arith)
                requires
                    -(pow2((from + 2) as nat) as int) <= m as int <= pow2((from + 2) as nat) as int,
                    sh as int == pow2(d as nat),
                    pow2((from + 2) as nat) > 0,
                    pow2(d as nat) > 0,
            ;
        }
        m * sh
    } else {
        let d = from - to;
        proof {
            lemma_pow2_pos(d as nat);
            lemma_pow2_adds(from as nat, 2);
            if from + 2 < 63 {
                lemma_pow2_strictly_increases((from + 2) as nat, 63);
            }
            lemma2_to64();
            lemma2_to64_rest();
        }
        let pw: i128 = pow2_exec(d) as i128;
        let q = div_floor(m, pw);
        proof {
            lemma2_to64();
            lemma_pow2_adds(from as nat, 2);
            lemma_pow2_adds(to as nat, 2);
            lemma_pow2_adds((to + 2) as nat, d as nat);
            let b2 = pow2((to + 2) as nat) as int;
            let pwi = pow2(d as nat) as int;
            vstd::arithmetic::div_mod::lemma_div_multiples_vanish(b2, pwi);
            vstd::arithmetic::div_mod::lemma_div_multiples_vanish(-b2, pwi);
            assert(pwi * b2 == b2 * pwi && pwi * (-b2) == -(b2 * pwi)) by (nonlinear_arith);
            vstd::arithmetic::div_mod::lemma_div_is_ordered(-(b2 * pwi), m as int, pwi);
            vstd::arithmetic::div_mod::lemma_div_is_ordered(m as int, b2 * pwi, pwi);
        }
        q
    }
}

} // verus!
