//! Integer arithmetic used by the evaluator and the lineup engine.
//!
//! The expression language computes in wrapping 64-bit two's-complement
//! arithmetic; division truncates toward zero and the single wrapping
//! case (`i64::MIN / -1`) wraps back to `i64::MIN`.  Aggregate scores
//! (lineup totals, potential-score bounds) use saturating addition so
//! that larger really means larger.

use vstd::prelude::*;

verus! {

/// Wrapping addition on `i64`.
pub open spec fn w_add(a: i64, b: i64) -> i64 {
    vstd::wrapping::i64_specs::wrapping_add(a, b)
}

/// Wrapping subtraction on `i64`.
pub open spec fn w_sub(a: i64, b: i64) -> i64 {
    vstd::wrapping::i64_specs::wrapping_sub(a, b)
}

/// Wrapping multiplication on `i64`.
pub open spec fn w_mul(a: i64, b: i64) -> i64 {
    vstd::wrapping::i64_specs::wrapping_mul(a, b)
}

/// Wrapping negation on `i64` (`-i64::MIN` wraps to `i64::MIN`).
pub open spec fn w_neg(a: i64) -> i64 {
    w_sub(0, a)
}

/// Truncating division on `i64`; the one overflowing case
/// (`i64::MIN / -1`) wraps back to `i64::MIN`.
pub open spec fn div_t(a: i64, b: i64) -> i64
    recommends
        b != 0,
{
    match a.checked_div(b) {
        Some(q) => q,
        None => i64::MIN,
    }
}

/// `base` multiplied into 1 `e` times, wrapping.
pub open spec fn pow_n(base: i64, e: nat) -> i64
    decreases e,
{
    if e == 0 {
        1i64
    } else {
        w_mul(pow_n(base, (e - 1) as nat), base)
    }
}

/// The value of `base ^ e` in the expression language.  A negative
/// exponent truncates `1 / base^(-e)` toward zero, which is 0 unless
/// `base^(-e)` is 1 or -1; `0` raised to a negative power is taken as 0.
pub open spec fn pow_v(base: i64, e: i64) -> i64 {
    if e >= 0 {
        pow_n(base, e as nat)
    } else {
        let m = pow_n(base, (-(e as int)) as nat);
        if m == 1 {
            1i64
        } else if m == -1i64 {
            -1i64
        } else {
            0i64
        }
    }
}

/// Saturating addition on `i64`.
pub open spec fn sat_add(a: i64, b: i64) -> i64 {
    if a + b > i64::MAX {
        i64::MAX
    } else if a + b < i64::MIN {
        i64::MIN
    } else {
        (a + b) as i64
    }
}

/// The larger of two values.
pub open spec fn max2(a: i64, b: i64) -> i64 {
    if a >= b {
        a
    } else {
        b
    }
}

/// The smaller of two values.
pub open spec fn min2(a: i64, b: i64) -> i64 {
    if a <= b {
        a
    } else {
        b
    }
}

/// An unbounded integer reduced to `i64` two's-complement.
pub open spec fn wrap64(x: int) -> i64 {
    let m = x % 0x1_0000_0000_0000_0000;
    if m >= 0x8000_0000_0000_0000 {
        (m - 0x1_0000_0000_0000_0000) as i64
    } else {
        m as i64
    }
}

pub fn add_w(a: i64, b: i64) -> (r: i64)
    ensures
        r == w_add(a, b),
{
    a.wrapping_add(b)
}

pub fn sub_w(a: i64, b: i64) -> (r: i64)
    ensures
        r == w_sub(a, b),
{
    a.wrapping_sub(b)
}

pub fn mul_w(a: i64, b: i64) -> (r: i64)
    ensures
        r == w_mul(a, b),
{
    a.wrapping_mul(b)
}

pub fn neg_w(a: i64) -> (r: i64)
    ensures
        r == w_neg(a),
{
    (0i64).wrapping_sub(a)
}

pub fn div_w(a: i64, b: i64) -> (r: i64)
    requires
        b != 0,
    ensures
        r == div_t(a, b),
{
    match a.checked_div(b) {
        Some(q) => q,
        None => i64::MIN,
    }
}

pub fn pow_w(base: i64, e: i64) -> (r: i64)
    ensures
        r == pow_v(base, e),
{
    let mag: u64 = if e >= 0 {
        e as u64
    } else if e == i64::MIN {
        0x8000_0000_0000_0000u64
    } else {
        (-e) as u64
    };
    let mut acc: i64 = 1;
    let mut k: u64 = 0;
    while k < mag
        invariant
            k <= mag,
            acc == pow_n(base, k as nat),
        decreases mag - k,
    {
        acc = acc.wrapping_mul(base);
        k = k + 1;
    }
    if e >= 0 {
        acc
    } else {
        if acc == 1 {
            1
        } else if acc == -1 {
            -1
        } else {
            0
        }
    }
}

pub fn add_sat(a: i64, b: i64) -> (r: i64)
    ensures
        r == sat_add(a, b),
{
    match a.checked_add(b) {
        Some(s) => s,
        None => {
            if a >= 0 {
                i64::MAX
            } else {
                i64::MIN
            }
        },
    }
}

/// A sequence length reduced to `i64` two's-complement.
pub fn len_to_i64(n: usize) -> (r: i64)
    ensures
        r == wrap64(n as int),
{
    let u: u64 = n as u64;
    proof {
        vstd::arithmetic::div_mod::lemma_small_mod(u as nat, 0x1_0000_0000_0000_0000nat);
    }
    if u < 0x8000_0000_0000_0000u64 {
        u as i64
    } else {
        ((u - 0x8000_0000_0000_0000u64) as i64).wrapping_add(i64::MIN)
    }
}

} // verus!
