//! Saturating integer scalar arithmetic: the element domain of the model.
//!
//! Tensor elements are `i64` values combined with saturating addition and
//! multiplication, so every scalar operation is total. The nonlinearities of
//! the modelled network are integer surrogates: `silu_gate` stands in for the
//! sigmoid-weighted linear unit (negative inputs gate to zero), `attn_weight`
//! stands in for the exponential inside softmax (a hinge that gives the row
//! maximum the weight `ATTN_UNIT` and anything `ATTN_UNIT` or more below the
//! maximum the weight zero), and `isqrt` gives the integer square root used
//! for score scaling and normalization.

use vstd::prelude::*;

verus! {

/// Weight that the attention weighting function gives to a score equal to
/// the row maximum; scores this far below the maximum get weight zero.
pub const ATTN_UNIT: i64 = 64;

/// Clamp an unbounded integer into the representable element range.
pub open spec fn sat_i(x: int) -> int {
    if x > i64::MAX as int {
        i64::MAX as int
    } else if x < i64::MIN as int {
        i64::MIN as int
    } else {
        x
    }
}

/// Saturating sum as an element value.
pub open spec fn sat_add_e(a: i64, b: i64) -> i64 {
    sat_i(a as int + b as int) as i64
}

/// Saturating difference as an element value.
pub open spec fn sat_sub_e(a: i64, b: i64) -> i64 {
    sat_i(a as int - b as int) as i64
}

/// Saturating product as an element value.
pub open spec fn sat_mul_e(a: i64, b: i64) -> i64 {
    sat_i(a as int * b as int) as i64
}

pub fn sat_add(a: i64, b: i64) -> (r: i64)
    ensures
        r == sat_add_e(a, b),
{
    let s: i128 = a as i128 + b as i128;
    if s > i64::MAX as i128 {
        i64::MAX
    } else if s < i64::MIN as i128 {
        i64::MIN
    } else {
        s as i64
    }
}

pub fn sat_sub(a: i64, b: i64) -> (r: i64)
    ensures
        r == sat_sub_e(a, b),
{
    let s: i128 = a as i128 - b as i128;
    if s > i64::MAX as i128 {
        i64::MAX
    } else if s < i64::MIN as i128 {
        i64::MIN
    } else {
        s as i64
    }
}

pub fn sat_mul(a: i64, b: i64) -> (r: i64)
    ensures
        r == sat_mul_e(a, b),
{
    proof {
        assert(-0x4000_0000_0000_0000_0000_0000_0000_0000 <= (a as int) * (b as int)
            <= 0x4000_0000_0000_0000_0000_0000_0000_0000) by (nonlinear_arith)
            requires
                i64::MIN <= a <= i64::MAX,
                i64::MIN <= b <= i64::MAX,
        ;
    }
    let s: i128 = a as i128 * b as i128;
    if s > i64::MAX as i128 {
        i64::MAX
    } else if s < i64::MIN as i128 {
        i64::MIN
    } else {
        s as i64
    }
}

/// Integer surrogate for the gated activation: negative inputs gate to zero,
/// non-negative inputs pass through unchanged.
pub open spec fn silu_gate_s(x: int) -> int {
    if x < 0 {
        0
    } else {
        x
    }
}

/// The gated activation as an element value.
pub open spec fn silu_gate_e(x: i64) -> i64 {
    silu_gate_s(x as int) as i64
}

pub fn silu_gate(x: i64) -> (r: i64)
    ensures
        r == silu_gate_e(x),
{
    if x < 0 {
        0
    } else {
        x
    }
}

/// Integer surrogate for the exponential inside softmax, applied to the
/// difference between a score and its row maximum (always <= 0): the maximum
/// itself weighs `ATTN_UNIT`, and the weight falls linearly to zero.
pub open spec fn attn_weight_s(d: int) -> int {
    if d >= 0 {
        ATTN_UNIT as int
    } else if d + ATTN_UNIT as int >= 0 {
        d + ATTN_UNIT as int
    } else {
        0
    }
}

pub fn attn_weight(d: i64) -> (r: i64)
    ensures
        r as int == attn_weight_s(d as int),
        0 <= r <= ATTN_UNIT,
{
    if d >= 0 {
        ATTN_UNIT
    } else if d + ATTN_UNIT >= 0 {
        d + ATTN_UNIT
    } else {
        0
    }
}

/// Division with truncation toward zero, the model's scaling division; the
/// divisor is always at least one.
pub open spec fn div_trunc_s(a: int, d: int) -> int
    recommends
        1 <= d,
{
    if a >= 0 {
        a / d
    } else {
        -((-a) / d)
    }
}

pub fn div_trunc(a: i64, d: i64) -> (r: i64)
    requires
        1 <= d,
    ensures
        r as int == div_trunc_s(a as int, d as int),
{
    if a >= 0 {
        let q: u64 = (a as u64) / (d as u64);
        proof {
            vstd::arithmetic::div_mod::lemma_div_nonincreasing(a as int, d as int);
        }
        q as i64
    } else {
        let m: u64 = (-(a as i128)) as u64;
        let q: u64 = m / (d as u64);
        proof {
            vstd::arithmetic::div_mod::lemma_div_nonincreasing(m as int, d as int);
        }
        (-(q as i128)) as i64
    }
}

/// `r` is the integer square root of `n`.
pub open spec fn is_isqrt(n: int, r: int) -> bool {
    1 <= r && r * r <= n && n < (r + 1) * (r + 1)
}

/// The integer square root is unique, so any two values satisfying
/// `is_isqrt` for the same radicand coincide.
pub proof fn lemma_isqrt_unique(n: int, r1: int, r2: int)
    requires
        is_isqrt(n, r1),
        is_isqrt(n, r2),
    ensures
        r1 == r2,
{
    assert(r1 == r2) by (nonlinear_arith)
        requires
            1 <= r1,
            1 <= r2,
            r1 * r1 <= n,
            n < (r1 + 1) * (r1 + 1),
            r2 * r2 <= n,
            n < (r2 + 1) * (r2 + 1),
    ;
}

/// The integer square root as a value: the unique `r` with `is_isqrt`.
pub open spec fn isqrt_s(n: int) -> int {
    choose|r: int| is_isqrt(n, r)
}

/// Integer square root by bisection.
pub fn isqrt(n: u64) -> (r: u64)
    requires
        1 <= n,
    ensures
        is_isqrt(n as int, r as int),
        r as int == isqrt_s(n as int),
{
    let mut lo: u64 = 1;
    let mut hi: u64 = if n < 0xffff_ffff {
        n
    } else {
        0xffff_ffff
    };
    proof {
        assert((n as int) < (n as int + 1) * (n as int + 1)) by (nonlinear_arith)
            requires
                1 <= n as int,
        ;
    }
    while lo < hi
        invariant
            1 <= lo <= hi <= 0xffff_ffff,
            (lo as int) * (lo as int) <= n as int,
            (n as int) < (hi as int + 1) * (hi as int + 1),
        decreases hi - lo,
    {
        let mid: u64 = lo + (hi - lo + 1) / 2;
        proof {
            assert((mid as int) * (mid as int) <= 0xffff_ffff_0000_0000) by (nonlinear_arith)
                requires
                    0 <= mid <= 0xffff_ffff,
            ;
        }
        let sq: u128 = (mid as u128) * (mid as u128);
        if sq <= n as u128 {
            lo = mid;
        } else {
            hi = mid - 1;
        }
    }
    proof {
        assert(is_isqrt(n as int, lo as int));
        assert(is_isqrt(n as int, isqrt_s(n as int)));
        lemma_isqrt_unique(n as int, lo as int, isqrt_s(n as int));
    }
    lo
}

} // verus!
