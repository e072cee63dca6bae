//! Rotary position embedding, quantized to quarter turns.
//!
//! The real rotary embedding rotates each coordinate pair of a head by an
//! angle proportional to the token's absolute position, with a frequency per
//! pair. The model keeps the structure exact over the integers by rotating
//! pair `k` of a head by `pos * (k + 1)` quarter turns, so the sine and
//! cosine are always `-1`, `0` or `1` and the rotation is integer-exact.
//! What matters to the surrounding algorithm is preserved: the transform is
//! applied row by row, and depends on the row's absolute position
//! (`seqlen_offset + row`), not on its position within the current call.

use vstd::prelude::*;

use crate::matrix::{lemma_rows_view_push, mat_view, mat_wf, Matrix};
use crate::scalar::{sat_add, sat_add_e, sat_mul, sat_mul_e, sat_sub, sat_sub_e};

verus! {

/// How many quarter turns pair `k` of a head turns at absolute position
/// `pos`, reduced modulo four.
pub open spec fn quarter_phase(pos: int, k: int) -> int {
    ((pos % 4) * (((k % 4) + 1) % 4)) % 4
}

/// Cosine of `phase` quarter turns.
pub open spec fn cos_q(phase: int) -> int {
    if phase == 0 {
        1
    } else if phase == 2 {
        -1
    } else {
        0
    }
}

/// Sine of `phase` quarter turns.
pub open spec fn sin_q(phase: int) -> int {
    if phase == 1 {
        1
    } else if phase == 3 {
        -1
    } else {
        0
    }
}

/// One rotated pair: the even coordinate `a` and odd coordinate `b` of pair
/// `k` become `(a cos - b sin, a sin + b cos)`.
pub open spec fn rot_even_s(a: i64, b: i64, pos: int, k: int) -> i64 {
    sat_sub_e(sat_mul_e(a, cos_q(quarter_phase(pos, k)) as i64), sat_mul_e(
        b,
        sin_q(quarter_phase(pos, k)) as i64,
    ))
}

pub open spec fn rot_odd_s(a: i64, b: i64, pos: int, k: int) -> i64 {
    sat_add_e(sat_mul_e(a, sin_q(quarter_phase(pos, k)) as i64), sat_mul_e(
        b,
        cos_q(quarter_phase(pos, k)) as i64,
    ))
}

/// A row at absolute position `pos`, rotated pairwise inside each head
/// block of width `head_dim`.
pub open spec fn rotary_row_s(row: Seq<i64>, pos: int, head_dim: int) -> Seq<i64> {
    Seq::new(
        row.len(),
        |c: int|
            {
                let d = c % head_dim;
                let k = d / 2;
                if d % 2 == 0 {
                    rot_even_s(row[c], row[c + 1], pos, k)
                } else {
                    rot_odd_s(row[c - 1], row[c], pos, k)
                }
            },
    )
}

/// The whole batch rotated: row `t` is at absolute position `offset + t`.
pub open spec fn rotary_s(x: Seq<Seq<i64>>, offset: int, head_dim: int) -> Seq<Seq<i64>> {
    Seq::new(x.len(), |t: int| rotary_row_s(x[t], offset + t, head_dim))
}

/// Compute the quarter phase of pair `k` at position `pos`.
fn quarter_phase_exec(pos: usize, k: usize) -> (r: usize)
    ensures
        r as int == quarter_phase(pos as int, k as int),
        r < 4,
{
    let p4: usize = pos % 4;
    let k4: usize = ((k % 4) + 1) % 4;
    proof {
        assert(p4 * k4 < 16) by (nonlinear_arith)
            requires
                p4 < 4,
                k4 < 4,
        ;
    }
    (p4 * k4) % 4
}

/// Apply the rotary embedding to every row of `x`, whose columns form
/// head blocks of width `head_dim`.
pub fn rotary_apply(x: &Matrix, offset: usize, head_dim: usize, cols: usize) -> (r: Matrix)
    requires
        mat_wf(mat_view(x), x@.len() as int, cols as int),
        2 <= head_dim,
        head_dim % 2 == 0,
        cols % head_dim == 0,
        offset + x@.len() <= usize::MAX,
    ensures
        mat_view(&r) == rotary_s(mat_view(x), offset as int, head_dim as int),
        mat_wf(mat_view(&r), x@.len() as int, cols as int),
{
    let ghost target = rotary_s(mat_view(x), offset as int, head_dim as int);
    let n_heads: usize = cols / head_dim;
    proof {
        vstd::arithmetic::div_mod::lemma_fundamental_div_mod(cols as int, head_dim as int);
    }
    let mut out: Matrix = Vec::new();
    let mut t: usize = 0;
    while t < x.len()
        invariant
            t <= x.len(),
            mat_wf(mat_view(x), x@.len() as int, cols as int),
            2 <= head_dim,
            head_dim % 2 == 0,
            cols % head_dim == 0,
            cols == n_heads * head_dim,
            offset + x@.len() <= usize::MAX,
            target == rotary_s(mat_view(x), offset as int, head_dim as int),
            mat_view(&out) == target.take(t as int),
        decreases x.len() - t,
    {
        proof {
            assert(mat_view(x)[t as int].len() == cols);
        }
        let pos: usize = offset + t;
        let src = &x[t];
        let ghost trow = target[t as int];
        proof {
            assert(trow =~= rotary_row_s(src@, pos as int, head_dim as int));
        }
        let mut row: Vec<i64> = Vec::new();
        let mut h: usize = 0;
        while h < n_heads
            invariant
                h <= n_heads,
                2 <= head_dim,
                head_dim % 2 == 0,
                cols == n_heads * head_dim,
                src@.len() == cols,
                trow == rotary_row_s(src@, pos as int, head_dim as int),
                trow.len() == cols,
                row@ == trow.take((h * head_dim) as int),
            decreases n_heads - h,
        {
            let mut k: usize = 0;
            proof {
                assert(h * head_dim + head_dim <= cols) by (nonlinear_arith)
                    requires
                        h < n_heads,
                        cols == n_heads * head_dim,
                        0 <= head_dim,
                ;
            }
            let base: usize = h * head_dim;
            while k < head_dim / 2
                invariant
                    k <= head_dim / 2,
                    2 <= head_dim,
                    head_dim % 2 == 0,
                    base == h * head_dim,
                    base + head_dim <= cols,
                    src@.len() == cols,
                    trow == rotary_row_s(src@, pos as int, head_dim as int),
                    trow.len() == cols,
                    row@ == trow.take((base + 2 * k) as int),
                decreases head_dim / 2 - k,
            {
                let c0: usize = base + 2 * k;
                let c1: usize = c0 + 1;
                proof {
                    assert(2 * k + 1 < head_dim) by (nonlinear_arith)
                        requires
                            k < head_dim / 2,
                            head_dim % 2 == 0,
                            2 <= head_dim,
                    ;
                    assert(c0 % head_dim == 2 * k && c0 / head_dim == h) by (nonlinear_arith)
                        requires
                            c0 == h * head_dim + 2 * k,
                            0 <= 2 * k < head_dim,
                            0 <= h,
                            2 <= head_dim,
                    ;
                    assert(c1 % head_dim == 2 * k + 1 && c1 / head_dim == h) by (nonlinear_arith)
                        requires
                            c1 == h * head_dim + 2 * k + 1,
                            0 <= 2 * k + 1 < head_dim,
                            0 <= h,
                            2 <= head_dim,
                    ;
                    assert((2 * k) % 2 == 0 && (2 * k) / 2 == k && (2 * k + 1) % 2 == 1 && (2 * k
                        + 1) / 2 == k) by (nonlinear_arith)
                        requires
                            0 <= k,
                    ;
                }
                let ph: usize = quarter_phase_exec(pos, k);
                let cq: i64 = if ph == 0 {
                    1
                } else if ph == 2 {
                    -1
                } else {
                    0
                };
                let sq: i64 = if ph == 1 {
                    1
                } else if ph == 3 {
                    -1
                } else {
                    0
                };
                let a: i64 = src[c0];
                let b: i64 = src[c1];
                let even_v: i64 = sat_sub(sat_mul(a, cq), sat_mul(b, sq));
                let odd_v: i64 = sat_add(sat_mul(a, sq), sat_mul(b, cq));
                row.push(even_v);
                row.push(odd_v);
                proof {
                    assert(even_v == trow[c0 as int]);
                    assert(odd_v == trow[c1 as int]);
                    assert(trow.take((base + 2 * (k + 1)) as int) =~= trow.take(
                        (base + 2 * k) as int,
                    ).push(trow[c0 as int]).push(trow[c1 as int]));
                }
                k += 1;
            }
            proof {
                assert((h + 1) * head_dim == h * head_dim + head_dim) by (nonlinear_arith);
                assert(2 * (head_dim / 2) == head_dim);
            }
            h += 1;
        }
        proof {
            assert(row@ =~= trow);
        }
        let ghost prev = out@;
        out.push(row);
        proof {
            lemma_rows_view_push(prev, row);
            assert(target.take(t as int).push(target[t as int]) =~= target.take(t + 1));
        }
        t += 1;
    }
    proof {
        assert(target.take(x@.len() as int) =~= target);
        assert(forall|i: int| 0 <= i < target.len() ==> (#[trigger] target[i]).len() == cols);
    }
    out
}

} // verus!
