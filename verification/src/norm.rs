//! Root-mean-square normalization over the integer element domain.
//!
//! Each row is divided by the integer square root of its mean square (plus
//! `eps`, plus one so the divisor is never zero), then scaled by the learned
//! per-feature weight. This is the model's surrogate for the usual RMS norm;
//! it is row-local and deterministic, which is all the surrounding algorithm
//! relies on.

use vstd::prelude::*;

use crate::error::ModelError;
use crate::matrix::{
    dot_row, dot_s, lemma_rows_view_push, mat_has_shape, mat_view, mat_wf, Matrix,
};
use crate::scalar::{
    div_trunc, div_trunc_s, is_isqrt, isqrt, isqrt_s, sat_add, sat_i, sat_mul, sat_mul_e,
};
use crate::weights::WeightSource;

verus! {

/// The divisor for a row: the integer square root of one plus the row's
/// mean square (with `eps` folded into the sum before the mean).
pub open spec fn rms_denom_s(row: Seq<i64>, eps: i64) -> int {
    isqrt_s(div_trunc_s(sat_i(dot_s(row, row, 0, row.len()) + eps), row.len() as int) + 1)
}

/// One normalized row.
pub open spec fn rms_row_s(row: Seq<i64>, w: Seq<i64>, eps: i64) -> Seq<i64> {
    Seq::new(
        row.len(),
        |j: int| sat_mul_e(w[j], div_trunc_s(row[j] as int, rms_denom_s(row, eps)) as i64),
    )
}

/// The whole batch normalized row by row.
pub open spec fn rms_norm_s(x: Seq<Seq<i64>>, w: Seq<i64>, eps: i64) -> Seq<Seq<i64>> {
    Seq::new(x.len(), |t: int| rms_row_s(x[t], w, eps))
}

/// Squares never make the sum fold negative.
pub proof fn lemma_sq_sum_nonneg(row: Seq<i64>, n: nat)
    ensures
        0 <= dot_s(row, row, 0, n),
    decreases n,
{
    if n != 0 {
        lemma_sq_sum_nonneg(row, (n - 1) as nat);
        assert(0 <= row[n - 1] as int * row[n - 1] as int) by (nonlinear_arith);
    }
}

pub struct RmsNorm {
    pub weight: Vec<i64>,
    pub eps: i64,
}

impl RmsNorm {
    pub open spec fn wf(&self) -> bool {
        &&& 0 <= self.eps
        &&& 1 <= self.weight@.len() <= 0xffff_ffff
    }

    /// Build a norm of width `size`, drawing the weight from the source.
    pub fn new(size: usize, eps: i64, ws: &mut WeightSource) -> (r: Result<Self, ModelError>)
        requires
            0 <= eps,
            1 <= size <= 0xffff_ffff,
        ensures
            final(ws).values == old(ws).values,
            r is Ok <==> old(ws).pos + size <= old(ws).values@.len(),
            r matches Ok(n) ==> n.wf() && n.weight@.len() == size && n.eps == eps && n.weight@
                == old(ws).values@.subrange(old(ws).pos as int, old(ws).pos + size)
                && final(ws).pos == old(ws).pos + size,
            r is Err ==> r == Err::<RmsNorm, ModelError>(ModelError::Shape),
    {
        match ws.take_row(size) {
            Ok(w) => Ok(RmsNorm { weight: w, eps }),
            Err(e) => Err(e),
        }
    }

    /// Normalize every row of `x`. Fails exactly when a row of `x` does not
    /// have the norm's width.
    pub fn forward(&self, x: &Matrix) -> (r: Result<Matrix, ModelError>)
        requires
            self.wf(),
        ensures
            r is Ok <==> mat_wf(mat_view(x), x@.len() as int, self.weight@.len() as int),
            r matches Ok(y) ==> mat_view(&y) == rms_norm_s(mat_view(x), self.weight@, self.eps)
                && mat_wf(mat_view(&y), x@.len() as int, self.weight@.len() as int),
            r is Err ==> r == Err::<Matrix, ModelError>(ModelError::Shape),
    {
        let cols: usize = self.weight.len();
        if !mat_has_shape(x, x.len(), cols) {
            return Err(ModelError::Shape);
        }
        let ghost target = rms_norm_s(mat_view(x), self.weight@, self.eps);
        let mut out: Matrix = Vec::new();
        let mut t: usize = 0;
        while t < x.len()
            invariant
                t <= x.len(),
                self.wf(),
                cols == self.weight@.len(),
                mat_wf(mat_view(x), x@.len() as int, cols as int),
                target == rms_norm_s(mat_view(x), self.weight@, self.eps),
                mat_view(&out) == target.take(t as int),
            decreases x.len() - t,
        {
            proof {
                assert(mat_view(x)[t as int].len() == cols);
            }
            let src = &x[t];
            let ghost trow = target[t as int];
            proof {
                assert(trow =~= rms_row_s(src@, self.weight@, self.eps));
                lemma_sq_sum_nonneg(src@, src@.len());
            }
            let ss: i64 = dot_row(src, src);
            let summed: i64 = sat_add(ss, self.eps);
            let mean: i64 = div_trunc(summed, cols as i64);
            proof {
                assert(0 <= summed);
                assert(0 <= mean as int) by {
                    assert(mean as int == summed as int / cols as int);
                    vstd::arithmetic::div_mod::lemma_div_nonincreasing(
                        summed as int,
                        cols as int,
                    );
                    assert(0 <= summed as int / cols as int) by (nonlinear_arith)
                        requires
                            0 <= summed as int,
                            1 <= cols as int,
                    ;
                };
            }
            let radicand: u64 = mean as u64 + 1;
            let denom_u: u64 = isqrt(radicand);
            proof {
                assert((denom_u as int) * (denom_u as int) <= radicand as int);
                assert(denom_u as int <= 0x1_0000_0000_0000_0000) by (nonlinear_arith)
                    requires
                        (denom_u as int) * (denom_u as int) <= radicand as int,
                        radicand as int <= 0x8000_0000_0000_0000,
                        1 <= denom_u as int,
                ;
                assert(denom_u as int <= i64::MAX as int) by (nonlinear_arith)
                    requires
                        (denom_u as int) * (denom_u as int) <= 0x8000_0000_0000_0000,
                        1 <= denom_u as int,
                ;
            }
            let denom: i64 = denom_u as i64;
            proof {
                assert(denom as int == rms_denom_s(src@, self.eps));
            }
            let mut row: Vec<i64> = Vec::new();
            let mut j: usize = 0;
            while j < cols
                invariant
                    j <= cols,
                    cols == self.weight@.len(),
                    src@.len() == cols,
                    1 <= denom,
                    denom as int == rms_denom_s(src@, self.eps),
                    trow == rms_row_s(src@, self.weight@, self.eps),
                    trow.len() == cols,
                    row@ == trow.take(j as int),
                decreases cols - j,
            {
                let v: i64 = sat_mul(self.weight[j], div_trunc(src[j], denom));
                row.push(v);
                proof {
                    assert(trow.take(j + 1) =~= trow.take(j as int).push(trow[j as int]));
                }
                j += 1;
            }
            proof {
                assert(row@ =~= trow);
            }
            let ghost prev = out@;
            out.push(row);
            proof {
                lemma_rows_view_push(prev, row);
                assert(target.take(t as int).push(target[t as int]) =~= target.take(t + 1));
            }
            t += 1;
        }
        proof {
            assert(target.take(x@.len() as int) =~= target);
            assert(forall|i: int|
                0 <= i < target.len() ==> (#[trigger] target[i]).len() == cols);
        }
        Ok(out)
    }
}

} // verus!
