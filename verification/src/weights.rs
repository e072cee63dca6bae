//! A deterministic weight source: the model's stand-in for an on-disk
//! checkpoint. Loading consumes a flat pool of element values front to back,
//! so a model built from a given pool is completely determined by it.

use vstd::prelude::*;

use crate::error::ModelError;
use crate::matrix::{mat_view, mat_wf, Matrix};

verus! {

pub struct WeightSource {
    pub values: Vec<i64>,
    pub pos: usize,
}

impl WeightSource {
    pub fn new(values: Vec<i64>) -> (r: Self)
        ensures
            r.values == values,
            r.pos == 0,
    {
        WeightSource { values, pos: 0 }
    }

    /// Take the next `n` values as a row. Fails exactly when fewer than `n`
    /// values remain.
    pub fn take_row(&mut self, n: usize) -> (r: Result<Vec<i64>, ModelError>)
        ensures
            final(self).values == old(self).values,
            r is Ok <==> old(self).pos + n <= old(self).values@.len(),
            r matches Ok(row) ==> row@ == old(self).values@.subrange(
                old(self).pos as int,
                old(self).pos + n,
            ) && final(self).pos == old(self).pos + n,
            r is Err ==> r == Err::<Vec<i64>, ModelError>(ModelError::Shape) && final(self).pos
                == old(self).pos,
    {
        if n > self.values.len() || self.pos > self.values.len() - n {
            return Err(ModelError::Shape);
        }
        let mut row: Vec<i64> = Vec::new();
        let start: usize = self.pos;
        let total: usize = self.values.len();
        let mut i: usize = 0;
        while i < n
            invariant
                i <= n,
                total == self.values@.len(),
                start + n <= total,
                row@ == self.values@.subrange(start as int, start + i),
            decreases n - i,
        {
            let x: i64 = self.values[start + i];
            row.push(x);
            proof {
                assert(self.values@.subrange(start as int, start + i + 1) =~= self.values@.subrange(
                    start as int,
                    start + i,
                ).push(self.values@[start + i]));
            }
            i += 1;
        }
        self.pos = start + n;
        Ok(row)
    }

    /// Take the next `rows * cols` values as a matrix, row by row. Succeeds
    /// exactly when that many values remain, and then returns exactly them.
    pub fn take_matrix(&mut self, rows: usize, cols: usize) -> (r: Result<Matrix, ModelError>)
        ensures
            final(self).values == old(self).values,
            r is Ok <==> rows == 0 || old(self).pos + (rows as int) * (cols as int) <= old(
                self,
            ).values@.len(),
            r matches Ok(m) ==> mat_wf(mat_view(&m), rows as int, cols as int) && final(self).pos
                == old(self).pos + (rows as int) * (cols as int) && (forall|i: int|
                0 <= i < rows ==> #[trigger] mat_view(&m)[i] == old(self).values@.subrange(
                    old(self).pos + i * (cols as int),
                    old(self).pos + (i + 1) * (cols as int),
                )),
            r is Err ==> r == Err::<Matrix, ModelError>(ModelError::Shape),
    {
        let mut out: Matrix = Vec::new();
        let mut i: usize = 0;
        while i < rows
            invariant
                i <= rows,
                self.values == old(self).values,
                self.pos == old(self).pos + (i as int) * (cols as int),
                i == 0 || self.pos <= self.values@.len(),
                mat_wf(mat_view(&out), i as int, cols as int),
                forall|k: int|
                    0 <= k < i ==> #[trigger] mat_view(&out)[k] == old(self).values@.subrange(
                        old(self).pos + k * (cols as int),
                        old(self).pos + (k + 1) * (cols as int),
                    ),
            decreases rows - i,
        {
            let row = match self.take_row(cols) {
                Ok(row) => row,
                Err(e) => {
                    proof {
                        assert((i as int) * (cols as int) + (cols as int) <= (rows as int) * (
                        cols as int)) by (nonlinear_arith)
                            requires
                                0 <= (i as int),
                                (i as int) < (rows as int),
                                0 <= (cols as int),
                        ;
                    }
                    return Err(e);
                },
            };
            let ghost prev = out@;
            out.push(row);
            proof {
                crate::matrix::lemma_rows_view_push(prev, row);
                assert((i as int) * (cols as int) + (cols as int) == ((i as int) + 1) * (
                cols as int)) by (nonlinear_arith);
            }
            i += 1;
        }
        Ok(out)
    }
}


/// The `rows` by `cols` matrix read from `values` starting at `pos`.
pub open spec fn mat_take_s(values: Seq<i64>, pos: int, rows: int, cols: int) -> Seq<Seq<i64>> {
    Seq::new(rows as nat, |i: int| values.subrange(pos + i * cols, pos + (i + 1) * cols))
}

} // verus!
