//! Row-major integer matrices and the saturating linear algebra on them.
//!
//! A hidden-state batch of one sequence is a matrix with one row per
//! position; per-head data occupies contiguous column blocks of width
//! `head_dim`. Every operation has a pointwise specification over
//! `Seq<Seq<i64>>` views, and the executable code is proved to compute it.

use vstd::prelude::*;

use crate::scalar::{sat_add, sat_add_e, sat_i, sat_mul, sat_mul_e, silu_gate, silu_gate_e};

verus! {

pub type Matrix = Vec<Vec<i64>>;

/// View of a sequence of row vectors as a sequence of row sequences.
pub open spec fn rows_view(s: Seq<Vec<i64>>) -> Seq<Seq<i64>> {
    Seq::new(s.len(), |i: int| s[i]@)
}

/// View of a matrix as a sequence of row sequences.
pub open spec fn mat_view(m: &Matrix) -> Seq<Seq<i64>> {
    rows_view(m@)
}

/// `m` has exactly `rows` rows of `cols` columns each.
pub open spec fn mat_wf(m: Seq<Seq<i64>>, rows: int, cols: int) -> bool {
    m.len() == rows && (forall|i: int| 0 <= i < rows ==> (#[trigger] m[i]).len() == cols)
}

pub proof fn lemma_rows_view_push(prev: Seq<Vec<i64>>, row: Vec<i64>)
    ensures
        rows_view(prev.push(row)) =~= rows_view(prev).push(row@),
{
}

/// Saturating dot product of the column block `[base, base + n)` of two rows,
/// folded left to right.
pub open spec fn dot_s(a: Seq<i64>, b: Seq<i64>, base: int, n: nat) -> int
    decreases n,
{
    if n == 0 {
        0
    } else {
        sat_i(
            dot_s(a, b, base, (n - 1) as nat) + sat_i(
                a[base + n - 1] as int * b[base + n - 1] as int,
            ),
        )
    }
}

/// Saturating dot product of two whole rows as an element value.
pub open spec fn dot_row_e(a: Seq<i64>, b: Seq<i64>) -> i64 {
    dot_s(a, b, 0, a.len()) as i64
}

/// The fold underlying `dot_s` always stays in the element range.
pub proof fn lemma_dot_in_range(a: Seq<i64>, b: Seq<i64>, base: int, n: nat)
    ensures
        i64::MIN as int <= dot_s(a, b, base, n) <= i64::MAX as int,
    decreases n,
{
    if n != 0 {
        lemma_dot_in_range(a, b, base, (n - 1) as nat);
    }
}

/// Dot product over a column block.
pub fn dot_block(a: &Vec<i64>, b: &Vec<i64>, base: usize, n: usize) -> (r: i64)
    requires
        base + n <= a.len(),
        base + n <= b.len(),
    ensures
        r as int == dot_s(a@, b@, base as int, n as nat),
{
    let mut acc: i64 = 0;
    let mut i: usize = 0;
    while i < n
        invariant
            i <= n,
            base + n <= a.len(),
            base + n <= b.len(),
            acc as int == dot_s(a@, b@, base as int, i as nat),
        decreases n - i,
    {
        acc = sat_add(acc, sat_mul(a[base + i], b[base + i]));
        i += 1;
    }
    acc
}

/// Dot product of two whole rows.
pub fn dot_row(a: &Vec<i64>, b: &Vec<i64>) -> (r: i64)
    requires
        a.len() == b.len(),
    ensures
        r == dot_row_e(a@, b@),
{
    proof {
        lemma_dot_in_range(a@, b@, 0, a@.len());
    }
    dot_block(a, b, 0, a.len())
}

pub fn clone_row(a: &Vec<i64>) -> (r: Vec<i64>)
    ensures
        r@ == a@,
{
    let mut out: Vec<i64> = Vec::new();
    let mut i: usize = 0;
    while i < a.len()
        invariant
            i <= a.len(),
            out@ == a@.take(i as int),
        decreases a.len() - i,
    {
        let x: i64 = a[i];
        out.push(x);
        proof {
            assert(a@.take(i + 1) =~= a@.take(i as int).push(a@[i as int]));
        }
        i += 1;
    }
    proof {
        assert(a@.take(a@.len() as int) =~= a@);
    }
    out
}

pub fn clone_matrix(m: &Matrix) -> (r: Matrix)
    ensures
        mat_view(&r) == mat_view(m),
{
    let mut out: Matrix = Vec::new();
    let mut i: usize = 0;
    while i < m.len()
        invariant
            i <= m.len(),
            mat_view(&out) == mat_view(m).take(i as int),
        decreases m.len() - i,
    {
        let row = clone_row(&m[i]);
        let ghost prev = out@;
        out.push(row);
        proof {
            lemma_rows_view_push(prev, row);
            assert(mat_view(m).take(i as int).push(m@[i as int]@) =~= mat_view(m).take(i + 1));
        }
        i += 1;
    }
    proof {
        assert(mat_view(m).take(m@.len() as int) =~= mat_view(m));
    }
    out
}

/// Rows of `a` followed by rows of `b`.
pub fn concat_rows(a: &Matrix, b: &Matrix) -> (r: Matrix)
    ensures
        mat_view(&r) == mat_view(a) + mat_view(b),
{
    let mut out: Matrix = clone_matrix(a);
    let mut i: usize = 0;
    proof {
        assert(mat_view(a) + mat_view(b).take(0) =~= mat_view(a));
    }
    while i < b.len()
        invariant
            i <= b.len(),
            mat_view(&out) == mat_view(a) + mat_view(b).take(i as int),
        decreases b.len() - i,
    {
        let row = clone_row(&b[i]);
        let ghost prev = out@;
        out.push(row);
        proof {
            lemma_rows_view_push(prev, row);
            assert((mat_view(a) + mat_view(b).take(i as int)).push(b@[i as int]@) =~= mat_view(a)
                + mat_view(b).take(i + 1));
        }
        i += 1;
    }
    proof {
        assert(mat_view(a) + mat_view(b).take(b@.len() as int) =~= mat_view(a) + mat_view(b));
    }
    out
}

/// The last `keep` rows of `m`, in order: the drop-oldest truncation step.
pub fn keep_last_rows(m: &Matrix, keep: usize) -> (r: Matrix)
    requires
        keep <= m.len(),
    ensures
        mat_view(&r) == mat_view(m).skip(m@.len() - keep),
{
    let start: usize = m.len() - keep;
    let mut out: Matrix = Vec::new();
    let mut i: usize = start;
    while i < m.len()
        invariant
            start <= i <= m.len(),
            start == m@.len() - keep,
            mat_view(&out) == mat_view(m).subrange(start as int, i as int),
        decreases m.len() - i,
    {
        let row = clone_row(&m[i]);
        let ghost prev = out@;
        out.push(row);
        proof {
            lemma_rows_view_push(prev, row);
            assert(mat_view(m).subrange(start as int, i as int).push(m@[i as int]@)
                =~= mat_view(m).subrange(start as int, i + 1));
        }
        i += 1;
    }
    proof {
        assert(mat_view(m).subrange(start as int, m@.len() as int) =~= mat_view(m).skip(
            m@.len() - keep,
        ));
    }
    out
}

/// Pointwise saturating sum of two matrices of equal shape.
pub open spec fn mat_add_s(a: Seq<Seq<i64>>, b: Seq<Seq<i64>>) -> Seq<Seq<i64>> {
    Seq::new(a.len(), |i: int| Seq::new(a[i].len(), |j: int| sat_add_e(a[i][j], b[i][j])))
}

/// Residual addition: both operands must have the same shape, the unchecked
/// shape requirement of the residual connections.
pub fn mat_add(a: &Matrix, b: &Matrix, rows: usize, cols: usize) -> (r: Matrix)
    requires
        mat_wf(mat_view(a), rows as int, cols as int),
        mat_wf(mat_view(b), rows as int, cols as int),
    ensures
        mat_view(&r) == mat_add_s(mat_view(a), mat_view(b)),
        mat_wf(mat_view(&r), rows as int, cols as int),
{
    let ghost target = mat_add_s(mat_view(a), mat_view(b));
    let mut out: Matrix = Vec::new();
    let mut i: usize = 0;
    while i < rows
        invariant
            i <= rows,
            mat_wf(mat_view(a), rows as int, cols as int),
            mat_wf(mat_view(b), rows as int, cols as int),
            a.len() == rows,
            b.len() == rows,
            target == mat_add_s(mat_view(a), mat_view(b)),
            mat_view(&out) == target.take(i as int),
        decreases rows - i,
    {
        proof {
            assert(mat_view(a)[i as int].len() == cols);
            assert(mat_view(b)[i as int].len() == cols);
        }
        let mut row: Vec<i64> = Vec::new();
        let mut j: usize = 0;
        while j < cols
            invariant
                j <= cols,
                i < rows,
                a.len() == rows,
                b.len() == rows,
                a@[i as int]@.len() == cols,
                b@[i as int]@.len() == cols,
                target == mat_add_s(mat_view(a), mat_view(b)),
                target[i as int].len() == cols,
                row@ == target[i as int].take(j as int),
            decreases cols - j,
        {
            let x = sat_add(a[i][j], b[i][j]);
            row.push(x);
            proof {
                assert(target[i as int].take(j + 1) =~= target[i as int].take(j as int).push(
                    target[i as int][j as int],
                ));
            }
            j += 1;
        }
        proof {
            assert(row@ =~= target[i as int]);
        }
        let ghost prev = out@;
        out.push(row);
        proof {
            lemma_rows_view_push(prev, row);
            assert(target.take(i as int).push(target[i as int]) =~= target.take(i + 1));
        }
        i += 1;
    }
    proof {
        assert(target.take(rows as int) =~= target);
        assert(forall|k: int| 0 <= k < rows ==> (#[trigger] target[k]).len() == cols);
    }
    out
}

/// Row-wise linear projection: output row `t`, column `j` is the saturating
/// dot product of input row `t` with weight row `j` (weights are stored as
/// one row per output feature).
pub open spec fn linear_s(x: Seq<Seq<i64>>, w: Seq<Seq<i64>>) -> Seq<Seq<i64>> {
    Seq::new(x.len(), |t: int| Seq::new(w.len(), |j: int| dot_row_e(x[t], w[j])))
}

/// Apply a projection with `w.len()` output features to every row of `x`.
pub fn linear_apply(x: &Matrix, w: &Matrix, in_dim: usize) -> (r: Matrix)
    requires
        mat_wf(mat_view(x), x@.len() as int, in_dim as int),
        mat_wf(mat_view(w), w@.len() as int, in_dim as int),
    ensures
        mat_view(&r) == linear_s(mat_view(x), mat_view(w)),
        mat_wf(mat_view(&r), x@.len() as int, w@.len() as int),
{
    let ghost target = linear_s(mat_view(x), mat_view(w));
    let rows: usize = x.len();
    let cols: usize = w.len();
    let mut out: Matrix = Vec::new();
    let mut i: usize = 0;
    while i < rows
        invariant
            i <= rows,
            rows == x.len(),
            cols == w.len(),
            mat_wf(mat_view(x), rows as int, in_dim as int),
            mat_wf(mat_view(w), cols as int, in_dim as int),
            target == linear_s(mat_view(x), mat_view(w)),
            mat_view(&out) == target.take(i as int),
        decreases rows - i,
    {
        proof {
            assert(mat_view(x)[i as int].len() == in_dim);
        }
        let mut row: Vec<i64> = Vec::new();
        let mut j: usize = 0;
        while j < cols
            invariant
                j <= cols,
                i < rows,
                rows == x.len(),
                cols == w.len(),
                x@[i as int]@.len() == in_dim,
                mat_wf(mat_view(x), rows as int, in_dim as int),
                mat_wf(mat_view(w), cols as int, in_dim as int),
                target == linear_s(mat_view(x), mat_view(w)),
                target[i as int].len() == cols,
                row@ == target[i as int].take(j as int),
            decreases cols - j,
        {
            proof {
                assert(mat_view(w)[j as int].len() == in_dim);
            }
            let d = dot_row(&x[i], &w[j]);
            row.push(d);
            proof {
                assert(target[i as int].take(j + 1) =~= target[i as int].take(j as int).push(
                    target[i as int][j as int],
                ));
            }
            j += 1;
        }
        proof {
            assert(row@ =~= target[i as int]);
        }
        let ghost prev = out@;
        out.push(row);
        proof {
            lemma_rows_view_push(prev, row);
            assert(target.take(i as int).push(target[i as int]) =~= target.take(i + 1));
        }
        i += 1;
    }
    proof {
        assert(target.take(rows as int) =~= target);
        assert(forall|k: int| 0 <= k < rows ==> (#[trigger] target[k]).len() == cols);
    }
    out
}


/// Check the shape of a matrix at run time.
pub fn mat_has_shape(m: &Matrix, rows: usize, cols: usize) -> (r: bool)
    ensures
        r == mat_wf(mat_view(m), rows as int, cols as int),
{
    if m.len() != rows {
        return false;
    }
    let mut i: usize = 0;
    while i < rows
        invariant
            i <= rows,
            rows == m.len(),
            forall|k: int| 0 <= k < i ==> (#[trigger] mat_view(m)[k]).len() == cols,
        decreases rows - i,
    {
        if m[i].len() != cols {
            proof {
                assert(mat_view(m)[i as int].len() != cols);
            }
            return false;
        }
        proof {
            assert(mat_view(m)[i as int].len() == cols);
        }
        i += 1;
    }
    true
}

/// Pointwise saturating multiplication of a matrix by a scalar.
pub open spec fn mat_scale_s(c: i64, m: Seq<Seq<i64>>) -> Seq<Seq<i64>> {
    Seq::new(m.len(), |i: int| Seq::new(m[i].len(), |j: int| sat_mul_e(c, m[i][j])))
}

pub fn mat_scale(c: i64, m: &Matrix, rows: usize, cols: usize) -> (r: Matrix)
    requires
        mat_wf(mat_view(m), rows as int, cols as int),
    ensures
        mat_view(&r) == mat_scale_s(c, mat_view(m)),
        mat_wf(mat_view(&r), rows as int, cols as int),
{
    let ghost target = mat_scale_s(c, mat_view(m));
    let mut out: Matrix = Vec::new();
    let mut i: usize = 0;
    while i < rows
        invariant
            i <= rows,
            mat_wf(mat_view(m), rows as int, cols as int),
            m.len() == rows,
            target == mat_scale_s(c, mat_view(m)),
            mat_view(&out) == target.take(i as int),
        decreases rows - i,
    {
        proof {
            assert(mat_view(m)[i as int].len() == cols);
        }
        let mut row: Vec<i64> = Vec::new();
        let mut j: usize = 0;
        while j < cols
            invariant
                j <= cols,
                i < rows,
                m.len() == rows,
                m@[i as int]@.len() == cols,
                target == mat_scale_s(c, mat_view(m)),
                target[i as int].len() == cols,
                row@ == target[i as int].take(j as int),
            decreases cols - j,
        {
            let x = sat_mul(c, m[i][j]);
            row.push(x);
            proof {
                assert(target[i as int].take(j + 1) =~= target[i as int].take(j as int).push(
                    target[i as int][j as int],
                ));
            }
            j += 1;
        }
        proof {
            assert(row@ =~= target[i as int]);
        }
        let ghost prev = out@;
        out.push(row);
        proof {
            lemma_rows_view_push(prev, row);
            assert(target.take(i as int).push(target[i as int]) =~= target.take(i + 1));
        }
        i += 1;
    }
    proof {
        assert(target.take(rows as int) =~= target);
        assert(forall|k: int| 0 <= k < rows ==> (#[trigger] target[k]).len() == cols);
    }
    out
}

/// View of a sequence of matrices as a sequence of matrix views.
pub open spec fn mats_view(s: Seq<Matrix>) -> Seq<Seq<Seq<i64>>> {
    Seq::new(s.len(), |i: int| mat_view(&s[i]))
}


/// The gated feed-forward combination: the activation of `a`, times `b`,
/// pointwise.
pub open spec fn gated_mul_s(a: Seq<Seq<i64>>, b: Seq<Seq<i64>>) -> Seq<Seq<i64>> {
    Seq::new(
        a.len(),
        |i: int| Seq::new(a[i].len(), |j: int| sat_mul_e(silu_gate_e(a[i][j]), b[i][j])),
    )
}

pub fn gated_mul(a: &Matrix, b: &Matrix, rows: usize, cols: usize) -> (r: Matrix)
    requires
        mat_wf(mat_view(a), rows as int, cols as int),
        mat_wf(mat_view(b), rows as int, cols as int),
    ensures
        mat_view(&r) == gated_mul_s(mat_view(a), mat_view(b)),
        mat_wf(mat_view(&r), rows as int, cols as int),
{
    let ghost target = gated_mul_s(mat_view(a), mat_view(b));
    let mut out: Matrix = Vec::new();
    let mut i: usize = 0;
    while i < rows
        invariant
            i <= rows,
            mat_wf(mat_view(a), rows as int, cols as int),
            mat_wf(mat_view(b), rows as int, cols as int),
            a.len() == rows,
            b.len() == rows,
            target == gated_mul_s(mat_view(a), mat_view(b)),
            mat_view(&out) == target.take(i as int),
        decreases rows - i,
    {
        proof {
            assert(mat_view(a)[i as int].len() == cols);
            assert(mat_view(b)[i as int].len() == cols);
        }
        let mut row: Vec<i64> = Vec::new();
        let mut j: usize = 0;
        while j < cols
            invariant
                j <= cols,
                i < rows,
                a.len() == rows,
                b.len() == rows,
                a@[i as int]@.len() == cols,
                b@[i as int]@.len() == cols,
                target == gated_mul_s(mat_view(a), mat_view(b)),
                target[i as int].len() == cols,
                row@ == target[i as int].take(j as int),
            decreases cols - j,
        {
            let x = sat_mul(silu_gate(a[i][j]), b[i][j]);
            row.push(x);
            proof {
                assert(target[i as int].take(j + 1) =~= target[i as int].take(j as int).push(
                    target[i as int][j as int],
                ));
            }
            j += 1;
        }
        proof {
            assert(row@ =~= target[i as int]);
        }
        let ghost prev = out@;
        out.push(row);
        proof {
            lemma_rows_view_push(prev, row);
            assert(target.take(i as int).push(target[i as int]) =~= target.take(i + 1));
        }
        i += 1;
    }
    proof {
        assert(target.take(rows as int) =~= target);
        assert(forall|k: int| 0 <= k < rows ==> (#[trigger] target[k]).len() == cols);
    }
    out
}

} // verus!
