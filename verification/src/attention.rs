//! Causal self-attention with rotary positions, grouped-query repetition,
//! key-value caching with drop-oldest truncation, and the masked scaled
//! dot-product path.
//!
//! One forward call projects the hidden states to query/key/value through
//! the adapter-capable projections, rotates query and key by absolute
//! position, folds the new key/value into the active cache slot (capping the
//! kept rows at the configured maximum by dropping the oldest), repeats the
//! key/value heads up to the query head count, computes masked attention in
//! the saturating integer domain, and projects the mixed values back out.
//! A fused attention kernel is a floating-point primitive outside the
//! model; the explicit path is the one modelled here.

use vstd::pervasive::VecAdditionalExecFns;
use vstd::prelude::*;

use crate::adapter::{
    adapter_forward_s, lemma_linear_span_nonneg, linear_loaded_s, linear_span_s,
    opt_scalings_view, AdapterLinear, Scalings,
};
use crate::cache::{caches_view, slot_view, LayerCaches};
use crate::error::ModelError;
use crate::masks;
use crate::matrix::{
    clone_matrix, concat_rows, dot_block, dot_s, keep_last_rows, lemma_rows_view_push, mat_view,
    mat_wf, Matrix,
};
use crate::config::Config;
use crate::rotary::{rotary_apply, rotary_s};
use crate::weights::WeightSource;
use crate::scalar::{
    attn_weight, attn_weight_s, div_trunc, div_trunc_s, is_isqrt, isqrt, isqrt_s, sat_add, sat_i,
    sat_mul, sat_sub, ATTN_UNIT,
};

verus! {

/// The fill value for masked scores: the model's negative infinity.
pub const NEG_FILL: i64 = i64::MIN;

/// The least value an attendable score can take. Real scores are clamped
/// here so that the fill value stays at least `ATTN_UNIT` below every
/// attendable score and masked positions always weigh exactly zero, as
/// `-inf` does under a real softmax.
pub const SCORE_FLOOR: i64 = i64::MIN + ATTN_UNIT;

/// The scaled dot-product score of query row `i` against key row `j`,
/// restricted to the column block of head `h`, clamped at `SCORE_FLOOR`.
pub open spec fn score_s(
    q: Seq<Seq<i64>>,
    kk: Seq<Seq<i64>>,
    h: int,
    hd: int,
    scale: int,
    i: int,
    j: int,
) -> i64 {
    let raw = div_trunc_s(dot_s(q[i], kk[j], h * hd, hd as nat), scale);
    if raw < SCORE_FLOOR as int {
        SCORE_FLOOR
    } else {
        raw as i64
    }
}

/// The score after causal masking. A call with a single query row attends
/// to every cached position (the broadcast of a one-by-one mask masks
/// nothing); a longer call is masked strictly above the diagonal.
pub open spec fn masked_score_s(
    q: Seq<Seq<i64>>,
    kk: Seq<Seq<i64>>,
    h: int,
    hd: int,
    scale: int,
    seq_len: int,
    i: int,
    j: int,
) -> i64 {
    if seq_len > 1 && j > i {
        NEG_FILL
    } else {
        score_s(q, kk, h, hd, scale, i, j)
    }
}

/// The whole masked score row of query `i` for head `h`.
pub open spec fn score_row_s(
    q: Seq<Seq<i64>>,
    kk: Seq<Seq<i64>>,
    h: int,
    hd: int,
    scale: int,
    seq_len: int,
    i: int,
) -> Seq<i64> {
    Seq::new(kk.len(), |j: int| masked_score_s(q, kk, h, hd, scale, seq_len, i, j))
}

/// Maximum of the first `n` entries of a row.
pub open spec fn row_max_s(row: Seq<i64>, n: nat) -> int
    recommends
        1 <= n <= row.len(),
    decreases n,
{
    if n <= 1 {
        row[0] as int
    } else {
        let m = row_max_s(row, (n - 1) as nat);
        if row[n - 1] as int > m {
            row[n - 1] as int
        } else {
            m
        }
    }
}

/// The attention weight of position `j`, relative to the row maximum `m`.
pub open spec fn weight_at_s(row: Seq<i64>, m: int, j: int) -> int {
    attn_weight_s(sat_i(row[j] - m))
}

/// Saturating sum of the first `n` attention weights: the softmax-surrogate
/// denominator.
pub open spec fn wsum_s(row: Seq<i64>, m: int, n: nat) -> int
    decreases n,
{
    if n == 0 {
        0
    } else {
        sat_i(wsum_s(row, m, (n - 1) as nat) + weight_at_s(row, m, n - 1))
    }
}

/// Saturating weighted sum of column `c` of the values.
pub open spec fn wvsum_s(row: Seq<i64>, m: int, vv: Seq<Seq<i64>>, c: int, n: nat) -> int
    decreases n,
{
    if n == 0 {
        0
    } else {
        sat_i(
            wvsum_s(row, m, vv, c, (n - 1) as nat) + sat_i(
                weight_at_s(row, m, n - 1) * vv[n - 1][c] as int,
            ),
        )
    }
}

/// One output element of the attention mix: the normalized weighted value.
pub open spec fn attend_elem_s(
    q: Seq<Seq<i64>>,
    kk: Seq<Seq<i64>>,
    vv: Seq<Seq<i64>>,
    hd: int,
    scale: int,
    seq_len: int,
    i: int,
    c: int,
) -> i64 {
    let row = score_row_s(q, kk, h_of(c, hd), hd, scale, seq_len, i);
    let m = row_max_s(row, row.len());
    div_trunc_s(wvsum_s(row, m, vv, c, row.len()), wsum_s(row, m, row.len())) as i64
}

/// The head a column belongs to.
pub open spec fn h_of(c: int, hd: int) -> int {
    c / hd
}

/// The full attention mix: `seq_len` rows of `out_cols` columns.
pub open spec fn attend_s(
    q: Seq<Seq<i64>>,
    kk: Seq<Seq<i64>>,
    vv: Seq<Seq<i64>>,
    out_cols: int,
    hd: int,
    scale: int,
    seq_len: int,
) -> Seq<Seq<i64>> {
    Seq::new(
        seq_len as nat,
        |i: int| Seq::new(out_cols as nat, |c: int| attend_elem_s(q, kk, vv, hd, scale, seq_len, i, c)),
    )
}

/// Key/value heads repeated contiguously up to the query head count:
/// output column `c` reads the input head `(c / hd) / n_rep`.
pub open spec fn repeat_kv_s(x: Seq<Seq<i64>>, hd: int, n_rep: int, out_cols: int) -> Seq<
    Seq<i64>,
> {
    Seq::new(
        x.len(),
        |t: int| Seq::new(out_cols as nat, |c: int| x[t][((c / hd) / n_rep) * hd + c % hd]),
    )
}

/// Drop-oldest truncation: once the row count passes `threshold`, keep only
/// the most recent `keep` rows.
pub open spec fn trunc_rows_s(m: Seq<Seq<i64>>, threshold: int, keep: int) -> Seq<Seq<i64>> {
    if m.len() > threshold {
        m.skip(m.len() - keep)
    } else {
        m
    }
}

/// The cache slot after folding in freshly computed key/value rows: the new
/// rows are appended to whatever was cached and each side is truncated at
/// its own threshold.
pub open spec fn cache_update_s(
    prev: Option<(Seq<Seq<i64>>, Seq<Seq<i64>>)>,
    k: Seq<Seq<i64>>,
    v: Seq<Seq<i64>>,
    k_threshold: int,
    v_threshold: int,
    keep: int,
) -> (Seq<Seq<i64>>, Seq<Seq<i64>>) {
    match prev {
        None => (k, v),
        Some(kv) => (
            trunc_rows_s(kv.0 + k, k_threshold, keep),
            trunc_rows_s(kv.1 + v, v_threshold, keep),
        ),
    }
}

/// The most recent `keep` rows of a stream (all of it while shorter).
pub open spec fn suffix_s(s: Seq<Seq<i64>>, keep: int) -> Seq<Seq<i64>> {
    if s.len() <= keep {
        s
    } else {
        s.skip(s.len() - keep)
    }
}

/// The row maximum is attained and bounds every entry.
pub proof fn lemma_row_max_attained(row: Seq<i64>, n: nat)
    requires
        1 <= n <= row.len(),
    ensures
        exists|j: int| 0 <= j < n && row[j] as int == row_max_s(row, n),
        forall|j: int| 0 <= j < n ==> row[j] as int <= row_max_s(row, n),
    decreases n,
{
    if n > 1 {
        lemma_row_max_attained(row, (n - 1) as nat);
    } else {
        assert(row[0] as int == row_max_s(row, n));
    }
}

/// The weight sum dominates every single weight (weights are non-negative).
pub proof fn lemma_wsum_lower(row: Seq<i64>, m: int, n: nat, j: int)
    requires
        0 <= j < n,
    ensures
        weight_at_s(row, m, j) <= wsum_s(row, m, n) <= i64::MAX as int,
        0 <= wsum_s(row, m, n),
    decreases n,
{
    assert(0 <= weight_at_s(row, m, n - 1) <= ATTN_UNIT as int);
    if j < n - 1 {
        lemma_wsum_lower(row, m, (n - 1) as nat, j);
    } else if n > 1 {
        lemma_wsum_lower(row, m, (n - 1) as nat, n - 2);
    }
}

/// With `m` the attained row maximum, the weight-sum denominator is at
/// least `ATTN_UNIT`, in particular positive.
pub proof fn lemma_denom_positive(row: Seq<i64>, n: nat)
    requires
        1 <= n <= row.len(),
    ensures
        ATTN_UNIT as int <= wsum_s(row, row_max_s(row, n), n) <= i64::MAX as int,
{
    lemma_row_max_attained(row, n);
    let m = row_max_s(row, n);
    let j = choose|j: int| 0 <= j < n && row[j] as int == m;
    assert(weight_at_s(row, m, j) == ATTN_UNIT as int);
    lemma_wsum_lower(row, m, n, j);
}

/// Grouped-query repetition: with `headsQ = kv_heads * n_rep` output heads,
/// each group of `n_rep` consecutive output heads is identical to its
/// source key/value head. Output head `g * n_rep + r`, column `d`, equals
/// input head `g`, column `d`.
pub proof fn lemma_grouped_repetition(
    x: Seq<Seq<i64>>,
    hd: int,
    n_rep: int,
    kv_heads: int,
    t: int,
    g: int,
    r: int,
    d: int,
)
    requires
        1 <= hd,
        1 <= n_rep,
        0 <= t < x.len(),
        0 <= g < kv_heads,
        0 <= r < n_rep,
        0 <= d < hd,
    ensures
        repeat_kv_s(x, hd, n_rep, kv_heads * n_rep * hd)[t][(g * n_rep + r) * hd + d] == x[t][g * hd
            + d],
{
    let c = (g * n_rep + r) * hd + d;
    assert(0 <= c < kv_heads * n_rep * hd) by (nonlinear_arith)
        requires
            c == (g * n_rep + r) * hd + d,
            0 <= g < kv_heads,
            0 <= r < n_rep,
            0 <= d < hd,
            1 <= hd,
            1 <= n_rep,
    ;
    assert(c / hd == g * n_rep + r && c % hd == d) by (nonlinear_arith)
        requires
            c == (g * n_rep + r) * hd + d,
            0 <= d < hd,
            0 <= g * n_rep + r,
            1 <= hd,
    ;
    assert((g * n_rep + r) / n_rep == g) by (nonlinear_arith)
        requires
            0 <= r < n_rep,
            0 <= g,
            1 <= n_rep,
    ;
}

/// Drop-oldest truncation retains exactly the most recent rows: if a cache
/// side holds the most recent `keep` rows of everything appended so far,
/// then appending the next rows and truncating at a threshold equal to
/// `keep` leaves exactly the most recent `keep` rows of the extended
/// stream. Applied step by step, a cache fed one row at a time holds
/// exactly the most recent `keep` rows at every step past the limit.
pub proof fn lemma_truncation_retains_most_recent(
    stream: Seq<Seq<i64>>,
    cached: Seq<Seq<i64>>,
    fresh: Seq<Seq<i64>>,
    keep: int,
)
    requires
        1 <= keep,
        cached == suffix_s(stream, keep),
    ensures
        trunc_rows_s(cached + fresh, keep, keep) == suffix_s(stream + fresh, keep),
{
    let lhs = trunc_rows_s(cached + fresh, keep, keep);
    let rhs = suffix_s(stream + fresh, keep);
    assert(lhs =~= rhs);
}


pub struct CausalSelfAttention {
    pub q_proj: AdapterLinear,
    pub k_proj: AdapterLinear,
    pub v_proj: AdapterLinear,
    pub o_proj: AdapterLinear,
    pub num_attention_heads: usize,
    pub num_key_value_heads: usize,
    pub head_dim: usize,
    /// The integer square root of `head_dim`, fixed at load time.
    pub sqrt_head_dim: i64,
    pub hidden_size: usize,
    /// The cap shared with the rotary table: at most this many key/value
    /// rows are ever kept.
    pub max_seq_len: usize,
    /// Row count past which the key side is truncated.
    pub k_threshold: usize,
    /// Row count past which the value side is truncated.
    pub v_threshold: usize,
}

impl CausalSelfAttention {
    pub open spec fn n_rep(&self) -> int {
        self.num_attention_heads as int / self.num_key_value_heads as int
    }

    pub open spec fn wf(&self) -> bool {
        &&& 1 <= self.num_key_value_heads
        &&& 1 <= self.num_attention_heads
        &&& self.num_attention_heads % self.num_key_value_heads == 0
        &&& 2 <= self.head_dim <= 0xffff_ffff
        &&& self.head_dim % 2 == 0
        &&& is_isqrt(self.head_dim as int, self.sqrt_head_dim as int)
        &&& self.q_proj.wf()
        &&& self.k_proj.wf()
        &&& self.v_proj.wf()
        &&& self.o_proj.wf()
        &&& self.q_proj.in_features == self.hidden_size
        &&& self.k_proj.in_features == self.hidden_size
        &&& self.v_proj.in_features == self.hidden_size
        &&& self.q_proj.out_features as int == self.num_attention_heads * self.head_dim
        &&& self.k_proj.out_features as int == self.num_key_value_heads * self.head_dim
        &&& self.v_proj.out_features as int == self.num_key_value_heads * self.head_dim
        &&& self.o_proj.in_features == self.q_proj.out_features
        &&& self.o_proj.out_features == self.hidden_size
        &&& 1 <= self.max_seq_len
        &&& self.max_seq_len <= self.k_threshold
        &&& self.max_seq_len <= self.v_threshold
    }

    /// All four projections accept the scaling tensor.
    pub open spec fn accepts(&self, sv: Option<Seq<Seq<i64>>>) -> bool {
        &&& self.q_proj.accepts(sv)
        &&& self.k_proj.accepts(sv)
        &&& self.v_proj.accepts(sv)
        &&& self.o_proj.accepts(sv)
    }

    /// A cache slot this attention can fold its key/value rows into.
    pub open spec fn slot_wf(&self, s: Option<(Seq<Seq<i64>>, Seq<Seq<i64>>)>) -> bool {
        match s {
            None => true,
            Some(kv) => mat_wf(kv.0, kv.0.len() as int, self.k_proj.out_features as int) && mat_wf(
                kv.1,
                kv.1.len() as int,
                self.k_proj.out_features as int,
            ),
        }
    }

    /// Repeat each key/value head `n_rep` times so that grouped-query
    /// attention can mix per query head.
    pub fn repeat_kv(&self, x: &Matrix) -> (r: Matrix)
        requires
            self.wf(),
            mat_wf(mat_view(x), x@.len() as int, self.k_proj.out_features as int),
        ensures
            mat_view(&r) == repeat_kv_s(
                mat_view(x),
                self.head_dim as int,
                self.n_rep(),
                self.q_proj.out_features as int,
            ),
            mat_wf(mat_view(&r), x@.len() as int, self.q_proj.out_features as int),
    {
        let n_rep: usize = self.num_attention_heads / self.num_key_value_heads;
        let hd: usize = self.head_dim;
        let out_cols: usize = self.q_proj.out_features;
        let in_cols: usize = self.k_proj.out_features;
        proof {
            vstd::arithmetic::div_mod::lemma_fundamental_div_mod(
                self.num_attention_heads as int,
                self.num_key_value_heads as int,
            );
            assert(1 <= (n_rep as int) && (self.num_attention_heads as int) == (
            self.num_key_value_heads as int) * (n_rep as int)) by (nonlinear_arith)
                requires
                    (n_rep as int) == (self.num_attention_heads as int) / (
                    self.num_key_value_heads as int),
                    (self.num_attention_heads as int) == (self.num_key_value_heads as int) * ((
                    self.num_attention_heads as int) / (self.num_key_value_heads as int)) + (
                    self.num_attention_heads as int) % (self.num_key_value_heads as int),
                    self.num_attention_heads % self.num_key_value_heads == 0,
                    1 <= self.num_key_value_heads,
                    1 <= self.num_attention_heads,
            ;
        }
        let ghost target = repeat_kv_s(mat_view(x), hd as int, n_rep as int, out_cols as int);
        let mut out: Matrix = Vec::new();
        let mut t: usize = 0;
        while t < x.len()
            invariant
                t <= x.len(),
                self.wf(),
                n_rep as int == self.n_rep(),
                1 <= n_rep,
                (self.num_attention_heads as int) == (self.num_key_value_heads as int) * (
                n_rep as int),
                hd == self.head_dim,
                out_cols == self.q_proj.out_features,
                in_cols == self.k_proj.out_features,
                mat_wf(mat_view(x), x@.len() as int, in_cols as int),
                target == repeat_kv_s(mat_view(x), hd as int, n_rep as int, out_cols as int),
                mat_view(&out) == target.take(t as int),
            decreases x.len() - t,
        {
            proof {
                assert(mat_view(x)[t as int].len() == in_cols);
            }
            let src = &x[t];
            let ghost trow = target[t as int];
            let mut row: Vec<i64> = Vec::new();
            let mut c: usize = 0;
            while c < out_cols
                invariant
                    c <= out_cols,
                    1 <= n_rep,
                    2 <= hd,
                    out_cols as int == self.num_attention_heads * hd,
                    in_cols as int == self.num_key_value_heads * hd,
                    (self.num_attention_heads as int) == (self.num_key_value_heads as int) * (
                    n_rep as int),
                    src@.len() == in_cols,
                    trow == target[t as int],
                    trow.len() == out_cols,
                    t < x.len(),
                    target == repeat_kv_s(mat_view(x), hd as int, n_rep as int, out_cols as int),
                    mat_view(x)[t as int] == src@,
                    row@ == trow.take(c as int),
                decreases out_cols - c,
            {
                proof {
                    assert((((c as int) / (hd as int)) / (n_rep as int)) * (hd as int) + ((
                    c as int) % (hd as int)) < (in_cols as int)) by (nonlinear_arith)
                        requires
                            0 <= (c as int),
                            (c as int) < (self.num_attention_heads as int) * (hd as int),
                            (in_cols as int) == (self.num_key_value_heads as int) * (hd as int),
                            (self.num_attention_heads as int) == (self.num_key_value_heads as int)
                                * (n_rep as int),
                            1 <= n_rep,
                            2 <= hd,
                    ;
                }
                let src_col: usize = ((c / hd) / n_rep) * hd + c % hd;
                let v: i64 = src[src_col];
                row.push(v);
                proof {
                    assert(v == trow[c as int]);
                    assert(trow.take(c + 1) =~= trow.take(c as int).push(trow[c as int]));
                }
                c += 1;
            }
            proof {
                assert(row@ =~= trow);
            }
            let ghost prev = out@;
            out.push(row);
            proof {
                lemma_rows_view_push(prev, row);
                assert(target.take(t as int).push(target[t as int]) =~= target.take(t + 1));
            }
            t += 1;
        }
        proof {
            assert(target.take(x@.len() as int) =~= target);
            assert(forall|i: int|
                0 <= i < target.len() ==> (#[trigger] target[i]).len() == out_cols);
        }
        out
    }
}

/// The explicit masked attention path over one sequence: scores, causal
/// mask, softmax-surrogate weighting, value mix. The mask for the current
/// sequence length is taken from (and memoized in) the mask cache.
fn attend(
    q: &Matrix,
    kk: &Matrix,
    vv: &Matrix,
    seq_len: usize,
    total: usize,
    out_cols: usize,
    hd: usize,
    scale: i64,
    cache: &mut masks::Cache,
) -> (r: Matrix)
    requires
        old(cache).wf(),
        mat_wf(mat_view(q), seq_len as int, out_cols as int),
        mat_wf(mat_view(kk), total as int, out_cols as int),
        mat_wf(mat_view(vv), total as int, out_cols as int),
        1 <= seq_len,
        1 <= total,
        seq_len > 1 ==> total == seq_len,
        1 <= scale,
        1 <= hd,
        out_cols % hd == 0,
    ensures
        final(cache).wf(),
        final(cache).use_kv_cache == old(cache).use_kv_cache,
        forall|u: int|
            0 <= u < old(cache).masks@.len() && (#[trigger] old(cache).masks@[u]) is Some ==> u
                < final(cache).masks@.len() && final(cache).masks@[u] == old(cache).masks@[u],
        mat_view(&r) == attend_s(
            mat_view(q),
            mat_view(kk),
            mat_view(vv),
            out_cols as int,
            hd as int,
            scale as int,
            seq_len as int,
        ),
        mat_wf(mat_view(&r), seq_len as int, out_cols as int),
{
    let mask = cache.mask(seq_len);
    let ghost target = attend_s(
        mat_view(q),
        mat_view(kk),
        mat_view(vv),
        out_cols as int,
        hd as int,
        scale as int,
        seq_len as int,
    );
    let mut out: Matrix = Vec::new();
    let mut i: usize = 0;
    while i < seq_len
        invariant
            i <= seq_len,
            mat_wf(mat_view(q), seq_len as int, out_cols as int),
            mat_wf(mat_view(kk), total as int, out_cols as int),
            mat_wf(mat_view(vv), total as int, out_cols as int),
            1 <= seq_len,
            1 <= total,
            seq_len > 1 ==> total == seq_len,
            1 <= scale,
            1 <= hd,
            out_cols % hd == 0,
            masks::bool_mat_view(&mask) == masks::causal_mask_s(seq_len as nat),
            target == attend_s(
                mat_view(q),
                mat_view(kk),
                mat_view(vv),
                out_cols as int,
                hd as int,
                scale as int,
                seq_len as int,
            ),
            mat_view(&out) == target.take(i as int),
        decreases seq_len - i,
    {
        proof {
            assert(mat_view(q)[i as int].len() == out_cols);
        }
        let qrow = &q[i];
        let ghost trow = target[i as int];
        let mut row: Vec<i64> = Vec::new();
        let mut c: usize = 0;
        while c < out_cols
            invariant
                c <= out_cols,
                i < seq_len,
                mat_wf(mat_view(q), seq_len as int, out_cols as int),
                mat_wf(mat_view(kk), total as int, out_cols as int),
                mat_wf(mat_view(vv), total as int, out_cols as int),
                1 <= seq_len,
                1 <= total,
                seq_len > 1 ==> total == seq_len,
                1 <= scale,
                1 <= hd,
                out_cols % hd == 0,
                qrow@ == mat_view(q)[i as int],
                qrow@.len() == out_cols,
                masks::bool_mat_view(&mask) == masks::causal_mask_s(seq_len as nat),
                target == attend_s(
                    mat_view(q),
                    mat_view(kk),
                    mat_view(vv),
                    out_cols as int,
                    hd as int,
                    scale as int,
                    seq_len as int,
                ),
                trow == target[i as int],
                trow.len() == out_cols,
                row@ == trow.take(c as int),
            decreases out_cols - c,
        {
            let h: usize = c / hd;
            proof {
                vstd::arithmetic::div_mod::lemma_fundamental_div_mod(c as int, hd as int);
                vstd::arithmetic::div_mod::lemma_fundamental_div_mod(
                    out_cols as int,
                    hd as int,
                );
                assert((h as int) * (hd as int) + (hd as int) <= out_cols as int)
                    by (nonlinear_arith)
                    requires
                        (h as int) == (c as int) / (hd as int),
                        0 <= (c as int) % (hd as int),
                        (c as int) % (hd as int) < (hd as int),
                        (c as int) == (hd as int) * ((c as int) / (hd as int)) + (c as int) % (
                        hd as int),
                        c < out_cols,
                        out_cols % hd == 0,
                        (out_cols as int) == (hd as int) * ((out_cols as int) / (hd as int)),
                        1 <= hd,
                ;
            }
            let base: usize = h * hd;
            let ghost srow = score_row_s(
                mat_view(q),
                mat_view(kk),
                h as int,
                hd as int,
                scale as int,
                seq_len as int,
                i as int,
            );
            let mut scores: Vec<i64> = Vec::new();
            let mut j: usize = 0;
            while j < total
                invariant
                    j <= total,
                    i < seq_len,
                    mat_wf(mat_view(q), seq_len as int, out_cols as int),
                    mat_wf(mat_view(kk), total as int, out_cols as int),
                    1 <= seq_len,
                    seq_len > 1 ==> total == seq_len,
                    1 <= scale,
                    1 <= hd,
                    base == h * hd,
                    base + hd <= out_cols,
                    qrow@ == mat_view(q)[i as int],
                    qrow@.len() == out_cols,
                    masks::bool_mat_view(&mask) == masks::causal_mask_s(seq_len as nat),
                    srow == score_row_s(
                        mat_view(q),
                        mat_view(kk),
                        h as int,
                        hd as int,
                        scale as int,
                        seq_len as int,
                        i as int,
                    ),
                    srow.len() == total,
                    scores@ == srow.take(j as int),
                decreases total - j,
            {
                proof {
                    assert(mat_view(kk)[j as int].len() == out_cols);
                }
                let krow = &kk[j];
                let d = dot_block(qrow, krow, base, hd);
                let raw = div_trunc(d, scale);
                let sc: i64 = if raw < SCORE_FLOOR {
                    SCORE_FLOOR
                } else {
                    raw
                };
                let masked: i64 = if seq_len > 1 {
                    proof {
                        assert(masks::bool_mat_view(&mask).len() == mask@.len());
                        assert(masks::causal_mask_s(seq_len as nat).len() == seq_len as nat);
                        assert(mask@.len() == seq_len);
                        assert(masks::bool_mat_view(&mask)[i as int] == mask@[i as int]@);
                        assert(masks::causal_mask_s(seq_len as nat)[i as int].len() == seq_len
                            as nat);
                        assert(mask@[i as int]@.len() == seq_len);
                        assert(masks::causal_mask_s(seq_len as nat)[i as int][j as int] == (
                        j as int > i as int));
                    }
                    if mask[i][j] {
                        NEG_FILL
                    } else {
                        sc
                    }
                } else {
                    sc
                };
                proof {
                    assert(masked == srow[j as int]);
                }
                scores.push(masked);
                proof {
                    assert(srow.take(j + 1) =~= srow.take(j as int).push(srow[j as int]));
                }
                j += 1;
            }
            proof {
                assert(scores@ =~= srow);
            }
            let mut mx: i64 = scores[0];
            let mut j2: usize = 1;
            while j2 < total
                invariant
                    1 <= j2 <= total,
                    scores@ == srow,
                    srow.len() == total,
                    mx as int == row_max_s(srow, j2 as nat),
                decreases total - j2,
            {
                let v = scores[j2];
                if v > mx {
                    mx = v;
                }
                j2 += 1;
            }
            let mut ws: i64 = 0;
            let mut wv: i64 = 0;
            let mut j3: usize = 0;
            while j3 < total
                invariant
                    j3 <= total,
                    scores@ == srow,
                    srow.len() == total,
                    mat_wf(mat_view(vv), total as int, out_cols as int),
                    c < out_cols,
                    mx as int == row_max_s(srow, total as nat),
                    ws as int == wsum_s(srow, mx as int, j3 as nat),
                    wv as int == wvsum_s(srow, mx as int, mat_view(vv), c as int, j3 as nat),
                decreases total - j3,
            {
                proof {
                    assert(mat_view(vv)[j3 as int].len() == out_cols);
                }
                let w = attn_weight(sat_sub(scores[j3], mx));
                ws = sat_add(ws, w);
                wv = sat_add(wv, sat_mul(w, vv[j3][c]));
                j3 += 1;
            }
            proof {
                lemma_denom_positive(srow, total as nat);
            }
            let e: i64 = div_trunc(wv, ws);
            row.push(e);
            proof {
                assert(e == trow[c as int]);
                assert(trow.take(c + 1) =~= trow.take(c as int).push(trow[c as int]));
            }
            c += 1;
        }
        proof {
            assert(row@ =~= trow);
        }
        let ghost prev = out@;
        out.push(row);
        proof {
            lemma_rows_view_push(prev, row);
            assert(target.take(i as int).push(target[i as int]) =~= target.take(i + 1));
        }
        i += 1;
    }
    proof {
        assert(target.take(seq_len as int) =~= target);
        assert(forall|k: int| 0 <= k < target.len() ==> (#[trigger] target[k]).len() == out_cols);
    }
    out
}


/// What one attention call computes: `None` when the call fails with a
/// shape error (malformed input, an empty sequence, key/value row counts
/// that disagree, or a mask that cannot be broadcast against the cached
/// rows), otherwise the output rows and the slot contents afterwards.
pub open spec fn attn_forward_s(
    att: CausalSelfAttention,
    x: Seq<Seq<i64>>,
    offset: int,
    prev: Option<(Seq<Seq<i64>>, Seq<Seq<i64>>)>,
    use_kv: bool,
    sv: Option<Seq<Seq<i64>>>,
    g: i64,
    p: Option<i64>,
) -> Option<(Seq<Seq<i64>>, Option<(Seq<Seq<i64>>, Seq<Seq<i64>>)>)> {
    let seq_len = x.len() as int;
    let hd = att.head_dim as int;
    if seq_len < 1 || !mat_wf(x, seq_len, att.hidden_size as int) {
        None
    } else {
        let q = rotary_s(adapter_forward_s(att.q_proj, x, sv, g, p), offset, hd);
        let k0 = rotary_s(adapter_forward_s(att.k_proj, x, sv, g, p), offset, hd);
        let v0 = adapter_forward_s(att.v_proj, x, sv, g, p);
        let kv = if use_kv {
            cache_update_s(
                prev,
                k0,
                v0,
                att.k_threshold as int,
                att.v_threshold as int,
                att.max_seq_len as int,
            )
        } else {
            (k0, v0)
        };
        let slot2 = if use_kv {
            Some(kv)
        } else {
            prev
        };
        let total = kv.0.len() as int;
        if kv.1.len() != kv.0.len() || (seq_len > 1 && total != seq_len) {
            None
        } else {
            let kk = repeat_kv_s(kv.0, hd, att.n_rep(), att.q_proj.out_features as int);
            let vv = repeat_kv_s(kv.1, hd, att.n_rep(), att.q_proj.out_features as int);
            let y = attend_s(
                q,
                kk,
                vv,
                att.q_proj.out_features as int,
                hd,
                att.sqrt_head_dim as int,
                seq_len,
            );
            Some((adapter_forward_s(att.o_proj, y, sv, g, p), slot2))
        }
    }
}

/// The slot contents after one attention call, whether or not the call
/// succeeds: once the input is well-shaped, the freshly folded pair is
/// stored before any later failure can surface, exactly as a failed call
/// may leave a partly mutated cache behind.
pub open spec fn attn_slot_after_s(
    att: CausalSelfAttention,
    x: Seq<Seq<i64>>,
    offset: int,
    prev: Option<(Seq<Seq<i64>>, Seq<Seq<i64>>)>,
    use_kv: bool,
    sv: Option<Seq<Seq<i64>>>,
    g: i64,
    p: Option<i64>,
) -> Option<(Seq<Seq<i64>>, Seq<Seq<i64>>)> {
    let seq_len = x.len() as int;
    let hd = att.head_dim as int;
    if seq_len < 1 || !mat_wf(x, seq_len, att.hidden_size as int) || !use_kv {
        prev
    } else {
        let k0 = rotary_s(adapter_forward_s(att.k_proj, x, sv, g, p), offset, hd);
        let v0 = adapter_forward_s(att.v_proj, x, sv, g, p);
        Some(
            cache_update_s(
                prev,
                k0,
                v0,
                att.k_threshold as int,
                att.v_threshold as int,
                att.max_seq_len as int,
            ),
        )
    }
}

impl CausalSelfAttention {
    /// One attention call over one sequence: project, rotate, fold into the
    /// active cache slot, repeat key/value heads, mix, project out.
    pub fn forward(
        &self,
        x: &Matrix,
        seqlen_offset: usize,
        block_idx: usize,
        kv_cache: &mut LayerCaches,
        cache: &mut masks::Cache,
        scalings: Option<&Scalings>,
        global_scaling_weight: i64,
        is_scaling_pass: Option<i64>,
    ) -> (r: Result<Matrix, ModelError>)
        requires
            self.wf(),
            self.accepts(opt_scalings_view(scalings)),
            old(cache).wf(),
            block_idx < old(kv_cache)@.len(),
            self.slot_wf(slot_view(old(kv_cache)@[block_idx as int])),
            seqlen_offset + x@.len() <= usize::MAX,
        ensures
            final(cache).wf(),
            final(cache).use_kv_cache == old(cache).use_kv_cache,
            final(kv_cache)@.len() == old(kv_cache)@.len(),
            caches_view(final(kv_cache)@) == caches_view(old(kv_cache)@).update(
                block_idx as int,
                attn_slot_after_s(
                    *self,
                    mat_view(x),
                    seqlen_offset as int,
                    slot_view(old(kv_cache)@[block_idx as int]),
                    old(cache).use_kv_cache,
                    opt_scalings_view(scalings),
                    global_scaling_weight,
                    is_scaling_pass,
                ),
            ),
            self.slot_wf(slot_view(final(kv_cache)@[block_idx as int])),
            forall|i: int|
                0 <= i < old(kv_cache)@.len() && i != block_idx ==> slot_view(
                    #[trigger] final(kv_cache)@[i],
                ) == slot_view(old(kv_cache)@[i]),
            r is Err ==> *final(cache) == *old(cache),
            r is Ok <==> attn_forward_s(
                *self,
                mat_view(x),
                seqlen_offset as int,
                slot_view(old(kv_cache)@[block_idx as int]),
                old(cache).use_kv_cache,
                opt_scalings_view(scalings),
                global_scaling_weight,
                is_scaling_pass,
            ) is Some,
            r matches Ok(y) ==> mat_view(&y) == attn_forward_s(
                *self,
                mat_view(x),
                seqlen_offset as int,
                slot_view(old(kv_cache)@[block_idx as int]),
                old(cache).use_kv_cache,
                opt_scalings_view(scalings),
                global_scaling_weight,
                is_scaling_pass,
            )->Some_0.0 && mat_wf(mat_view(&y), x@.len() as int, self.hidden_size as int),
            r is Err ==> r == Err::<Matrix, ModelError>(ModelError::Shape),
    {
        let ghost prev_slot = slot_view(old(kv_cache)@[block_idx as int]);
        let ghost sv = opt_scalings_view(scalings);
        let ghost slot_after = attn_slot_after_s(
            *self,
            mat_view(x),
            seqlen_offset as int,
            prev_slot,
            old(cache).use_kv_cache,
            sv,
            global_scaling_weight,
            is_scaling_pass,
        );
        if x.len() == 0 {
            proof {
                assert(caches_view(kv_cache@).update(block_idx as int, prev_slot)
                    =~= caches_view(kv_cache@));
            }
            return Err(ModelError::Shape);
        }
        let q0 = match self.q_proj.forward(x, scalings, global_scaling_weight, is_scaling_pass) {
            Ok(v) => v,
            Err(e) => {
                proof {
                    assert(caches_view(kv_cache@).update(block_idx as int, prev_slot)
                        =~= caches_view(kv_cache@));
                }
                return Err(e);
            },
        };
        let k0 = match self.k_proj.forward(x, scalings, global_scaling_weight, is_scaling_pass) {
            Ok(v) => v,
            Err(e) => {
                return Err(e);
            },
        };
        let v0 = match self.v_proj.forward(x, scalings, global_scaling_weight, is_scaling_pass) {
            Ok(v) => v,
            Err(e) => {
                return Err(e);
            },
        };
        proof {
            assert((self.q_proj.out_features as int) % (self.head_dim as int) == 0)
                by (nonlinear_arith)
                requires
                    (self.q_proj.out_features as int) == (self.num_attention_heads as int) * (
                    self.head_dim as int),
                    1 <= self.head_dim,
            ;
            assert((self.k_proj.out_features as int) % (self.head_dim as int) == 0)
                by (nonlinear_arith)
                requires
                    (self.k_proj.out_features as int) == (self.num_key_value_heads as int) * (
                    self.head_dim as int),
                    1 <= self.head_dim,
            ;
        }
        let q = rotary_apply(&q0, seqlen_offset, self.head_dim, self.q_proj.out_features);
        let k1 = rotary_apply(&k0, seqlen_offset, self.head_dim, self.k_proj.out_features);
        let use_kv = cache.use_kv_cache;
        let (ck, cv) = if use_kv {
            match &kv_cache[block_idx] {
                Some(pair) => {
                    let catk = concat_rows(&pair.0, &k1);
                    let catv = concat_rows(&pair.1, &v0);
                    let k2 = if catk.len() > self.k_threshold {
                        keep_last_rows(&catk, self.max_seq_len)
                    } else {
                        catk
                    };
                    let v2 = if catv.len() > self.v_threshold {
                        keep_last_rows(&catv, self.max_seq_len)
                    } else {
                        catv
                    };
                    (k2, v2)
                },
                None => (k1, v0),
            }
        } else {
            (k1, v0)
        };
        if use_kv {
            let stored_k = clone_matrix(&ck);
            let stored_v = clone_matrix(&cv);
            kv_cache.set(block_idx, Some((stored_k, stored_v)));
        }
        proof {
            assert(slot_view(kv_cache@[block_idx as int]) == slot_after);
            assert(caches_view(kv_cache@) =~= caches_view(old(kv_cache)@).update(
                block_idx as int,
                slot_after,
            ));
        }
        let total = ck.len();
        if cv.len() != total {
            return Err(ModelError::Shape);
        }
        if x.len() > 1 && total != x.len() {
            return Err(ModelError::Shape);
        }
        let kk = self.repeat_kv(&ck);
        let vv = self.repeat_kv(&cv);
        let y = attend(
            &q,
            &kk,
            &vv,
            x.len(),
            total,
            self.q_proj.out_features,
            self.head_dim,
            self.sqrt_head_dim,
            cache,
        );
        match self.o_proj.forward(&y, scalings, global_scaling_weight, is_scaling_pass) {
            Ok(out) => Ok(out),
            Err(e) => Err(e),
        }
    }
}


/// Incremental-cache round trip: feeding one hidden-state row and then a
/// second, with caching enabled and offsets `0` then `1`, produces for the
/// second position exactly the attention output row that a single uncached
/// call over both rows produces at its second position - incremental decode
/// through the cache is observationally equivalent to full recomputation.
/// The truncation thresholds must admit two cached rows, so that nothing is
/// evicted inside the round trip.
pub proof fn lemma_incremental_round_trip(
    att: CausalSelfAttention,
    x0: Seq<i64>,
    x1: Seq<i64>,
    sv: Option<Seq<Seq<i64>>>,
    g: i64,
    p: Option<i64>,
)
    requires
        att.wf(),
        2 <= att.k_threshold,
        2 <= att.v_threshold,
        x0.len() == att.hidden_size,
        x1.len() == att.hidden_size,
    ensures
        ({
            let full = attn_forward_s(att, seq![x0, x1], 0, None, false, sv, g, p);
            let s1 = attn_forward_s(att, seq![x0], 0, None, true, sv, g, p);
            let s2 = attn_forward_s(att, seq![x1], 1, s1->Some_0.1, true, sv, g, p);
            &&& full is Some
            &&& s1 is Some
            &&& s2 is Some
            &&& s2->Some_0.0[0] == full->Some_0.0[1]
        }),
{
    let xf = seq![x0, x1];
    let xa = seq![x0];
    let xb = seq![x1];
    let hd = att.head_dim as int;
    let scale = att.sqrt_head_dim as int;
    let oc = att.q_proj.out_features as int;

    assert(mat_wf(xf, 2, att.hidden_size as int));
    assert(mat_wf(xa, 1, att.hidden_size as int));
    assert(mat_wf(xb, 1, att.hidden_size as int));

    let qf0 = adapter_forward_s(att.q_proj, xf, sv, g, p);
    let qb0 = adapter_forward_s(att.q_proj, xb, sv, g, p);
    let kf0 = adapter_forward_s(att.k_proj, xf, sv, g, p);
    let ka0 = adapter_forward_s(att.k_proj, xa, sv, g, p);
    let kb0 = adapter_forward_s(att.k_proj, xb, sv, g, p);
    let vf = adapter_forward_s(att.v_proj, xf, sv, g, p);
    let va = adapter_forward_s(att.v_proj, xa, sv, g, p);
    let vb = adapter_forward_s(att.v_proj, xb, sv, g, p);
    crate::adapter::lemma_adapter_forward_len(att.q_proj, xf, sv, g, p);
    crate::adapter::lemma_adapter_forward_len(att.q_proj, xb, sv, g, p);
    crate::adapter::lemma_adapter_forward_len(att.k_proj, xf, sv, g, p);
    crate::adapter::lemma_adapter_forward_len(att.k_proj, xa, sv, g, p);
    crate::adapter::lemma_adapter_forward_len(att.k_proj, xb, sv, g, p);
    crate::adapter::lemma_adapter_forward_len(att.v_proj, xf, sv, g, p);
    crate::adapter::lemma_adapter_forward_len(att.v_proj, xa, sv, g, p);
    crate::adapter::lemma_adapter_forward_len(att.v_proj, xb, sv, g, p);
    crate::adapter::lemma_adapter_forward_rowwise(att.q_proj, xf, xb, sv, g, p, 1, 0);
    crate::adapter::lemma_adapter_forward_rowwise(att.k_proj, xf, xa, sv, g, p, 0, 0);
    crate::adapter::lemma_adapter_forward_rowwise(att.k_proj, xf, xb, sv, g, p, 1, 0);
    crate::adapter::lemma_adapter_forward_rowwise(att.v_proj, xf, xa, sv, g, p, 0, 0);
    crate::adapter::lemma_adapter_forward_rowwise(att.v_proj, xf, xb, sv, g, p, 1, 0);

    let qfr = rotary_s(qf0, 0, hd);
    let qbr = rotary_s(qb0, 1, hd);
    let kfr = rotary_s(kf0, 0, hd);
    let kar = rotary_s(ka0, 0, hd);
    let kbr = rotary_s(kb0, 1, hd);
    assert(qbr[0] == qfr[1]);
    assert(kar[0] == kfr[0]);
    assert(kbr[0] == kfr[1]);

    let s1 = attn_forward_s(att, xa, 0, None, true, sv, g, p);
    assert(s1 is Some);
    let slot1 = s1->Some_0.1;
    assert(slot1 == Some((kar, va)));

    let kv2 = cache_update_s(
        Some((kar, va)),
        kbr,
        vb,
        att.k_threshold as int,
        att.v_threshold as int,
        att.max_seq_len as int,
    );
    assert(kv2.0 == kar + kbr);
    assert(kv2.1 == va + vb);
    assert(kar + kbr =~= kfr);
    assert(va + vb =~= vf);

    let s2 = attn_forward_s(att, xb, 1, slot1, true, sv, g, p);
    assert(s2 is Some);
    let full = attn_forward_s(att, xf, 0, None, false, sv, g, p);
    assert(full is Some);

    let kk = repeat_kv_s(kfr, hd, att.n_rep(), oc);
    let vv = repeat_kv_s(vf, hd, att.n_rep(), oc);
    let at2 = attend_s(qbr, kk, vv, oc, hd, scale, 1);
    let atf = attend_s(qfr, kk, vv, oc, hd, scale, 2);

    assert forall|c: int| 0 <= c < oc implies attend_elem_s(qbr, kk, vv, hd, scale, 1, 0, c)
        == attend_elem_s(qfr, kk, vv, hd, scale, 2, 1, c) by {
        let h = h_of(c, hd);
        assert forall|j: int| 0 <= j < kk.len() implies masked_score_s(
            qbr,
            kk,
            h,
            hd,
            scale,
            1,
            0,
            j,
        ) == masked_score_s(qfr, kk, h, hd, scale, 2, 1, j) by {
            assert(score_s(qbr, kk, h, hd, scale, 0, j) == score_s(qfr, kk, h, hd, scale, 1, j));
        }
        assert(score_row_s(qbr, kk, h, hd, scale, 1, 0) =~= score_row_s(
            qfr,
            kk,
            h,
            hd,
            scale,
            2,
            1,
        ));
    }
    assert(at2[0] =~= atf[1]);

    let y2 = adapter_forward_s(att.o_proj, at2, sv, g, p);
    let yf = adapter_forward_s(att.o_proj, atf, sv, g, p);
    crate::adapter::lemma_adapter_forward_rowwise(att.o_proj, atf, at2, sv, g, p, 1, 0);
    assert(s2->Some_0.0 == y2);
    assert(full->Some_0.0 == yf);
}


/// How many source values one attention block consumes: the four
/// projections in order (query, key, value, output).
pub open spec fn attn_span_s(cfg: Config) -> int {
    let na = cfg.n_adapters as int;
    let h = cfg.hidden_size as int;
    let sq = cfg.head_dim_s() * (cfg.num_attention_heads as int);
    let skv = cfg.head_dim_s() * (cfg.num_key_value_heads as int);
    linear_span_s(na, sq, h) + 2 * linear_span_s(na, skv, h) + linear_span_s(na, h, sq)
}

/// `att` holds exactly the attention block read from `values` at `pos`:
/// the geometry and truncation policy of the configuration, the integer
/// square root of the head width, and the four projections in order.
pub open spec fn attn_loaded_s(
    att: CausalSelfAttention,
    values: Seq<i64>,
    pos: int,
    cfg: Config,
    layer: int,
) -> bool {
    let na = cfg.n_adapters as int;
    let h = cfg.hidden_size as int;
    let sq = cfg.head_dim_s() * (cfg.num_attention_heads as int);
    let skv = cfg.head_dim_s() * (cfg.num_key_value_heads as int);
    &&& att.num_attention_heads == cfg.num_attention_heads
    &&& att.num_key_value_heads == cfg.num_key_value_heads
    &&& att.head_dim as int == cfg.head_dim_s()
    &&& att.sqrt_head_dim as int == isqrt_s(cfg.head_dim_s())
    &&& att.hidden_size == cfg.hidden_size
    &&& att.max_seq_len == cfg.max_seq_len
    &&& att.k_threshold == cfg.k_truncate_threshold
    &&& att.v_threshold == cfg.v_truncate_threshold
    &&& linear_loaded_s(att.q_proj, values, pos, h, sq, na, layer)
    &&& linear_loaded_s(att.k_proj, values, pos + linear_span_s(na, sq, h), h, skv, na, layer)
    &&& linear_loaded_s(
        att.v_proj,
        values,
        pos + linear_span_s(na, sq, h) + linear_span_s(na, skv, h),
        h,
        skv,
        na,
        layer,
    )
    &&& linear_loaded_s(
        att.o_proj,
        values,
        pos + linear_span_s(na, sq, h) + 2 * linear_span_s(na, skv, h),
        sq,
        h,
        na,
        layer,
    )
}

impl CausalSelfAttention {
    /// The adapter deltas of all four projections cover the model's
    /// adapters and name layers that exist.
    pub open spec fn adapters_wf(&self, n_adapters: int, n_layers: int) -> bool {
        &&& self.q_proj.adapters_wf(n_adapters, n_layers)
        &&& self.k_proj.adapters_wf(n_adapters, n_layers)
        &&& self.v_proj.adapters_wf(n_adapters, n_layers)
        &&& self.o_proj.adapters_wf(n_adapters, n_layers)
    }

    /// Build the four projections of one layer from the weight source and
    /// wire the head geometry and truncation policy from the configuration.
    pub fn load(ws: &mut WeightSource, cfg: &Config, layer: usize) -> (r: Result<
        CausalSelfAttention,
        ModelError,
    >)
        requires
            cfg.wf(),
            layer < cfg.num_hidden_layers,
        ensures
            final(ws).values == old(ws).values,
            r is Ok <==> old(ws).pos + attn_span_s(*cfg) <= old(ws).values@.len(),
            r matches Ok(att) ==> att.wf() && att.adapters_wf(
                cfg.n_adapters as int,
                cfg.num_hidden_layers as int,
            ) && attn_loaded_s(att, old(ws).values@, old(ws).pos as int, *cfg, layer as int)
                && final(ws).pos == old(ws).pos + attn_span_s(*cfg),
            r is Err ==> r == Err::<CausalSelfAttention, ModelError>(ModelError::Shape),
    {
        let head_dim: usize = cfg.hidden_size / cfg.num_attention_heads;
        proof {
            vstd::arithmetic::div_mod::lemma_fundamental_div_mod(
                cfg.hidden_size as int,
                cfg.num_attention_heads as int,
            );
            vstd::arithmetic::div_mod::lemma_fundamental_div_mod(
                cfg.num_attention_heads as int,
                cfg.num_key_value_heads as int,
            );
            assert((head_dim as int) * (cfg.num_attention_heads as int) <= cfg.hidden_size as int)
                by (nonlinear_arith)
                requires
                    (cfg.hidden_size as int) == (cfg.num_attention_heads as int) * (
                    head_dim as int) + (cfg.hidden_size as int) % (cfg.num_attention_heads as int),
                    0 <= (cfg.hidden_size as int) % (cfg.num_attention_heads as int),
            ;
            assert(cfg.num_key_value_heads <= cfg.num_attention_heads) by (nonlinear_arith)
                requires
                    (cfg.num_attention_heads as int) % (cfg.num_key_value_heads as int) == 0,
                    (cfg.num_attention_heads as int) == (cfg.num_key_value_heads as int) * ((
                    cfg.num_attention_heads as int) / (cfg.num_key_value_heads as int)) + (
                    cfg.num_attention_heads as int) % (cfg.num_key_value_heads as int),
                    1 <= cfg.num_key_value_heads,
                    1 <= cfg.num_attention_heads,
            ;
            assert((head_dim as int) * (cfg.num_key_value_heads as int) <= (head_dim as int) * (
            cfg.num_attention_heads as int)) by (nonlinear_arith)
                requires
                    cfg.num_key_value_heads <= cfg.num_attention_heads,
                    0 <= head_dim,
            ;
        }
        proof {
            assert(1 <= (head_dim as int) * (cfg.num_attention_heads as int) && 1 <= (
            head_dim as int) * (cfg.num_key_value_heads as int)) by (nonlinear_arith)
                requires
                    2 <= head_dim,
                    1 <= cfg.num_attention_heads,
                    1 <= cfg.num_key_value_heads,
            ;
        }
        let size_q: usize = head_dim * cfg.num_attention_heads;
        let size_kv: usize = head_dim * cfg.num_key_value_heads;
        proof {
            assert(size_q as int == cfg.head_dim_s() * (cfg.num_attention_heads as int));
            assert(size_kv as int == cfg.head_dim_s() * (cfg.num_key_value_heads as int));
            lemma_linear_span_nonneg(cfg.n_adapters as int, size_q as int, cfg.hidden_size as int);
            lemma_linear_span_nonneg(cfg.n_adapters as int, size_kv as int, cfg.hidden_size as int);
            lemma_linear_span_nonneg(cfg.n_adapters as int, cfg.hidden_size as int, size_q as int);
        }
        let q_proj = match AdapterLinear::load(ws, cfg.hidden_size, size_q, cfg.n_adapters, layer) {
            Ok(v) => v,
            Err(e) => {
                return Err(e);
            },
        };
        let k_proj = match AdapterLinear::load(ws, cfg.hidden_size, size_kv, cfg.n_adapters, layer) {
            Ok(v) => v,
            Err(e) => {
                return Err(e);
            },
        };
        let v_proj = match AdapterLinear::load(ws, cfg.hidden_size, size_kv, cfg.n_adapters, layer) {
            Ok(v) => v,
            Err(e) => {
                return Err(e);
            },
        };
        let o_proj = match AdapterLinear::load(ws, size_q, cfg.hidden_size, cfg.n_adapters, layer) {
            Ok(v) => v,
            Err(e) => {
                return Err(e);
            },
        };
        let sqrt_u = isqrt(head_dim as u64);
        proof {
            assert(sqrt_u as int <= 0x1_0000_0000) by (nonlinear_arith)
                requires
                    (sqrt_u as int) * (sqrt_u as int) <= 0xffff_ffff,
                    1 <= sqrt_u as int,
            ;
        }
        Ok(
            CausalSelfAttention {
                q_proj,
                k_proj,
                v_proj,
                o_proj,
                num_attention_heads: cfg.num_attention_heads,
                num_key_value_heads: cfg.num_key_value_heads,
                head_dim,
                sqrt_head_dim: sqrt_u as i64,
                hidden_size: cfg.hidden_size,
                max_seq_len: cfg.max_seq_len,
                k_threshold: cfg.k_truncate_threshold,
                v_threshold: cfg.v_truncate_threshold,
            },
        )
    }
}


/// Terms whose weight is zero contribute nothing to the weighted value
/// sum, so two value stacks agreeing wherever the weight is nonzero give
/// the same sum.
pub proof fn lemma_wvsum_masked_agree(
    row: Seq<i64>,
    m: int,
    vv1: Seq<Seq<i64>>,
    vv2: Seq<Seq<i64>>,
    c: int,
    n: nat,
    i: int,
)
    requires
        forall|j: int| 0 <= j <= i && j < n ==> vv1[j] == vv2[j],
        forall|j: int| i < j < n ==> weight_at_s(row, m, j) == 0,
    ensures
        wvsum_s(row, m, vv1, c, n) == wvsum_s(row, m, vv2, c, n),
    decreases n,
{
    if n != 0 {
        lemma_wvsum_masked_agree(row, m, vv1, vv2, c, (n - 1) as nat, i);
        if n - 1 > i {
            assert(weight_at_s(row, m, n - 1) == 0);
            assert(0 * (vv1[n - 1][c] as int) == 0) by (nonlinear_arith);
            assert(0 * (vv2[n - 1][c] as int) == 0) by (nonlinear_arith);
        }
    }
}

/// Causality: with more than one query row (so the causal mask applies),
/// output row `i` of the attention mix depends only on query row `i` and
/// on key/value rows at positions up to `i`. Every masked future position
/// carries exactly zero weight, because attendable scores are clamped at
/// least `ATTN_UNIT` above the fill value.
pub proof fn lemma_attend_causal(
    q1: Seq<Seq<i64>>,
    kk1: Seq<Seq<i64>>,
    vv1: Seq<Seq<i64>>,
    q2: Seq<Seq<i64>>,
    kk2: Seq<Seq<i64>>,
    vv2: Seq<Seq<i64>>,
    out_cols: int,
    hd: int,
    scale: int,
    seq_len: int,
    i: int,
)
    requires
        1 <= hd,
        1 <= scale,
        0 <= out_cols,
        seq_len > 1,
        kk1.len() == seq_len,
        kk2.len() == seq_len,
        vv1.len() == seq_len,
        vv2.len() == seq_len,
        0 <= i < seq_len,
        q1[i] == q2[i],
        forall|j: int| 0 <= j <= i ==> kk1[j] == kk2[j] && vv1[j] == vv2[j],
    ensures
        attend_s(q1, kk1, vv1, out_cols, hd, scale, seq_len)[i] == attend_s(
            q2,
            kk2,
            vv2,
            out_cols,
            hd,
            scale,
            seq_len,
        )[i],
{
    assert forall|c: int|
        0 <= c < out_cols implies attend_elem_s(q1, kk1, vv1, hd, scale, seq_len, i, c)
        == attend_elem_s(q2, kk2, vv2, hd, scale, seq_len, i, c) by {
        let h = h_of(c, hd);
        let row1 = score_row_s(q1, kk1, h, hd, scale, seq_len, i);
        let row2 = score_row_s(q2, kk2, h, hd, scale, seq_len, i);
        assert forall|j: int| 0 <= j < seq_len implies row1[j] == row2[j] by {
            if j <= i {
                assert(kk1[j] == kk2[j]);
            }
        }
        assert(row1 =~= row2);
        let m = row_max_s(row1, row1.len());
        lemma_row_max_attained(row1, row1.len());
        assert(row1[i] == masked_score_s(q1, kk1, h, hd, scale, seq_len, i, i));
        assert(SCORE_FLOOR as int <= row1[i] as int);
        assert(SCORE_FLOOR as int <= m);
        assert forall|j: int| i < j < seq_len implies weight_at_s(row1, m, j) == 0 by {
            assert(row1[j] == NEG_FILL);
            assert(sat_i(NEG_FILL as int - m) <= -(ATTN_UNIT as int));
        }
        lemma_wvsum_masked_agree(row1, m, vv1, vv2, c, seq_len as nat, i);
    }
    let lhs = attend_s(q1, kk1, vv1, out_cols, hd, scale, seq_len)[i];
    let rhs = attend_s(q2, kk2, vv2, out_cols, hd, scale, seq_len)[i];
    assert(lhs.len() == out_cols as nat && rhs.len() == out_cols as nat);
    assert forall|c: int| 0 <= c < out_cols implies lhs[c] == rhs[c] by {
        assert(lhs[c] == attend_elem_s(q1, kk1, vv1, hd, scale, seq_len, i, c));
        assert(rhs[c] == attend_elem_s(q2, kk2, vv2, hd, scale, seq_len, i, c));
    }
    assert(lhs =~= rhs);
}

} // verus!
