//! One transformer block: norm, attention, residual, norm, feed-forward,
//! residual. The block is stateless across calls except through the cache
//! slots it is handed.

use vstd::prelude::*;

use crate::adapter::{opt_scalings_view, Scalings};
use crate::attention::{
    attn_forward_s, attn_loaded_s, attn_slot_after_s, attn_span_s, CausalSelfAttention,
};
use crate::cache::{caches_view, slot_view, LayerCaches};
use crate::config::Config;
use crate::error::ModelError;
use crate::masks;
use crate::matrix::{mat_add, mat_add_s, mat_view, mat_wf, Matrix};
use crate::mlp::{mlp_forward_s, mlp_loaded_s, mlp_span_s, Mlp};
use crate::norm::{rms_norm_s, RmsNorm};
use crate::weights::WeightSource;

verus! {

pub struct Block {
    pub rms_1: RmsNorm,
    pub attn: CausalSelfAttention,
    pub rms_2: RmsNorm,
    pub mlp: Mlp,
}

/// What one block computes: `None` exactly when the attention call inside
/// fails with a shape error.
pub open spec fn block_forward_s(
    b: Block,
    x: Seq<Seq<i64>>,
    offset: int,
    prev: Option<(Seq<Seq<i64>>, Seq<Seq<i64>>)>,
    use_kv: bool,
    sv: Option<Seq<Seq<i64>>>,
    g: i64,
    p: Option<i64>,
) -> Option<(Seq<Seq<i64>>, Option<(Seq<Seq<i64>>, Seq<Seq<i64>>)>)> {
    let x1 = rms_norm_s(x, b.rms_1.weight@, b.rms_1.eps);
    match attn_forward_s(b.attn, x1, offset, prev, use_kv, sv, g, p) {
        None => None,
        Some(ar) => {
            let x2 = mat_add_s(ar.0, x);
            let x3 = rms_norm_s(x2, b.rms_2.weight@, b.rms_2.eps);
            let x4 = mat_add_s(mlp_forward_s(b.mlp, x3, sv, g, p), x2);
            Some((x4, ar.1))
        },
    }
}

/// The cache slot after one block, whether or not the block succeeds.
pub open spec fn block_slot_after_s(
    b: Block,
    x: Seq<Seq<i64>>,
    offset: int,
    prev: Option<(Seq<Seq<i64>>, Seq<Seq<i64>>)>,
    use_kv: bool,
    sv: Option<Seq<Seq<i64>>>,
    g: i64,
    p: Option<i64>,
) -> Option<(Seq<Seq<i64>>, Seq<Seq<i64>>)> {
    attn_slot_after_s(
        b.attn,
        rms_norm_s(x, b.rms_1.weight@, b.rms_1.eps),
        offset,
        prev,
        use_kv,
        sv,
        g,
        p,
    )
}

/// How many source values one block consumes: attention, feed-forward and
/// the two norm weights.
pub open spec fn block_span_s(cfg: Config) -> int {
    attn_span_s(cfg) + mlp_span_s(cfg) + 2 * (cfg.hidden_size as int)
}

/// `b` holds exactly the block read from `values` at `pos`: attention,
/// then the feed-forward projections, then the two norm weights.
pub open spec fn block_loaded_s(b: Block, values: Seq<i64>, pos: int, cfg: Config, layer: int) -> bool {
    let h = cfg.hidden_size as int;
    &&& attn_loaded_s(b.attn, values, pos, cfg, layer)
    &&& mlp_loaded_s(b.mlp, values, pos + attn_span_s(cfg), cfg, layer)
    &&& b.rms_1.weight@ == values.subrange(
        pos + attn_span_s(cfg) + mlp_span_s(cfg),
        pos + attn_span_s(cfg) + mlp_span_s(cfg) + h,
    )
    &&& b.rms_1.eps == cfg.rms_norm_eps
    &&& b.rms_2.weight@ == values.subrange(
        pos + attn_span_s(cfg) + mlp_span_s(cfg) + h,
        pos + attn_span_s(cfg) + mlp_span_s(cfg) + 2 * h,
    )
    &&& b.rms_2.eps == cfg.rms_norm_eps
}

/// The spans of a well-formed configuration are never negative.
pub proof fn lemma_block_span_nonneg(cfg: Config)
    requires
        cfg.wf(),
    ensures
        0 <= attn_span_s(cfg),
        0 <= mlp_span_s(cfg),
        0 <= block_span_s(cfg),
{
    assert(0 <= cfg.head_dim_s() * (cfg.num_attention_heads as int) && 0 <= cfg.head_dim_s() * (
    cfg.num_key_value_heads as int)) by (nonlinear_arith)
        requires
            2 <= cfg.head_dim_s(),
            1 <= cfg.num_attention_heads,
            1 <= cfg.num_key_value_heads,
    ;
    crate::adapter::lemma_linear_span_nonneg(
        cfg.n_adapters as int,
        cfg.head_dim_s() * (cfg.num_attention_heads as int),
        cfg.hidden_size as int,
    );
    crate::adapter::lemma_linear_span_nonneg(
        cfg.n_adapters as int,
        cfg.head_dim_s() * (cfg.num_key_value_heads as int),
        cfg.hidden_size as int,
    );
    crate::adapter::lemma_linear_span_nonneg(
        cfg.n_adapters as int,
        cfg.hidden_size as int,
        cfg.head_dim_s() * (cfg.num_attention_heads as int),
    );
    crate::adapter::lemma_linear_span_nonneg(
        cfg.n_adapters as int,
        cfg.intermediate_size as int,
        cfg.hidden_size as int,
    );
    crate::adapter::lemma_linear_span_nonneg(
        cfg.n_adapters as int,
        cfg.hidden_size as int,
        cfg.intermediate_size as int,
    );
}

impl Block {
    pub open spec fn hidden_s(&self) -> int {
        self.attn.hidden_size as int
    }

    pub open spec fn wf(&self) -> bool {
        &&& self.attn.wf()
        &&& self.rms_1.wf()
        &&& self.rms_1.weight@.len() as int == self.hidden_s()
        &&& self.rms_2.wf()
        &&& self.rms_2.weight@.len() as int == self.hidden_s()
        &&& self.mlp.wf()
        &&& self.mlp.c_fc1.in_features as int == self.hidden_s()
    }

    pub open spec fn accepts(&self, sv: Option<Seq<Seq<i64>>>) -> bool {
        self.attn.accepts(sv) && self.mlp.accepts(sv)
    }

    pub open spec fn adapters_wf(&self, n_adapters: int, n_layers: int) -> bool {
        self.attn.adapters_wf(n_adapters, n_layers) && self.mlp.adapters_wf(n_adapters, n_layers)
    }

    /// Norm, attend, add the residual, norm, feed forward, add the residual.
    pub fn forward(
        &self,
        x: &Matrix,
        seqlen_offset: usize,
        block_idx: usize,
        kv_cache: &mut LayerCaches,
        cache: &mut masks::Cache,
        scalings: Option<&Scalings>,
        global_scaling_weight: i64,
        is_scaling_pass: Option<i64>,
    ) -> (r: Result<Matrix, ModelError>)
        requires
            self.wf(),
            self.accepts(opt_scalings_view(scalings)),
            old(cache).wf(),
            block_idx < old(kv_cache)@.len(),
            self.attn.slot_wf(slot_view(old(kv_cache)@[block_idx as int])),
            seqlen_offset + x@.len() <= usize::MAX,
        ensures
            final(cache).wf(),
            final(cache).use_kv_cache == old(cache).use_kv_cache,
            final(kv_cache)@.len() == old(kv_cache)@.len(),
            caches_view(final(kv_cache)@) == caches_view(old(kv_cache)@).update(
                block_idx as int,
                block_slot_after_s(
                    *self,
                    mat_view(x),
                    seqlen_offset as int,
                    slot_view(old(kv_cache)@[block_idx as int]),
                    old(cache).use_kv_cache,
                    opt_scalings_view(scalings),
                    global_scaling_weight,
                    is_scaling_pass,
                ),
            ),
            self.attn.slot_wf(slot_view(final(kv_cache)@[block_idx as int])),
            forall|i: int|
                0 <= i < old(kv_cache)@.len() && i != block_idx ==> slot_view(
                    #[trigger] final(kv_cache)@[i],
                ) == slot_view(old(kv_cache)@[i]),
            r is Err ==> *final(cache) == *old(cache),
            r is Ok <==> block_forward_s(
                *self,
                mat_view(x),
                seqlen_offset as int,
                slot_view(old(kv_cache)@[block_idx as int]),
                old(cache).use_kv_cache,
                opt_scalings_view(scalings),
                global_scaling_weight,
                is_scaling_pass,
            ) is Some,
            r matches Ok(y) ==> mat_view(&y) == block_forward_s(
                *self,
                mat_view(x),
                seqlen_offset as int,
                slot_view(old(kv_cache)@[block_idx as int]),
                old(cache).use_kv_cache,
                opt_scalings_view(scalings),
                global_scaling_weight,
                is_scaling_pass,
            )->Some_0.0 && mat_wf(mat_view(&y), x@.len() as int, self.hidden_s()),
            r is Err ==> r == Err::<Matrix, ModelError>(ModelError::Shape),
    {
        let x1 = match self.rms_1.forward(x) {
            Ok(v) => v,
            Err(e) => {
                proof {
                    let xv = mat_view(x);
                    let x1s = rms_norm_s(xv, self.rms_1.weight@, self.rms_1.eps);
                    assert(!mat_wf(xv, xv.len() as int, self.hidden_s()));
                    assert(x1s.len() == xv.len());
                    if x1s.len() as int >= 1 {
                        assert(exists|i: int|
                            0 <= i < xv.len() && (#[trigger] xv[i]).len() != self.hidden_s());
                        let i = choose|i: int|
                            0 <= i < xv.len() && (#[trigger] xv[i]).len() != self.hidden_s();
                        assert(x1s[i].len() == xv[i].len());
                        assert(!mat_wf(x1s, x1s.len() as int, self.attn.hidden_size as int));
                    }
                    assert(caches_view(kv_cache@).update(
                        block_idx as int,
                        slot_view(kv_cache@[block_idx as int]),
                    ) =~= caches_view(kv_cache@));
                }
                return Err(e);
            },
        };
        let attn_out = match self.attn.forward(
            &x1,
            seqlen_offset,
            block_idx,
            kv_cache,
            cache,
            scalings,
            global_scaling_weight,
            is_scaling_pass,
        ) {
            Ok(v) => v,
            Err(e) => {
                return Err(e);
            },
        };
        let x2 = mat_add(&attn_out, x, x.len(), self.rms_1.weight.len());
        let x3 = match self.rms_2.forward(&x2) {
            Ok(v) => v,
            Err(e) => {
                return Err(e);
            },
        };
        let m = match self.mlp.forward(&x3, scalings, global_scaling_weight, is_scaling_pass) {
            Ok(v) => v,
            Err(e) => {
                return Err(e);
            },
        };
        Ok(mat_add(&m, &x2, x.len(), self.rms_1.weight.len()))
    }

    /// Build one block from the weight source: attention, feed-forward,
    /// then the two norms.
    pub fn load(ws: &mut WeightSource, cfg: &Config, layer: usize) -> (r: Result<
        Block,
        ModelError,
    >)
        requires
            cfg.wf(),
            layer < cfg.num_hidden_layers,
        ensures
            final(ws).values == old(ws).values,
            r is Ok <==> old(ws).pos + block_span_s(*cfg) <= old(ws).values@.len(),
            r matches Ok(b) ==> b.wf() && b.hidden_s() == cfg.hidden_size as int
                && b.attn.max_seq_len == cfg.max_seq_len && b.attn.k_threshold
                == cfg.k_truncate_threshold && b.attn.v_threshold == cfg.v_truncate_threshold
                && b.adapters_wf(cfg.n_adapters as int, cfg.num_hidden_layers as int)
                && block_loaded_s(b, old(ws).values@, old(ws).pos as int, *cfg, layer as int)
                && final(ws).pos == old(ws).pos + block_span_s(*cfg),
            r is Err ==> r == Err::<Block, ModelError>(ModelError::Shape),
    {
        proof {
            crate::adapter::lemma_linear_span_nonneg(
                cfg.n_adapters as int,
                cfg.head_dim_s() * (cfg.num_attention_heads as int),
                cfg.hidden_size as int,
            );
            crate::adapter::lemma_linear_span_nonneg(
                cfg.n_adapters as int,
                cfg.head_dim_s() * (cfg.num_key_value_heads as int),
                cfg.hidden_size as int,
            );
            crate::adapter::lemma_linear_span_nonneg(
                cfg.n_adapters as int,
                cfg.hidden_size as int,
                cfg.head_dim_s() * (cfg.num_attention_heads as int),
            );
            crate::adapter::lemma_linear_span_nonneg(
                cfg.n_adapters as int,
                cfg.intermediate_size as int,
                cfg.hidden_size as int,
            );
            crate::adapter::lemma_linear_span_nonneg(
                cfg.n_adapters as int,
                cfg.hidden_size as int,
                cfg.intermediate_size as int,
            );
            assert(0 <= cfg.head_dim_s() * (cfg.num_attention_heads as int) && 0
                <= cfg.head_dim_s() * (cfg.num_key_value_heads as int)) by (nonlinear_arith)
                requires
                    2 <= cfg.head_dim_s(),
                    1 <= cfg.num_attention_heads,
                    1 <= cfg.num_key_value_heads,
            ;
        }
        let attn = match CausalSelfAttention::load(ws, cfg, layer) {
            Ok(v) => v,
            Err(e) => {
                return Err(e);
            },
        };
        let mlp = match Mlp::load(ws, cfg, layer) {
            Ok(v) => v,
            Err(e) => {
                return Err(e);
            },
        };
        let rms_1 = match RmsNorm::new(cfg.hidden_size, cfg.rms_norm_eps, ws) {
            Ok(v) => v,
            Err(e) => {
                return Err(e);
            },
        };
        let rms_2 = match RmsNorm::new(cfg.hidden_size, cfg.rms_norm_eps, ws) {
            Ok(v) => v,
            Err(e) => {
                return Err(e);
            },
        };
        Ok(Block { rms_1, attn, rms_2, mlp })
    }
}

} // verus!
