//! The gated feed-forward block: `down(silu(gate(x)) * up(x))`, with the
//! same scaling, weight and scaling-pass plumbing as the attention block.

use vstd::prelude::*;

use crate::adapter::{
    adapter_forward_s, lemma_linear_span_nonneg, linear_loaded_s, linear_span_s,
    opt_scalings_view, AdapterLinear, Scalings,
};
use crate::config::Config;
use crate::error::ModelError;
use crate::matrix::{gated_mul, gated_mul_s, mat_view, mat_wf, Matrix};
use crate::weights::WeightSource;

verus! {

pub struct Mlp {
    pub c_fc1: AdapterLinear,
    pub c_fc2: AdapterLinear,
    pub c_proj: AdapterLinear,
}

/// What the block computes on a well-shaped input.
pub open spec fn mlp_forward_s(
    m: Mlp,
    x: Seq<Seq<i64>>,
    sv: Option<Seq<Seq<i64>>>,
    g: i64,
    p: Option<i64>,
) -> Seq<Seq<i64>> {
    adapter_forward_s(
        m.c_proj,
        gated_mul_s(
            adapter_forward_s(m.c_fc1, x, sv, g, p),
            adapter_forward_s(m.c_fc2, x, sv, g, p),
        ),
        sv,
        g,
        p,
    )
}

/// How many source values one feed-forward block consumes: gate, up and
/// down projections in order.
pub open spec fn mlp_span_s(cfg: Config) -> int {
    let na = cfg.n_adapters as int;
    let h = cfg.hidden_size as int;
    let i = cfg.intermediate_size as int;
    2 * linear_span_s(na, i, h) + linear_span_s(na, h, i)
}

/// `m` holds exactly the feed-forward block read from `values` at `pos`.
pub open spec fn mlp_loaded_s(m: Mlp, values: Seq<i64>, pos: int, cfg: Config, layer: int) -> bool {
    let na = cfg.n_adapters as int;
    let h = cfg.hidden_size as int;
    let i = cfg.intermediate_size as int;
    &&& linear_loaded_s(m.c_fc1, values, pos, h, i, na, layer)
    &&& linear_loaded_s(m.c_fc2, values, pos + linear_span_s(na, i, h), h, i, na, layer)
    &&& linear_loaded_s(m.c_proj, values, pos + 2 * linear_span_s(na, i, h), i, h, na, layer)
}

impl Mlp {
    pub open spec fn wf(&self) -> bool {
        &&& self.c_fc1.wf()
        &&& self.c_fc2.wf()
        &&& self.c_proj.wf()
        &&& self.c_fc2.in_features == self.c_fc1.in_features
        &&& self.c_fc2.out_features == self.c_fc1.out_features
        &&& self.c_proj.in_features == self.c_fc1.out_features
        &&& self.c_proj.out_features == self.c_fc1.in_features
    }

    pub open spec fn accepts(&self, sv: Option<Seq<Seq<i64>>>) -> bool {
        self.c_fc1.accepts(sv) && self.c_fc2.accepts(sv) && self.c_proj.accepts(sv)
    }

    pub open spec fn adapters_wf(&self, n_adapters: int, n_layers: int) -> bool {
        &&& self.c_fc1.adapters_wf(n_adapters, n_layers)
        &&& self.c_fc2.adapters_wf(n_adapters, n_layers)
        &&& self.c_proj.adapters_wf(n_adapters, n_layers)
    }

    /// Gate, scale, and project back down. Fails exactly when `x` is not
    /// shaped `rows` by the hidden width.
    pub fn forward(
        &self,
        x: &Matrix,
        scalings: Option<&Scalings>,
        global_scaling_weight: i64,
        is_scaling_pass: Option<i64>,
    ) -> (r: Result<Matrix, ModelError>)
        requires
            self.wf(),
            self.accepts(opt_scalings_view(scalings)),
        ensures
            r is Ok <==> mat_wf(mat_view(x), x@.len() as int, self.c_fc1.in_features as int),
            r matches Ok(y) ==> mat_view(&y) == mlp_forward_s(
                *self,
                mat_view(x),
                opt_scalings_view(scalings),
                global_scaling_weight,
                is_scaling_pass,
            ) && mat_wf(mat_view(&y), x@.len() as int, self.c_fc1.in_features as int),
            r is Err ==> r == Err::<Matrix, ModelError>(ModelError::Shape),
    {
        let a = match self.c_fc1.forward(x, scalings, global_scaling_weight, is_scaling_pass) {
            Ok(v) => v,
            Err(e) => {
                return Err(e);
            },
        };
        let b = match self.c_fc2.forward(x, scalings, global_scaling_weight, is_scaling_pass) {
            Ok(v) => v,
            Err(e) => {
                return Err(e);
            },
        };
        let gated = gated_mul(&a, &b, x.len(), self.c_fc1.out_features);
        match self.c_proj.forward(&gated, scalings, global_scaling_weight, is_scaling_pass) {
            Ok(y) => Ok(y),
            Err(e) => Err(e),
        }
    }

    /// Build the three projections of one layer from the weight source.
    pub fn load(ws: &mut WeightSource, cfg: &Config, layer: usize) -> (r: Result<
        Mlp,
        ModelError,
    >)
        requires
            cfg.wf(),
            layer < cfg.num_hidden_layers,
        ensures
            final(ws).values == old(ws).values,
            r is Ok <==> old(ws).pos + mlp_span_s(*cfg) <= old(ws).values@.len(),
            r matches Ok(m) ==> m.wf() && m.c_fc1.in_features == cfg.hidden_size
                && m.c_fc1.out_features == cfg.intermediate_size && m.adapters_wf(
                cfg.n_adapters as int,
                cfg.num_hidden_layers as int,
            ) && mlp_loaded_s(m, old(ws).values@, old(ws).pos as int, *cfg, layer as int)
                && final(ws).pos == old(ws).pos + mlp_span_s(*cfg),
            r is Err ==> r == Err::<Mlp, ModelError>(ModelError::Shape),
    {
        let h = cfg.hidden_size;
        let i = cfg.intermediate_size;
        proof {
            lemma_linear_span_nonneg(cfg.n_adapters as int, i as int, h as int);
            lemma_linear_span_nonneg(cfg.n_adapters as int, h as int, i as int);
        }
        let c_fc1 = match AdapterLinear::load(ws, h, i, cfg.n_adapters, layer) {
            Ok(v) => v,
            Err(e) => {
                return Err(e);
            },
        };
        let c_fc2 = match AdapterLinear::load(ws, h, i, cfg.n_adapters, layer) {
            Ok(v) => v,
            Err(e) => {
                return Err(e);
            },
        };
        let c_proj = match AdapterLinear::load(ws, i, h, cfg.n_adapters, layer) {
            Ok(v) => v,
            Err(e) => {
                return Err(e);
            },
        };
        Ok(Mlp { c_fc1, c_fc2, c_proj })
    }
}

} // verus!
