//! The adapter-capable linear projection capability.
//!
//! Every projection in the model goes through `AdapterLinear::forward`, which
//! receives the same scaling tensor, global scaling weight and opaque
//! scaling-pass flag however it is reached (attention or feed-forward). A
//! projection is either a plain base weight or a base weight plus one
//! low-rank-style delta per adapter, blended according to the scaling row of
//! this projection's layer.

use vstd::prelude::*;

use crate::error::ModelError;
use crate::weights::{mat_take_s, WeightSource};
use crate::matrix::{
    linear_apply, linear_s, mat_add, mat_add_s, mat_has_shape, mat_scale, mat_scale_s, mat_view,
    mat_wf, mats_view, Matrix,
};
use crate::scalar::sat_mul_e;
use crate::scalar::sat_mul;

verus! {

/// Per-call adapter scaling tensor: one row per adapter, one column per
/// layer.
pub type Scalings = Matrix;

/// View of an optional scaling tensor.
pub open spec fn opt_scalings_view(s: Option<&Scalings>) -> Option<Seq<Seq<i64>>> {
    match s {
        None => None,
        Some(m) => Some(mat_view(m)),
    }
}

/// The blend factor of adapter `a` at layer `layer`: the scaling entry times
/// the classifier's global weight, further multiplied by the opaque
/// scaling-pass value when one is supplied. Without a scaling tensor the
/// adapters contribute nothing.
pub open spec fn adapter_scale_s(
    scalings: Option<Seq<Seq<i64>>>,
    a: int,
    layer: int,
    global: i64,
    pass: Option<i64>,
) -> i64 {
    match scalings {
        None => 0,
        Some(s) => match pass {
            None => sat_mul_e(s[a][layer], global),
            Some(v) => sat_mul_e(sat_mul_e(s[a][layer], global), v),
        },
    }
}

pub enum AdapterKind {
    /// A plain projection: the base weight alone.
    Plain,
    /// A projection with adapter deltas, one per adapter, selecting its
    /// scaling row by this projection's layer index.
    Lora { deltas: Vec<Matrix>, layer: usize },
}

pub struct AdapterLinear {
    /// Base weight, one row per output feature.
    pub weight: Matrix,
    pub kind: AdapterKind,
    pub in_features: usize,
    pub out_features: usize,
}

/// Base projection plus the first `k` scaled adapter deltas.
pub open spec fn lora_sum_s(
    x: Seq<Seq<i64>>,
    w: Seq<Seq<i64>>,
    deltas: Seq<Seq<Seq<i64>>>,
    k: nat,
    scalings: Option<Seq<Seq<i64>>>,
    layer: int,
    global: i64,
    pass: Option<i64>,
) -> Seq<Seq<i64>>
    decreases k,
{
    if k == 0 {
        linear_s(x, w)
    } else {
        mat_add_s(
            lora_sum_s(x, w, deltas, (k - 1) as nat, scalings, layer, global, pass),
            mat_scale_s(
                adapter_scale_s(scalings, k - 1, layer, global, pass),
                linear_s(x, deltas[k - 1]),
            ),
        )
    }
}

/// What `forward` computes on a well-shaped input.
pub open spec fn adapter_forward_s(
    lin: AdapterLinear,
    x: Seq<Seq<i64>>,
    scalings: Option<Seq<Seq<i64>>>,
    global: i64,
    pass: Option<i64>,
) -> Seq<Seq<i64>> {
    match lin.kind {
        AdapterKind::Plain => linear_s(x, mat_view(&lin.weight)),
        AdapterKind::Lora { deltas, layer } => lora_sum_s(
            x,
            mat_view(&lin.weight),
            mats_view(deltas@),
            deltas@.len(),
            scalings,
            layer as int,
            global,
            pass,
        ),
    }
}

/// How many source values one projection consumes: the base weight plus
/// one delta per adapter.
pub open spec fn linear_span_s(na: int, outf: int, inf: int) -> int {
    (1 + na) * outf * inf
}

/// `lin` holds exactly the projection read from `values` at `pos`: the base
/// weight first, then one delta per adapter, all `outf` by `inf`.
pub open spec fn linear_loaded_s(
    lin: AdapterLinear,
    values: Seq<i64>,
    pos: int,
    inf: int,
    outf: int,
    na: int,
    layer: int,
) -> bool {
    &&& lin.in_features as int == inf
    &&& lin.out_features as int == outf
    &&& mat_view(&lin.weight) == mat_take_s(values, pos, outf, inf)
    &&& match lin.kind {
        AdapterKind::Plain => na == 0,
        AdapterKind::Lora { deltas, layer: l } => na > 0 && deltas@.len() == na && l as int
            == layer && (forall|a: int|
            0 <= a < na ==> #[trigger] mats_view(deltas@)[a] == mat_take_s(
                values,
                pos + (1 + a) * outf * inf,
                outf,
                inf,
            )),
    }
}

/// A projection's span is never negative.
pub proof fn lemma_linear_span_nonneg(na: int, outf: int, inf: int)
    requires
        0 <= na,
        0 <= outf,
        0 <= inf,
    ensures
        0 <= linear_span_s(na, outf, inf),
{
    assert(0 <= (1 + na) * outf * inf) by (nonlinear_arith)
        requires
            0 <= na,
            0 <= outf,
            0 <= inf,
    ;
}

impl AdapterLinear {
    /// The base weight and every delta have this projection's shape.
    pub open spec fn wf(&self) -> bool {
        &&& mat_wf(mat_view(&self.weight), self.out_features as int, self.in_features as int)
        &&& match self.kind {
            AdapterKind::Plain => true,
            AdapterKind::Lora { deltas, layer } => forall|a: int|
                0 <= a < deltas@.len() ==> mat_wf(
                    #[trigger] mats_view(deltas@)[a],
                    self.out_features as int,
                    self.in_features as int,
                ),
        }
    }

    /// The scaling tensor, when present, covers every adapter of this
    /// projection and has a column for this projection's layer.
    pub open spec fn accepts(&self, scalings: Option<Seq<Seq<i64>>>) -> bool {
        match self.kind {
            AdapterKind::Plain => true,
            AdapterKind::Lora { deltas, layer } => match scalings {
                None => true,
                Some(s) => s.len() == deltas@.len() && (forall|a: int|
                    0 <= a < s.len() ==> layer < (#[trigger] s[a]).len()),
            },
        }
    }

    /// The adapter deltas, if any, cover exactly the model's adapters and
    /// name a layer that exists.
    pub open spec fn adapters_wf(&self, n_adapters: int, n_layers: int) -> bool {
        match self.kind {
            AdapterKind::Plain => true,
            AdapterKind::Lora { deltas, layer } => deltas@.len() == n_adapters && (layer as int)
                < n_layers,
        }
    }

    /// Build one projection from the weight source: the base weight, then
    /// one delta per adapter. A projection with no adapters is plain.
    /// Succeeds exactly when the source still holds the projection's span,
    /// and then the result is completely determined by the values read.
    pub fn load(
        ws: &mut WeightSource,
        in_features: usize,
        out_features: usize,
        n_adapters: usize,
        layer: usize,
    ) -> (r: Result<AdapterLinear, ModelError>)
        requires
            1 <= in_features,
            1 <= out_features,
        ensures
            final(ws).values == old(ws).values,
            r is Ok <==> old(ws).pos + linear_span_s(
                n_adapters as int,
                out_features as int,
                in_features as int,
            ) <= old(ws).values@.len(),
            r matches Ok(lin) ==> lin.wf() && linear_loaded_s(
                lin,
                old(ws).values@,
                old(ws).pos as int,
                in_features as int,
                out_features as int,
                n_adapters as int,
                layer as int,
            ) && final(ws).pos == old(ws).pos + linear_span_s(
                n_adapters as int,
                out_features as int,
                in_features as int,
            ),
            r is Err ==> r == Err::<AdapterLinear, ModelError>(ModelError::Shape),
    {
        proof {
            lemma_linear_span_nonneg(
                n_adapters as int,
                out_features as int,
                in_features as int,
            );
            assert((out_features as int) * (in_features as int) <= linear_span_s(
                n_adapters as int,
                out_features as int,
                in_features as int,
            )) by (nonlinear_arith)
                requires
                    0 <= n_adapters,
                    0 <= out_features,
                    0 <= in_features,
            ;
        }
        let weight = match ws.take_matrix(out_features, in_features) {
            Ok(w) => w,
            Err(e) => {
                return Err(e);
            },
        };
        proof {
            assert(mat_view(&weight) =~= mat_take_s(
                old(ws).values@,
                old(ws).pos as int,
                out_features as int,
                in_features as int,
            ));
        }
        proof {
            assert((1 + 0) * (out_features as int) * (in_features as int) == (
            out_features as int) * (in_features as int)) by (nonlinear_arith);
        }
        if n_adapters == 0 {
            Ok(
                AdapterLinear {
                    weight,
                    kind: AdapterKind::Plain,
                    in_features,
                    out_features,
                },
            )
        } else {
            let mut deltas: Vec<Matrix> = Vec::new();
            let mut a: usize = 0;
            while a < n_adapters
                invariant
                    a <= n_adapters,
                    ws.values == old(ws).values,
                    ws.pos == old(ws).pos + (1 + a as int) * (out_features as int) * (
                    in_features as int),
                    ws.pos <= ws.values@.len(),
                    deltas@.len() == a,
                    forall|i: int|
                        0 <= i < a ==> mat_wf(
                            #[trigger] mats_view(deltas@)[i],
                            out_features as int,
                            in_features as int,
                        ),
                    forall|i: int|
                        0 <= i < a ==> #[trigger] mats_view(deltas@)[i] == mat_take_s(
                            old(ws).values@,
                            old(ws).pos + (1 + i) * (out_features as int) * (in_features as int),
                            out_features as int,
                            in_features as int,
                        ),
                decreases n_adapters - a,
            {
                let ghost dpos = ws.pos as int;
                let d = match ws.take_matrix(out_features, in_features) {
                    Ok(d) => d,
                    Err(e) => {
                        proof {
                            assert((2 + a as int) * (out_features as int) * (in_features as int)
                                <= linear_span_s(
                                n_adapters as int,
                                out_features as int,
                                in_features as int,
                            ) && (1 + a as int) * (out_features as int) * (in_features as int) + (
                            out_features as int) * (in_features as int) == (2 + a as int) * (
                            out_features as int) * (in_features as int)) by (nonlinear_arith)
                                requires
                                    0 <= (a as int),
                                    (a as int) < (n_adapters as int),
                                    0 <= out_features,
                                    0 <= in_features,
                            ;
                        }
                        return Err(e);
                    },
                };
                proof {
                    assert(mat_view(&d) =~= mat_take_s(
                        old(ws).values@,
                        dpos,
                        out_features as int,
                        in_features as int,
                    ));
                    assert((1 + a as int) * (out_features as int) * (in_features as int) + (
                    out_features as int) * (in_features as int) == (1 + (a as int) + 1) * (
                    out_features as int) * (in_features as int)) by (nonlinear_arith);
                }
                let ghost prevd = deltas@;
                deltas.push(d);
                proof {
                    assert forall|i: int|
                        0 <= i < a + 1 implies mat_wf(
                        #[trigger] mats_view(deltas@)[i],
                        out_features as int,
                        in_features as int,
                    ) && mats_view(deltas@)[i] == mat_take_s(
                        old(ws).values@,
                        old(ws).pos + (1 + i) * (out_features as int) * (in_features as int),
                        out_features as int,
                        in_features as int,
                    ) by {
                        if i < a {
                            assert(deltas@[i] == prevd[i]);
                            assert(mats_view(prevd)[i] == mat_view(&prevd[i]));
                        } else {
                            assert(deltas@[i] == d);
                            assert(dpos == old(ws).pos + (1 + i) * (out_features as int) * (
                            in_features as int));
                        }
                    }
                }
                a += 1;
            }
            Ok(
                AdapterLinear {
                    weight,
                    kind: AdapterKind::Lora { deltas, layer },
                    in_features,
                    out_features,
                },
            )
        }
    }

    /// Project `x`, blending in the adapter deltas according to the scaling
    /// tensor. Fails exactly when `x` is not shaped `rows` by `in_features`.
    pub fn forward(
        &self,
        x: &Matrix,
        scalings: Option<&Scalings>,
        global_scaling_weight: i64,
        is_scaling_pass: Option<i64>,
    ) -> (r: Result<Matrix, ModelError>)
        requires
            self.wf(),
            self.accepts(opt_scalings_view(scalings)),
        ensures
            r is Ok <==> mat_wf(mat_view(x), x@.len() as int, self.in_features as int),
            r matches Ok(y) ==> mat_view(&y) == adapter_forward_s(
                *self,
                mat_view(x),
                opt_scalings_view(scalings),
                global_scaling_weight,
                is_scaling_pass,
            ) && mat_wf(mat_view(&y), x@.len() as int, self.out_features as int),
            r is Err ==> r == Err::<Matrix, ModelError>(ModelError::Shape),
    {
        if !mat_has_shape(x, x.len(), self.in_features) {
            return Err(ModelError::Shape);
        }
        let rows: usize = x.len();
        let base = linear_apply(x, &self.weight, self.in_features);
        match &self.kind {
            AdapterKind::Plain => Ok(base),
            AdapterKind::Lora { deltas, layer } => {
                let ghost sv = opt_scalings_view(scalings);
                let mut acc = base;
                let mut a: usize = 0;
                while a < deltas.len()
                    invariant
                        a <= deltas.len(),
                        self.wf(),
                        self.accepts(sv),
                        sv == opt_scalings_view(scalings),
                        self.kind matches AdapterKind::Lora { deltas: ds, layer: l } && ds == *deltas
                            && l == *layer,
                        mat_wf(mat_view(x), rows as int, self.in_features as int),
                        rows == x.len(),
                        mat_view(&acc) == lora_sum_s(
                            mat_view(x),
                            mat_view(&self.weight),
                            mats_view(deltas@),
                            a as nat,
                            sv,
                            *layer as int,
                            global_scaling_weight,
                            is_scaling_pass,
                        ),
                        mat_wf(mat_view(&acc), rows as int, self.out_features as int),
                    decreases deltas.len() - a,
                {
                    proof {
                        assert(mat_wf(
                            mats_view(deltas@)[a as int],
                            self.out_features as int,
                            self.in_features as int,
                        ));
                    }
                    let d = linear_apply(x, &deltas[a], self.in_features);
                    let c: i64 = match scalings {
                        None => 0,
                        Some(s) => {
                            proof {
                                assert(mat_view(s).len() == deltas@.len());
                                assert(*layer < mat_view(s)[a as int].len());
                            }
                            let base_c = sat_mul(s[a][*layer], global_scaling_weight);
                            match is_scaling_pass {
                                None => base_c,
                                Some(v) => sat_mul(base_c, v),
                            }
                        },
                    };
                    proof {
                        assert(c == adapter_scale_s(
                            sv,
                            a as int,
                            *layer as int,
                            global_scaling_weight,
                            is_scaling_pass,
                        ));
                    }
                    let sc = mat_scale(c, &d, rows, self.out_features);
                    acc = mat_add(&acc, &sc, rows, self.out_features);
                    a += 1;
                }
                Ok(acc)
            },
        }
    }
}


/// The blended projection has one output row per input row.
pub proof fn lemma_lora_sum_len(
    x: Seq<Seq<i64>>,
    w: Seq<Seq<i64>>,
    deltas: Seq<Seq<Seq<i64>>>,
    k: nat,
    scalings: Option<Seq<Seq<i64>>>,
    layer: int,
    global: i64,
    pass: Option<i64>,
)
    ensures
        lora_sum_s(x, w, deltas, k, scalings, layer, global, pass).len() == x.len(),
    decreases k,
{
    if k != 0 {
        lemma_lora_sum_len(x, w, deltas, (k - 1) as nat, scalings, layer, global, pass);
    }
}

/// A row of `lora_sum_s` depends only on the corresponding input row.
pub proof fn lemma_lora_sum_rowwise(
    x: Seq<Seq<i64>>,
    y: Seq<Seq<i64>>,
    w: Seq<Seq<i64>>,
    deltas: Seq<Seq<Seq<i64>>>,
    k: nat,
    scalings: Option<Seq<Seq<i64>>>,
    layer: int,
    global: i64,
    pass: Option<i64>,
    t: int,
    u: int,
)
    requires
        0 <= t < x.len(),
        0 <= u < y.len(),
        x[t] == y[u],
    ensures
        lora_sum_s(x, w, deltas, k, scalings, layer, global, pass)[t] == lora_sum_s(
            y,
            w,
            deltas,
            k,
            scalings,
            layer,
            global,
            pass,
        )[u],
    decreases k,
{
    if k == 0 {
        assert(linear_s(x, w)[t] =~= linear_s(y, w)[u]);
    } else {
        lemma_lora_sum_len(x, w, deltas, (k - 1) as nat, scalings, layer, global, pass);
        lemma_lora_sum_len(y, w, deltas, (k - 1) as nat, scalings, layer, global, pass);
        lemma_lora_sum_rowwise(x, y, w, deltas, (k - 1) as nat, scalings, layer, global, pass, t, u);
        assert(linear_s(x, deltas[k - 1])[t] =~= linear_s(y, deltas[k - 1])[u]);
        let c = adapter_scale_s(scalings, k - 1, layer, global, pass);
        assert(mat_scale_s(c, linear_s(x, deltas[k - 1]))[t] =~= mat_scale_s(
            c,
            linear_s(y, deltas[k - 1]),
        )[u]);
        assert(lora_sum_s(x, w, deltas, k, scalings, layer, global, pass)[t] =~= lora_sum_s(
            y,
            w,
            deltas,
            k,
            scalings,
            layer,
            global,
            pass,
        )[u]);
    }
}

/// A row of the projection output depends only on the corresponding input
/// row: the capability maps positions independently.
pub proof fn lemma_adapter_forward_rowwise(
    lin: AdapterLinear,
    x: Seq<Seq<i64>>,
    y: Seq<Seq<i64>>,
    scalings: Option<Seq<Seq<i64>>>,
    global: i64,
    pass: Option<i64>,
    t: int,
    u: int,
)
    requires
        0 <= t < x.len(),
        0 <= u < y.len(),
        x[t] == y[u],
    ensures
        adapter_forward_s(lin, x, scalings, global, pass)[t] == adapter_forward_s(
            lin,
            y,
            scalings,
            global,
            pass,
        )[u],
{
    match lin.kind {
        AdapterKind::Plain => {
            assert(linear_s(x, mat_view(&lin.weight))[t] =~= linear_s(y, mat_view(&lin.weight))[u]);
        },
        AdapterKind::Lora { deltas, layer } => {
            lemma_lora_sum_rowwise(
                x,
                y,
                mat_view(&lin.weight),
                mats_view(deltas@),
                deltas@.len(),
                scalings,
                layer as int,
                global,
                pass,
                t,
                u,
            );
        },
    }
}


/// `adapter_forward_s` has one output row per input row.
pub proof fn lemma_adapter_forward_len(
    lin: AdapterLinear,
    x: Seq<Seq<i64>>,
    scalings: Option<Seq<Seq<i64>>>,
    global: i64,
    pass: Option<i64>,
)
    ensures
        adapter_forward_s(lin, x, scalings, global, pass).len() == x.len(),
{
    match lin.kind {
        AdapterKind::Plain => {
        },
        AdapterKind::Lora { deltas, layer } => {
            lemma_lora_sum_len(
                x,
                mat_view(&lin.weight),
                mats_view(deltas@),
                deltas@.len(),
                scalings,
                layer as int,
                global,
                pass,
            );
        },
    }
}

} // verus!
