//! The model orchestrator: the embedding, the block stack, the final norm
//! and output projection, the dual key-value cache, and the two-phase
//! forward of classified mode.
//!
//! In classified mode a forward call first runs the whole block stack over
//! the full context through the scratch cache to let the classifier derive
//! a scaling tensor, then runs the real pass through the primary cache with
//! that tensor. The scaling tensor is written to the holder once per
//! scaling pass, used exactly once by the real pass, and discarded before
//! the call returns.

use vstd::prelude::*;

use crate::adapter::{opt_scalings_view, Scalings};
use crate::block::{
    block_forward_s, block_loaded_s, block_slot_after_s, block_span_s, lemma_block_span_nonneg,
    Block,
};
use crate::cache::{caches_view, empty_caches_s, Cache, LayerCaches};
use crate::config::Config;
use crate::error::ModelError;
use crate::masks;
use crate::matrix::{
    clone_matrix, clone_row, dot_row, dot_row_e, lemma_rows_view_push, linear_apply, linear_s,
    mat_has_shape, mat_view, mat_wf, Matrix,
};
use crate::norm::{rms_norm_s, RmsNorm};
use crate::weights::{mat_take_s, WeightSource};

verus! {

/// Token ids are rows of the embedding table.
pub open spec fn tokens_ok_s(tokens: Seq<usize>, vocab: int) -> bool {
    forall|t: int| 0 <= t < tokens.len() ==> (#[trigger] tokens[t]) < vocab
}

/// The embedded hidden states: one table row per token.
pub open spec fn embed_s(wte: Seq<Seq<i64>>, tokens: Seq<usize>) -> Seq<Seq<i64>> {
    Seq::new(tokens.len(), |t: int| wte[tokens[t] as int])
}

/// Run the block stack from layer `i` on: the hidden states and cache
/// slots after all blocks, or `None` if some block fails.
pub open spec fn run_blocks_s(
    blocks: Seq<Block>,
    i: int,
    x: Seq<Seq<i64>>,
    offset: int,
    caches: Seq<Option<(Seq<Seq<i64>>, Seq<Seq<i64>>)>>,
    use_kv: bool,
    sv: Option<Seq<Seq<i64>>>,
    g: i64,
    p: Option<i64>,
) -> Option<(Seq<Seq<i64>>, Seq<Option<(Seq<Seq<i64>>, Seq<Seq<i64>>)>>)>
    decreases blocks.len() - i,
{
    if i < 0 || i >= blocks.len() {
        Some((x, caches))
    } else {
        match block_forward_s(blocks[i], x, offset, caches[i], use_kv, sv, g, p) {
            None => None,
            Some(br) => run_blocks_s(
                blocks,
                i + 1,
                br.0,
                offset,
                caches.update(i, br.1),
                use_kv,
                sv,
                g,
                p,
            ),
        }
    }
}

/// The cache slots after running the block stack from layer `i` on,
/// whether or not the run succeeds: a failing layer still stores its slot,
/// and later layers are left untouched.
pub open spec fn run_blocks_slots_s(
    blocks: Seq<Block>,
    i: int,
    x: Seq<Seq<i64>>,
    offset: int,
    caches: Seq<Option<(Seq<Seq<i64>>, Seq<Seq<i64>>)>>,
    use_kv: bool,
    sv: Option<Seq<Seq<i64>>>,
    g: i64,
    p: Option<i64>,
) -> Seq<Option<(Seq<Seq<i64>>, Seq<Seq<i64>>)>>
    decreases blocks.len() - i,
{
    if i < 0 || i >= blocks.len() {
        caches
    } else {
        match block_forward_s(blocks[i], x, offset, caches[i], use_kv, sv, g, p) {
            None => caches.update(
                i,
                block_slot_after_s(blocks[i], x, offset, caches[i], use_kv, sv, g, p),
            ),
            Some(br) => run_blocks_slots_s(
                blocks,
                i + 1,
                br.0,
                offset,
                caches.update(i, br.1),
                use_kv,
                sv,
                g,
                p,
            ),
        }
    }
}

/// When a block succeeds, the slot it stores is the slot its result carries.
pub proof fn lemma_block_slot_consistent(
    b: Block,
    x: Seq<Seq<i64>>,
    offset: int,
    prev: Option<(Seq<Seq<i64>>, Seq<Seq<i64>>)>,
    use_kv: bool,
    sv: Option<Seq<Seq<i64>>>,
    g: i64,
    p: Option<i64>,
)
    requires
        block_forward_s(b, x, offset, prev, use_kv, sv, g, p) is Some,
    ensures
        block_slot_after_s(b, x, offset, prev, use_kv, sv, g, p) == block_forward_s(
            b,
            x,
            offset,
            prev,
            use_kv,
            sv,
            g,
            p,
        )->Some_0.1,
{
}

/// The adapter-selection classifier: from the hidden states of a
/// full-context pass it derives one scaling per adapter per layer, and
/// carries the single global scaling weight multiplier.
pub struct XLoraClassifier {
    /// One row per (adapter, layer) pair, laid out adapter-major.
    pub weight: Matrix,
    pub global_scaling_weight: i64,
    pub n_adapters: usize,
    pub n_layers: usize,
    pub hidden_size: usize,
}

/// The scaling tensor derived from the last hidden row: entry
/// `(adapter, layer)` is the dot product of that row with the classifier
/// row of the pair.
pub open spec fn scalings_of_s(cls: XLoraClassifier, h: Seq<i64>) -> Seq<Seq<i64>> {
    Seq::new(
        cls.n_adapters as nat,
        |a: int|
            Seq::new(
                cls.n_layers as nat,
                |l: int| dot_row_e(h, mat_view(&cls.weight)[a * cls.n_layers + l]),
            ),
    )
}

/// How many source values the classifier head consumes.
pub open spec fn classifier_span_s(cfg: Config) -> int {
    (cfg.n_adapters as int) * (cfg.num_hidden_layers as int) * (cfg.hidden_size as int)
}

/// `c` holds exactly the classifier head read from `values` at `pos`.
pub open spec fn classifier_loaded_s(
    c: XLoraClassifier,
    values: Seq<i64>,
    pos: int,
    cfg: Config,
    g: i64,
) -> bool {
    &&& c.n_adapters == cfg.n_adapters
    &&& c.n_layers == cfg.num_hidden_layers
    &&& c.hidden_size == cfg.hidden_size
    &&& c.global_scaling_weight == g
    &&& mat_view(&c.weight) == mat_take_s(
        values,
        pos,
        (cfg.n_adapters as int) * (cfg.num_hidden_layers as int),
        cfg.hidden_size as int,
    )
}

impl XLoraClassifier {
    pub open spec fn wf(&self) -> bool {
        &&& mat_wf(
            mat_view(&self.weight),
            (self.n_adapters as int) * (self.n_layers as int),
            self.hidden_size as int,
        )
        &&& (self.n_adapters as int) * (self.n_layers as int) <= usize::MAX as int
    }

    pub fn get_global_scaling_weight(&self) -> (r: i64)
        ensures
            r == self.global_scaling_weight,
    {
        self.global_scaling_weight
    }

    /// Derive the scaling tensor from full-context hidden states. Fails
    /// exactly when there is no last row of the expected width to read.
    pub fn derive_scalings(&self, hs: &Matrix) -> (r: Result<Scalings, ModelError>)
        requires
            self.wf(),
        ensures
            r is Ok <==> hs@.len() >= 1 && mat_wf(
                mat_view(hs),
                hs@.len() as int,
                self.hidden_size as int,
            ),
            r matches Ok(s) ==> mat_view(&s) == scalings_of_s(
                *self,
                mat_view(hs)[hs@.len() - 1],
            ) && mat_wf(mat_view(&s), self.n_adapters as int, self.n_layers as int),
            r is Err ==> r == Err::<Scalings, ModelError>(ModelError::Shape),
    {
        if hs.len() == 0 || !mat_has_shape(hs, hs.len(), self.hidden_size) {
            return Err(ModelError::Shape);
        }
        let h = &hs[hs.len() - 1];
        let ghost target = scalings_of_s(*self, mat_view(hs)[hs@.len() - 1]);
        proof {
            assert(h@ == mat_view(hs)[hs@.len() - 1]);
        }
        let mut out: Scalings = Vec::new();
        let mut a: usize = 0;
        while a < self.n_adapters
            invariant
                a <= self.n_adapters,
                self.wf(),
                h@.len() == self.hidden_size,
                target == scalings_of_s(*self, h@),
                target.len() == self.n_adapters,
                mat_view(&out) == target.take(a as int),
            decreases self.n_adapters - a,
        {
            let mut row: Vec<i64> = Vec::new();
            let mut l: usize = 0;
            while l < self.n_layers
                invariant
                    l <= self.n_layers,
                    a < self.n_adapters,
                    self.wf(),
                    h@.len() == self.hidden_size,
                    target == scalings_of_s(*self, h@),
                    target[a as int].len() == self.n_layers,
                    row@ == target[a as int].take(l as int),
                decreases self.n_layers - l,
            {
                proof {
                    assert((a as int) * (self.n_layers as int) + (l as int) < (
                    self.n_adapters as int) * (self.n_layers as int)) by (nonlinear_arith)
                        requires
                            0 <= (a as int) < (self.n_adapters as int),
                            0 <= (l as int) < (self.n_layers as int),
                    ;
                }
                let idx: usize = a * self.n_layers + l;
                proof {
                    assert(mat_view(&self.weight)[idx as int].len() == self.hidden_size);
                }
                let d = dot_row(h, &self.weight[idx]);
                row.push(d);
                proof {
                    assert(target[a as int].take(l + 1) =~= target[a as int].take(l as int).push(
                        target[a as int][l as int],
                    ));
                }
                l += 1;
            }
            proof {
                assert(row@ =~= target[a as int]);
            }
            let ghost prev = out@;
            out.push(row);
            proof {
                lemma_rows_view_push(prev, row);
                assert(target.take(a as int).push(target[a as int]) =~= target.take(a + 1));
            }
            a += 1;
        }
        proof {
            assert(target.take(self.n_adapters as int) =~= target);
            assert(forall|k: int|
                0 <= k < target.len() ==> (#[trigger] target[k]).len() == self.n_layers);
        }
        Ok(out)
    }

    /// Build the classifier head from the weight source.
    pub fn new(ws: &mut WeightSource, cfg: &Config, global_scaling_weight: i64) -> (r: Result<
        XLoraClassifier,
        ModelError,
    >)
        requires
            cfg.wf(),
        ensures
            final(ws).values == old(ws).values,
            r is Ok <==> cfg.n_adapters * cfg.num_hidden_layers == 0 || old(ws).pos
                + classifier_span_s(*cfg) <= old(ws).values@.len(),
            r matches Ok(c) ==> c.wf() && classifier_loaded_s(
                c,
                old(ws).values@,
                old(ws).pos as int,
                *cfg,
                global_scaling_weight,
            ) && final(ws).pos == old(ws).pos + classifier_span_s(*cfg),
            r is Err ==> r == Err::<XLoraClassifier, ModelError>(ModelError::Shape),
    {
        let rows: usize = cfg.n_adapters * cfg.num_hidden_layers;
        proof {
            assert((rows as int) * (cfg.hidden_size as int) == classifier_span_s(*cfg))
                by (nonlinear_arith)
                requires
                    (rows as int) == (cfg.n_adapters as int) * (cfg.num_hidden_layers as int),
            ;
        }
        let weight = match ws.take_matrix(rows, cfg.hidden_size) {
            Ok(w) => w,
            Err(e) => {
                return Err(e);
            },
        };
        proof {
            assert(mat_view(&weight) =~= mat_take_s(
                old(ws).values@,
                old(ws).pos as int,
                rows as int,
                cfg.hidden_size as int,
            ));
        }
        Ok(
            XLoraClassifier {
                weight,
                global_scaling_weight,
                n_adapters: cfg.n_adapters,
                n_layers: cfg.num_hidden_layers,
                hidden_size: cfg.hidden_size,
            },
        )
    }
}

/// Embed a token sequence. Fails exactly when some token id is outside the
/// vocabulary.
pub fn embed(wte: &Matrix, tokens: &Vec<usize>, vocab: usize, hidden: usize) -> (r: Result<
    Matrix,
    ModelError,
>)
    requires
        mat_wf(mat_view(wte), vocab as int, hidden as int),
    ensures
        r is Ok <==> tokens_ok_s(tokens@, vocab as int),
        r matches Ok(x) ==> mat_view(&x) == embed_s(mat_view(wte), tokens@) && mat_wf(
            mat_view(&x),
            tokens@.len() as int,
            hidden as int,
        ),
        r is Err ==> r == Err::<Matrix, ModelError>(ModelError::Shape),
{
    let ghost target = embed_s(mat_view(wte), tokens@);
    let mut out: Matrix = Vec::new();
    let mut t: usize = 0;
    while t < tokens.len()
        invariant
            t <= tokens.len(),
            mat_wf(mat_view(wte), vocab as int, hidden as int),
            target == embed_s(mat_view(wte), tokens@),
            forall|u: int| 0 <= u < t ==> (#[trigger] tokens@[u]) < vocab,
            mat_view(&out) == target.take(t as int),
        decreases tokens.len() - t,
    {
        let tok: usize = tokens[t];
        if tok >= vocab {
            return Err(ModelError::Shape);
        }
        proof {
            assert(mat_view(wte)[tok as int].len() == hidden);
        }
        let row = clone_row(&wte[tok]);
        let ghost prev = out@;
        out.push(row);
        proof {
            lemma_rows_view_push(prev, row);
            assert(target.take(t as int).push(target[t as int]) =~= target.take(t + 1));
        }
        t += 1;
    }
    proof {
        assert(target.take(tokens@.len() as int) =~= target);
        assert(forall|i: int| 0 <= i < target.len() ==> (#[trigger] target[i]).len() == hidden);
    }
    Ok(out)
}

pub struct XLoraLlama {
    pub wte: Matrix,
    pub blocks: Vec<Block>,
    pub ln_f: RmsNorm,
    pub lm_head: Matrix,
    pub kv_cache: Cache,
    pub cache: masks::Cache,
    pub xlora_classifier: Option<XLoraClassifier>,
    pub hidden_size: usize,
    pub vocab_size: usize,
    pub n_adapters: usize,
}

impl XLoraLlama {
    /// The classifier's global weight, `1` when no classifier is attached.
    pub open spec fn global_weight_s(&self) -> i64 {
        match self.xlora_classifier {
            Some(c) => c.global_scaling_weight,
            None => 1,
        }
    }

    pub open spec fn slots_wf(&self, slots: Seq<Option<(Seq<Seq<i64>>, Seq<Seq<i64>>)>>) -> bool {
        forall|i: int|
            0 <= i < self.blocks@.len() ==> self.blocks@[i].attn.slot_wf(#[trigger] slots[i])
    }

    pub open spec fn wf(&self) -> bool {
        &&& 1 <= self.vocab_size
        &&& mat_wf(mat_view(&self.wte), self.vocab_size as int, self.hidden_size as int)
        &&& mat_wf(mat_view(&self.lm_head), self.vocab_size as int, self.hidden_size as int)
        &&& self.ln_f.wf()
        &&& self.ln_f.weight@.len() == self.hidden_size
        &&& forall|i: int|
            0 <= i < self.blocks@.len() ==> (#[trigger] self.blocks@[i]).wf()
                && self.blocks@[i].hidden_s() == self.hidden_size as int
                && self.blocks@[i].adapters_wf(self.n_adapters as int, self.blocks@.len() as int)
        &&& self.kv_cache.cache@.len() == self.blocks@.len()
        &&& self.slots_wf(caches_view(self.kv_cache.cache@))
        &&& self.kv_cache.is_xlora_s() == self.xlora_classifier is Some
        &&& (self.kv_cache.xlora_cache matches Some(x) ==> x@.len() == self.blocks@.len()
            && self.slots_wf(caches_view(x@)))
        &&& (self.kv_cache.scalings_cache is Some <==> self.xlora_classifier is Some)
        &&& (self.xlora_classifier matches Some(c) ==> c.wf() && c.n_adapters == self.n_adapters
            && c.n_layers == self.blocks@.len() && c.hidden_size == self.hidden_size)
        &&& self.cache.wf()
    }

    /// Every block accepts a scaling tensor of the model's shape.
    pub proof fn lemma_scalings_accepted(&self, s: Seq<Seq<i64>>)
        requires
            self.wf(),
            mat_wf(s, self.n_adapters as int, self.blocks@.len() as int),
        ensures
            forall|i: int|
                0 <= i < self.blocks@.len() ==> (#[trigger] self.blocks@[i]).accepts(Some(s)),
    {
        assert forall|i: int|
            0 <= i < self.blocks@.len() implies (#[trigger] self.blocks@[i]).accepts(Some(s)) by {
            assert(self.blocks@[i].adapters_wf(self.n_adapters as int, self.blocks@.len() as int));
            assert(forall|a: int| 0 <= a < s.len() ==> (#[trigger] s[a]).len() == self.blocks@.len());
        }
    }

    /// One pass over the whole block stack: embed, run every block against
    /// the selected cache (the scratch cache for a full pass, reset first
    /// when the incremental cache is bypassed), and apply the final norm.
    pub fn inner_forward(
        &mut self,
        input_ids: &Vec<usize>,
        seqlen_offset: usize,
        scalings: Option<&Scalings>,
        is_full_pass: bool,
        no_kv_cache: bool,
        is_scaling_pass: Option<i64>,
    ) -> (r: Result<Matrix, ModelError>)
        requires
            old(self).wf(),
            forall|i: int|
                0 <= i < old(self).blocks@.len() ==> (#[trigger] old(self).blocks@[i]).accepts(
                    opt_scalings_view(scalings),
                ),
            is_full_pass ==> old(self).kv_cache.is_xlora_s(),
            seqlen_offset + input_ids@.len() <= usize::MAX,
        ensures
            final(self).wf(),
            final(self).wte == old(self).wte,
            final(self).blocks == old(self).blocks,
            final(self).ln_f == old(self).ln_f,
            final(self).lm_head == old(self).lm_head,
            final(self).xlora_classifier == old(self).xlora_classifier,
            final(self).hidden_size == old(self).hidden_size,
            final(self).vocab_size == old(self).vocab_size,
            final(self).n_adapters == old(self).n_adapters,
            final(self).cache.use_kv_cache == old(self).cache.use_kv_cache,
            final(self).kv_cache.scalings_cache == old(self).kv_cache.scalings_cache,
            final(self).kv_cache.is_xlora_s() == old(self).kv_cache.is_xlora_s(),
            is_full_pass ==> final(self).kv_cache.cache == old(self).kv_cache.cache,
            !is_full_pass ==> final(self).kv_cache.xlora_cache == old(self).kv_cache.xlora_cache,
            !tokens_ok_s(input_ids@, old(self).vocab_size as int) ==> r is Err
                && final(self).kv_cache.cache == old(self).kv_cache.cache
                && final(self).kv_cache.xlora_cache == old(self).kv_cache.xlora_cache,
            tokens_ok_s(input_ids@, old(self).vocab_size as int) ==> ({
                let start = if is_full_pass && no_kv_cache {
                    empty_caches_s(old(self).blocks@.len())
                } else if is_full_pass {
                    caches_view(old(self).kv_cache.xlora_cache->Some_0@)
                } else {
                    caches_view(old(self).kv_cache.cache@)
                };
                let x0 = embed_s(mat_view(&old(self).wte), input_ids@);
                let run = run_blocks_s(
                    old(self).blocks@,
                    0,
                    x0,
                    seqlen_offset as int,
                    start,
                    old(self).cache.use_kv_cache,
                    opt_scalings_view(scalings),
                    old(self).global_weight_s(),
                    is_scaling_pass,
                );
                let slots = run_blocks_slots_s(
                    old(self).blocks@,
                    0,
                    x0,
                    seqlen_offset as int,
                    start,
                    old(self).cache.use_kv_cache,
                    opt_scalings_view(scalings),
                    old(self).global_weight_s(),
                    is_scaling_pass,
                );
                &&& (is_full_pass ==> caches_view(final(self).kv_cache.xlora_cache->Some_0@)
                    == slots)
                &&& (!is_full_pass ==> caches_view(final(self).kv_cache.cache@) == slots)
                &&& (r is Ok <==> run is Some)
                &&& (r matches Ok(h) ==> mat_view(&h) == rms_norm_s(
                    run->Some_0.0,
                    old(self).ln_f.weight@,
                    old(self).ln_f.eps,
                ) && mat_wf(mat_view(&h), input_ids@.len() as int, old(self).hidden_size as int))
            }),
            r is Err ==> r == Err::<Matrix, ModelError>(ModelError::Shape),
    {
        let ghost sv = opt_scalings_view(scalings);
        let g: i64 = match &self.xlora_classifier {
            Some(c) => c.get_global_scaling_weight(),
            None => 1,
        };
        let mut x = match embed(&self.wte, input_ids, self.vocab_size, self.hidden_size) {
            Ok(v) => v,
            Err(e) => {
                return Err(e);
            },
        };
        let n: usize = self.blocks.len();
        if is_full_pass && no_kv_cache {
            let fresh = crate::cache::new_layer_caches(n);
            match &mut self.kv_cache.xlora_cache {
                Some(c) => {
                    *c = fresh;
                },
                None => {
                    vstd::pervasive::unreached::<()>();
                },
            }
        }
        let ghost start = if is_full_pass {
            caches_view(self.kv_cache.xlora_cache->Some_0@)
        } else {
            caches_view(self.kv_cache.cache@)
        };
        let ghost x0v = mat_view(&x);
        let ghost use_kv = self.cache.use_kv_cache;
        proof {
            assert(self.slots_wf(start));
        }
        let mut active: LayerCaches = Vec::new();
        if is_full_pass {
            match &mut self.kv_cache.xlora_cache {
                Some(c) => core::mem::swap(&mut active, c),
                None => {
                    vstd::pervasive::unreached::<()>();
                },
            }
        } else {
            core::mem::swap(&mut active, &mut self.kv_cache.cache);
        }
        proof {
            assert(caches_view(active@) == start);
        }
        let mut idx: usize = 0;
        while idx < n
            invariant
                idx <= n,
                n == self.blocks@.len(),
                self.blocks == old(self).blocks,
                self.wte == old(self).wte,
                self.ln_f == old(self).ln_f,
                self.lm_head == old(self).lm_head,
                self.xlora_classifier == old(self).xlora_classifier,
                self.hidden_size == old(self).hidden_size,
                self.vocab_size == old(self).vocab_size,
                self.n_adapters == old(self).n_adapters,
                old(self).wf(),
                forall|i: int|
                    0 <= i < n ==> (#[trigger] self.blocks@[i]).accepts(sv),
                sv == opt_scalings_view(scalings),
                g == old(self).global_weight_s(),
                use_kv == old(self).cache.use_kv_cache,
                self.cache.wf(),
                self.cache.use_kv_cache == use_kv,
                active@.len() == n,
                tokens_ok_s(input_ids@, old(self).vocab_size as int),
                x0v == embed_s(mat_view(&old(self).wte), input_ids@),
                start == (if is_full_pass && no_kv_cache {
                    empty_caches_s(old(self).blocks@.len())
                } else if is_full_pass {
                    caches_view(old(self).kv_cache.xlora_cache->Some_0@)
                } else {
                    caches_view(old(self).kv_cache.cache@)
                }),
                is_full_pass ==> self.kv_cache.xlora_cache is Some,
                self.kv_cache.scalings_cache == old(self).kv_cache.scalings_cache,
                self.kv_cache.is_xlora_s() == old(self).kv_cache.is_xlora_s(),
                is_full_pass ==> self.kv_cache.cache == old(self).kv_cache.cache,
                !is_full_pass ==> self.kv_cache.xlora_cache == old(self).kv_cache.xlora_cache,
                forall|i: int|
                    0 <= i < n ==> self.blocks@[i].attn.slot_wf(
                        #[trigger] caches_view(active@)[i],
                    ),
                mat_wf(mat_view(&x), input_ids@.len() as int, self.hidden_size as int),
                seqlen_offset + input_ids@.len() <= usize::MAX,
                run_blocks_s(self.blocks@, 0, x0v, seqlen_offset as int, start, use_kv, sv, g,
                    is_scaling_pass) == run_blocks_s(
                    self.blocks@,
                    idx as int,
                    mat_view(&x),
                    seqlen_offset as int,
                    caches_view(active@),
                    use_kv,
                    sv,
                    g,
                    is_scaling_pass,
                ),
                run_blocks_slots_s(self.blocks@, 0, x0v, seqlen_offset as int, start, use_kv, sv,
                    g, is_scaling_pass) == run_blocks_slots_s(
                    self.blocks@,
                    idx as int,
                    mat_view(&x),
                    seqlen_offset as int,
                    caches_view(active@),
                    use_kv,
                    sv,
                    g,
                    is_scaling_pass,
                ),
            decreases n - idx,
        {
            let ghost pre_x = mat_view(&x);
            let ghost pre_caches = caches_view(active@);
            let b = &self.blocks[idx];
            let res = b.forward(
                &x,
                seqlen_offset,
                idx,
                &mut active,
                &mut self.cache,
                scalings,
                g,
                is_scaling_pass,
            );
            match res {
                Ok(nx) => {
                    proof {
                        lemma_block_slot_consistent(
                            self.blocks@[idx as int],
                            pre_x,
                            seqlen_offset as int,
                            pre_caches[idx as int],
                            use_kv,
                            sv,
                            g,
                            is_scaling_pass,
                        );
                        assert(caches_view(active@) =~= pre_caches.update(
                            idx as int,
                            block_forward_s(
                                self.blocks@[idx as int],
                                pre_x,
                                seqlen_offset as int,
                                pre_caches[idx as int],
                                use_kv,
                                sv,
                                g,
                                is_scaling_pass,
                            )->Some_0.1,
                        ));
                    }
                    x = nx;
                },
                Err(e) => {
                    proof {
                        assert(caches_view(active@) =~= pre_caches.update(
                            idx as int,
                            block_slot_after_s(
                                self.blocks@[idx as int],
                                pre_x,
                                seqlen_offset as int,
                                pre_caches[idx as int],
                                use_kv,
                                sv,
                                g,
                                is_scaling_pass,
                            ),
                        ));
                    }
                    if is_full_pass {
                        match &mut self.kv_cache.xlora_cache {
                            Some(c) => core::mem::swap(&mut active, c),
                            None => {
                                vstd::pervasive::unreached::<()>();
                            },
                        }
                    } else {
                        core::mem::swap(&mut active, &mut self.kv_cache.cache);
                    }
                    return Err(e);
                },
            }
            idx += 1;
        }
        if is_full_pass {
            match &mut self.kv_cache.xlora_cache {
                Some(c) => core::mem::swap(&mut active, c),
                None => {
                    vstd::pervasive::unreached::<()>();
                },
            }
        } else {
            core::mem::swap(&mut active, &mut self.kv_cache.cache);
        }
        match self.ln_f.forward(&x) {
            Ok(h) => Ok(h),
            Err(e) => Err(e),
        }
    }
}


impl XLoraLlama {
    pub fn get_cache(&self) -> (r: &Cache)
        ensures
            r == &self.kv_cache,
    {
        &self.kv_cache
    }

    /// The classifier accessor; calling it on a model without one is a
    /// precondition violation.
    pub fn get_classifier(&self) -> (r: &XLoraClassifier)
        requires
            self.xlora_classifier is Some,
        ensures
            r == &self.xlora_classifier->Some_0,
    {
        match &self.xlora_classifier {
            Some(c) => c,
            None => vstd::pervasive::unreached(),
        }
    }

    /// The scaling-derivation pass: run the full context through the
    /// scratch cache with no scaling tensor, hand the hidden states to the
    /// classifier, and record the derived tensor in the holder.
    fn get_scalings(
        &mut self,
        input_ids_full: &Vec<usize>,
        seqlen_offset_full: usize,
        no_kv_cache: bool,
    ) -> (r: Result<Scalings, ModelError>)
        requires
            old(self).wf(),
            old(self).xlora_classifier is Some,
            seqlen_offset_full + input_ids_full@.len() <= usize::MAX,
        ensures
            final(self).wf(),
            final(self).wte == old(self).wte,
            final(self).blocks == old(self).blocks,
            final(self).ln_f == old(self).ln_f,
            final(self).lm_head == old(self).lm_head,
            final(self).xlora_classifier == old(self).xlora_classifier,
            final(self).hidden_size == old(self).hidden_size,
            final(self).vocab_size == old(self).vocab_size,
            final(self).n_adapters == old(self).n_adapters,
            final(self).cache.use_kv_cache == old(self).cache.use_kv_cache,
            final(self).kv_cache.cache == old(self).kv_cache.cache,
            final(self).kv_cache.is_xlora_s() == old(self).kv_cache.is_xlora_s(),
            ({
                let start = if no_kv_cache {
                    empty_caches_s(old(self).blocks@.len())
                } else {
                    caches_view(old(self).kv_cache.xlora_cache->Some_0@)
                };
                let x0 = embed_s(mat_view(&old(self).wte), input_ids_full@);
                let run = run_blocks_s(
                    old(self).blocks@,
                    0,
                    x0,
                    seqlen_offset_full as int,
                    start,
                    old(self).cache.use_kv_cache,
                    None,
                    old(self).global_weight_s(),
                    None,
                );
                &&& (tokens_ok_s(input_ids_full@, old(self).vocab_size as int) ==> caches_view(
                    final(self).kv_cache.xlora_cache->Some_0@,
                ) == run_blocks_slots_s(
                    old(self).blocks@,
                    0,
                    x0,
                    seqlen_offset_full as int,
                    start,
                    old(self).cache.use_kv_cache,
                    None,
                    old(self).global_weight_s(),
                    None,
                ))
                &&& (r is Ok <==> tokens_ok_s(input_ids_full@, old(self).vocab_size as int) && run
                    is Some && input_ids_full@.len() >= 1)
                &&& (r matches Ok(sc) ==> mat_view(&sc) == scalings_of_s(
                    old(self).xlora_classifier->Some_0,
                    rms_norm_s(run->Some_0.0, old(self).ln_f.weight@, old(self).ln_f.eps)[
                        input_ids_full@.len() - 1],
                ) && mat_wf(
                    mat_view(&sc),
                    old(self).n_adapters as int,
                    old(self).blocks@.len() as int,
                ) && (final(self).kv_cache.scalings_cache matches Some(h) && (h matches Some(
                    held,
                ) && mat_view(&held) == mat_view(&sc))))
                &&& (r is Err ==> r == Err::<Scalings, ModelError>(ModelError::Shape)
                    && final(self).kv_cache.scalings_cache == old(self).kv_cache.scalings_cache)
            }),
    {
        proof {
            assert forall|i: int|
                0 <= i < self.blocks@.len() implies (#[trigger] self.blocks@[i]).accepts(
                opt_scalings_view(None),
            ) by {}
        }
        let h = match self.inner_forward(
            input_ids_full,
            seqlen_offset_full,
            None,
            true,
            no_kv_cache,
            None,
        ) {
            Ok(v) => v,
            Err(e) => {
                return Err(e);
            },
        };
        let scalings = match &self.xlora_classifier {
            Some(c) => {
                match c.derive_scalings(&h) {
                    Ok(v) => v,
                    Err(e) => {
                        return Err(e);
                    },
                }
            },
            None => vstd::pervasive::unreached(),
        };
        let held = clone_matrix(&scalings);
        match &mut self.kv_cache.scalings_cache {
            Some(slot) => {
                *slot = Some(held);
            },
            None => {
                vstd::pervasive::unreached::<()>();
            },
        }
        Ok(scalings)
    }
}


/// How many source values a whole model consumes.
pub open spec fn model_span_s(cfg: Config, xlora: bool) -> int {
    2 * (cfg.vocab_size as int) * (cfg.hidden_size as int) + (cfg.hidden_size as int) + (
    cfg.num_hidden_layers as int) * block_span_s(cfg) + if xlora {
        classifier_span_s(cfg)
    } else {
        0
    }
}

/// `m` holds exactly the model read from `values` at `pos`: the embedding
/// table, the output head, the final norm, one block per layer, and the
/// classifier head when configured.
pub open spec fn model_loaded_s(
    m: XLoraLlama,
    values: Seq<i64>,
    pos: int,
    cfg: Config,
    xlora_global_weight: Option<i64>,
) -> bool {
    let v = cfg.vocab_size as int;
    let h = cfg.hidden_size as int;
    let base = pos + 2 * v * h + h;
    &&& mat_view(&m.wte) == mat_take_s(values, pos, v, h)
    &&& mat_view(&m.lm_head) == mat_take_s(values, pos + v * h, v, h)
    &&& m.ln_f.weight@ == values.subrange(pos + 2 * v * h, pos + 2 * v * h + h)
    &&& m.ln_f.eps == cfg.rms_norm_eps
    &&& m.blocks@.len() == cfg.num_hidden_layers
    &&& (forall|i: int|
        0 <= i < m.blocks@.len() ==> block_loaded_s(
            #[trigger] m.blocks@[i],
            values,
            base + i * block_span_s(cfg),
            cfg,
            i,
        ))
    &&& (match (m.xlora_classifier, xlora_global_weight) {
        (Some(c), Some(g)) => classifier_loaded_s(
            c,
            values,
            base + (cfg.num_hidden_layers as int) * block_span_s(cfg),
            cfg,
            g,
        ),
        (None, None) => true,
        _ => false,
    })
}

/// The scaling-derivation run of classified mode: the full context through
/// the scratch slots (reset to all-empty first when the incremental cache
/// is bypassed), with no scaling tensor.
pub open spec fn scaling_run_s(m: XLoraLlama, full: Seq<usize>, off_full: int, no_kv: bool) -> Option<
    (Seq<Seq<i64>>, Seq<Option<(Seq<Seq<i64>>, Seq<Seq<i64>>)>>),
> {
    run_blocks_s(
        m.blocks@,
        0,
        embed_s(mat_view(&m.wte), full),
        off_full,
        if no_kv {
            empty_caches_s(m.blocks@.len())
        } else {
            caches_view(m.kv_cache.xlora_cache->Some_0@)
        },
        m.cache.use_kv_cache,
        None,
        m.global_weight_s(),
        None,
    )
}

/// When the scaling-derivation pass succeeds.
pub open spec fn scaling_pass_ok_s(m: XLoraLlama, full: Seq<usize>, off_full: int, no_kv: bool) -> bool {
    tokens_ok_s(full, m.vocab_size as int) && scaling_run_s(m, full, off_full, no_kv) is Some
        && full.len() >= 1
}

/// The scaling tensor the classifier derives from the scaling pass.
pub open spec fn derived_scalings_s(m: XLoraLlama, full: Seq<usize>, off_full: int, no_kv: bool) -> Seq<
    Seq<i64>,
> {
    scalings_of_s(
        m.xlora_classifier->Some_0,
        rms_norm_s(
            scaling_run_s(m, full, off_full, no_kv)->Some_0.0,
            m.ln_f.weight@,
            m.ln_f.eps,
        )[full.len() - 1],
    )
}

impl XLoraLlama {
    /// The two-phase forward. Without a classifier this is a single pass
    /// over the incremental input through the primary cache. With one, a
    /// scaling-derivation pass over the full context (through the scratch
    /// cache, reset first when the incremental cache is bypassed) produces
    /// the scaling tensor, and the real pass runs through the primary cache
    /// with it, over the full context when bypassing or the incremental
    /// input otherwise. The result is the logits row of the last position.
    /// The derived scaling tensor is used by the real pass alone and the
    /// holder is cleared before returning.
    pub fn forward(
        &mut self,
        input_ids: &Vec<usize>,
        input_ids_full: &Vec<usize>,
        seqlen_offsets: usize,
        seqlen_offsets_full: usize,
        no_kv_cache: bool,
    ) -> (r: Result<Vec<i64>, ModelError>)
        requires
            old(self).wf(),
            seqlen_offsets + input_ids@.len() <= usize::MAX,
            seqlen_offsets_full + input_ids_full@.len() <= usize::MAX,
        ensures
            final(self).wf(),
            final(self).wte == old(self).wte,
            final(self).blocks == old(self).blocks,
            final(self).ln_f == old(self).ln_f,
            final(self).lm_head == old(self).lm_head,
            final(self).xlora_classifier == old(self).xlora_classifier,
            final(self).cache.use_kv_cache == old(self).cache.use_kv_cache,
            old(self).xlora_classifier is Some && r is Ok ==> final(self).kv_cache.scalings_cache
                == Some(None::<Scalings>),
            old(self).xlora_classifier is None ==> ({
                let x0 = embed_s(mat_view(&old(self).wte), input_ids@);
                let run = run_blocks_s(
                    old(self).blocks@,
                    0,
                    x0,
                    seqlen_offsets as int,
                    caches_view(old(self).kv_cache.cache@),
                    old(self).cache.use_kv_cache,
                    None,
                    old(self).global_weight_s(),
                    None,
                );
                &&& (r is Ok <==> tokens_ok_s(input_ids@, old(self).vocab_size as int) && run
                    is Some && input_ids@.len() >= 1)
                &&& (r matches Ok(v) ==> v@ == linear_s(
                    rms_norm_s(run->Some_0.0, old(self).ln_f.weight@, old(self).ln_f.eps),
                    mat_view(&old(self).lm_head),
                )[input_ids@.len() - 1])
                &&& (tokens_ok_s(input_ids@, old(self).vocab_size as int) ==> caches_view(
                    final(self).kv_cache.cache@,
                ) == run_blocks_slots_s(
                    old(self).blocks@,
                    0,
                    x0,
                    seqlen_offsets as int,
                    caches_view(old(self).kv_cache.cache@),
                    old(self).cache.use_kv_cache,
                    None,
                    old(self).global_weight_s(),
                    None,
                ))
                &&& final(self).kv_cache.xlora_cache == old(self).kv_cache.xlora_cache
            }),
            old(self).xlora_classifier is Some ==> ({
                let m0 = *old(self);
                let p1ok = scaling_pass_ok_s(
                    m0,
                    input_ids_full@,
                    seqlen_offsets_full as int,
                    no_kv_cache,
                );
                let sv = derived_scalings_s(
                    m0,
                    input_ids_full@,
                    seqlen_offsets_full as int,
                    no_kv_cache,
                );
                let toks2 = if no_kv_cache {
                    input_ids_full@
                } else {
                    input_ids@
                };
                let off2 = if no_kv_cache {
                    seqlen_offsets_full as int
                } else {
                    seqlen_offsets as int
                };
                let x02 = embed_s(mat_view(&m0.wte), toks2);
                let run2 = run_blocks_s(
                    m0.blocks@,
                    0,
                    x02,
                    off2,
                    caches_view(m0.kv_cache.cache@),
                    m0.cache.use_kv_cache,
                    Some(sv),
                    m0.global_weight_s(),
                    None,
                );
                &&& (r is Ok <==> p1ok && tokens_ok_s(toks2, m0.vocab_size as int) && run2
                    is Some && toks2.len() >= 1)
                &&& (r matches Ok(v) ==> v@ == linear_s(
                    rms_norm_s(run2->Some_0.0, m0.ln_f.weight@, m0.ln_f.eps),
                    mat_view(&m0.lm_head),
                )[toks2.len() - 1])
                &&& (p1ok && tokens_ok_s(toks2, m0.vocab_size as int) ==> caches_view(
                    final(self).kv_cache.cache@,
                ) == run_blocks_slots_s(
                    m0.blocks@,
                    0,
                    x02,
                    off2,
                    caches_view(m0.kv_cache.cache@),
                    m0.cache.use_kv_cache,
                    Some(sv),
                    m0.global_weight_s(),
                    None,
                ))
                &&& (p1ok && !tokens_ok_s(toks2, m0.vocab_size as int) ==> caches_view(
                    final(self).kv_cache.cache@,
                ) == caches_view(m0.kv_cache.cache@))
                &&& (!p1ok ==> caches_view(final(self).kv_cache.cache@) == caches_view(
                    m0.kv_cache.cache@,
                ))
            }),
            old(self).xlora_classifier is Some && no_kv_cache && tokens_ok_s(
                input_ids_full@,
                old(self).vocab_size as int,
            ) ==> caches_view(final(self).kv_cache.xlora_cache->Some_0@) == run_blocks_slots_s(
                old(self).blocks@,
                0,
                embed_s(mat_view(&old(self).wte), input_ids_full@),
                seqlen_offsets_full as int,
                empty_caches_s(old(self).blocks@.len()),
                old(self).cache.use_kv_cache,
                None,
                old(self).global_weight_s(),
                None,
            ),
            r is Err ==> r == Err::<Vec<i64>, ModelError>(ModelError::Shape),
    {
        let classified = matches!(&self.xlora_classifier, Some(_));
        if classified {
            let scalings = match self.get_scalings(
                input_ids_full,
                seqlen_offsets_full,
                no_kv_cache,
            ) {
                Ok(v) => v,
                Err(e) => {
                    return Err(e);
                },
            };
            proof {
                self.lemma_scalings_accepted(mat_view(&scalings));
            }
            let h = if no_kv_cache {
                match self.inner_forward(
                    input_ids_full,
                    seqlen_offsets_full,
                    Some(&scalings),
                    false,
                    no_kv_cache,
                    None,
                ) {
                    Ok(v) => v,
                    Err(e) => {
                        return Err(e);
                    },
                }
            } else {
                match self.inner_forward(
                    input_ids,
                    seqlen_offsets,
                    Some(&scalings),
                    false,
                    no_kv_cache,
                    None,
                ) {
                    Ok(v) => v,
                    Err(e) => {
                        return Err(e);
                    },
                }
            };
            match &mut self.kv_cache.scalings_cache {
                Some(slot) => {
                    *slot = None;
                },
                None => {
                    vstd::pervasive::unreached::<()>();
                },
            }
            if h.len() == 0 {
                return Err(ModelError::Shape);
            }
            let lm = linear_apply(&h, &self.lm_head, self.hidden_size);
            Ok(clone_row(&lm[lm.len() - 1]))
        } else {
            let h = match self.inner_forward(
                input_ids,
                seqlen_offsets,
                None,
                false,
                no_kv_cache,
                None,
            ) {
                Ok(v) => v,
                Err(e) => {
                    return Err(e);
                },
            };
            if h.len() == 0 {
                return Err(ModelError::Shape);
            }
            let lm = linear_apply(&h, &self.lm_head, self.hidden_size);
            Ok(clone_row(&lm[lm.len() - 1]))
        }
    }

    /// Build the whole model from a weight source: embedding, output head,
    /// final norm, the block stack, the dual cache and, when a global
    /// scaling weight is supplied, the adapter classifier. Succeeds exactly
    /// when the source holds the model's whole span, and then every weight
    /// of the model is pinned to the values read, so a model built from a
    /// given pool is completely determined by it.
    pub fn load(
        ws: &mut WeightSource,
        cfg: &Config,
        xlora_global_weight: Option<i64>,
        no_kv_cache: bool,
    ) -> (r: Result<XLoraLlama, ModelError>)
        requires
            cfg.wf(),
        ensures
            final(ws).values == old(ws).values,
            r is Ok <==> old(ws).pos + model_span_s(*cfg, xlora_global_weight is Some) <= old(
                ws,
            ).values@.len(),
            r matches Ok(m) ==> m.wf() && m.hidden_size == cfg.hidden_size && m.vocab_size
                == cfg.vocab_size && m.n_adapters == cfg.n_adapters && m.blocks@.len()
                == cfg.num_hidden_layers && m.cache.use_kv_cache == !no_kv_cache
                && (m.xlora_classifier is Some <==> xlora_global_weight is Some)
                && caches_view(m.kv_cache.cache@) == empty_caches_s(cfg.num_hidden_layers as nat)
                && (m.kv_cache.xlora_cache matches Some(x) ==> caches_view(x@) == empty_caches_s(
                cfg.num_hidden_layers as nat,
            )) && (m.xlora_classifier matches Some(c) ==> c.global_scaling_weight
                == xlora_global_weight->Some_0) && model_loaded_s(
                m,
                old(ws).values@,
                old(ws).pos as int,
                *cfg,
                xlora_global_weight,
            ) && final(ws).pos == old(ws).pos + model_span_s(
                *cfg,
                xlora_global_weight is Some,
            ),
            r is Err ==> r == Err::<XLoraLlama, ModelError>(ModelError::Shape),
    {
        proof {
            lemma_block_span_nonneg(*cfg);
            assert(0 <= (cfg.num_hidden_layers as int) * block_span_s(*cfg) && 0
                <= classifier_span_s(*cfg) && 0 <= (cfg.vocab_size as int) * (
            cfg.hidden_size as int)) by (nonlinear_arith)
                requires
                    0 <= block_span_s(*cfg),
                    0 <= cfg.num_hidden_layers,
                    0 <= cfg.n_adapters,
                    1 <= cfg.vocab_size,
                    1 <= cfg.hidden_size,
            ;
            assert(0 <= (cfg.n_adapters as int) * (cfg.num_hidden_layers as int) * (
            cfg.hidden_size as int)) by (nonlinear_arith)
                requires
                    0 <= cfg.n_adapters,
                    0 <= cfg.num_hidden_layers,
                    1 <= cfg.hidden_size,
            ;
            assert(2 * (cfg.vocab_size as int) * (cfg.hidden_size as int) == (
            cfg.vocab_size as int) * (cfg.hidden_size as int) + (cfg.vocab_size as int) * (
            cfg.hidden_size as int)) by (nonlinear_arith);
        }
        let ghost pos0 = old(ws).pos as int;
        let ghost vals = old(ws).values@;
        let wte = match ws.take_matrix(cfg.vocab_size, cfg.hidden_size) {
            Ok(v) => v,
            Err(e) => {
                return Err(e);
            },
        };
        let lm_head = match ws.take_matrix(cfg.vocab_size, cfg.hidden_size) {
            Ok(v) => v,
            Err(e) => {
                return Err(e);
            },
        };
        let ln_f = match RmsNorm::new(cfg.hidden_size, cfg.rms_norm_eps, ws) {
            Ok(v) => v,
            Err(e) => {
                return Err(e);
            },
        };
        proof {
            assert(mat_view(&wte) =~= mat_take_s(
                vals,
                pos0,
                cfg.vocab_size as int,
                cfg.hidden_size as int,
            ));
            assert(mat_view(&lm_head) =~= mat_take_s(
                vals,
                pos0 + (cfg.vocab_size as int) * (cfg.hidden_size as int),
                cfg.vocab_size as int,
                cfg.hidden_size as int,
            ));
        }
        let ghost base = pos0 + 2 * (cfg.vocab_size as int) * (cfg.hidden_size as int) + (
        cfg.hidden_size as int);
        let mut blocks: Vec<Block> = Vec::new();
        let mut i: usize = 0;
        while i < cfg.num_hidden_layers
            invariant
                i <= cfg.num_hidden_layers,
                cfg.wf(),
                ws.values == old(ws).values,
                vals == old(ws).values@,
                pos0 == old(ws).pos,
                base == pos0 + 2 * (cfg.vocab_size as int) * (cfg.hidden_size as int) + (
                cfg.hidden_size as int),
                ws.pos == base + (i as int) * block_span_s(*cfg),
                ws.pos <= ws.values@.len(),
                0 <= block_span_s(*cfg),
                blocks@.len() == i,
                forall|k: int|
                    0 <= k < i ==> (#[trigger] blocks@[k]).wf() && blocks@[k].hidden_s()
                        == cfg.hidden_size as int && blocks@[k].adapters_wf(
                        cfg.n_adapters as int,
                        cfg.num_hidden_layers as int,
                    ),
                forall|k: int|
                    0 <= k < i ==> block_loaded_s(
                        #[trigger] blocks@[k],
                        vals,
                        base + k * block_span_s(*cfg),
                        *cfg,
                        k,
                    ),
            decreases cfg.num_hidden_layers - i,
        {
            let b = match Block::load(ws, cfg, i) {
                Ok(v) => v,
                Err(e) => {
                    proof {
                        assert((i as int) * block_span_s(*cfg) + block_span_s(*cfg) == (i as int
                            + 1) * block_span_s(*cfg)) by (nonlinear_arith);
                        assert((i as int + 1) * block_span_s(*cfg) <= (
                        cfg.num_hidden_layers as int) * block_span_s(*cfg)) by (nonlinear_arith)
                            requires
                                (i as int) < (cfg.num_hidden_layers as int),
                                0 <= block_span_s(*cfg),
                        ;
                        assert(0 <= (cfg.n_adapters as int) * (cfg.num_hidden_layers as int) * (
                        cfg.hidden_size as int)) by (nonlinear_arith)
                            requires
                                0 <= cfg.n_adapters,
                                0 <= cfg.num_hidden_layers,
                                1 <= cfg.hidden_size,
                        ;
                    }
                    return Err(e);
                },
            };
            let ghost prevb = blocks@;
            blocks.push(b);
            proof {
                assert((i as int) * block_span_s(*cfg) + block_span_s(*cfg) == (i as int + 1)
                    * block_span_s(*cfg)) by (nonlinear_arith);
                assert forall|k: int|
                    0 <= k < i + 1 implies block_loaded_s(
                    #[trigger] blocks@[k],
                    vals,
                    base + k * block_span_s(*cfg),
                    *cfg,
                    k,
                ) by {
                    if k < i {
                        assert(blocks@[k] == prevb[k]);
                    } else {
                        assert(blocks@[k] == b);
                    }
                }
            }
            i += 1;
        }
        proof {
            assert((cfg.num_hidden_layers as int) * block_span_s(*cfg) == (i as int)
                * block_span_s(*cfg));
        }
        let is_xlora = matches!(&xlora_global_weight, Some(_));
        let xlora_classifier = match xlora_global_weight {
            Some(g) => {
                match XLoraClassifier::new(ws, cfg, g) {
                    Ok(c) => Some(c),
                    Err(e) => {
                        return Err(e);
                    },
                }
            },
            None => None,
        };
        let kv_cache = Cache::new(cfg.num_hidden_layers, is_xlora);
        let cache = masks::Cache::new(!no_kv_cache);
        let m = XLoraLlama {
            wte,
            blocks,
            ln_f,
            lm_head,
            kv_cache,
            cache,
            xlora_classifier,
            hidden_size: cfg.hidden_size,
            vocab_size: cfg.vocab_size,
            n_adapters: cfg.n_adapters,
        };
        proof {
            assert forall|k: int|
                0 <= k < m.blocks@.len() implies m.blocks@[k].attn.slot_wf(
                #[trigger] caches_view(m.kv_cache.cache@)[k],
            ) by {
                assert(caches_view(m.kv_cache.cache@)[k] is None);
            }
            if m.kv_cache.xlora_cache is Some {
                assert forall|k: int|
                    0 <= k < m.blocks@.len() implies m.blocks@[k].attn.slot_wf(
                    #[trigger] caches_view(m.kv_cache.xlora_cache->Some_0@)[k],
                ) by {
                    assert(caches_view(m.kv_cache.xlora_cache->Some_0@)[k] is None);
                }
            }
        }
        Ok(m)
    }
}

} // verus!
