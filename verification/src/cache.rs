//! The dual key-value cache and the scalings holder.
//!
//! One instance holds, per transformer layer, an optional `(key, value)`
//! pair. A model configured for adapter classification owns two independent
//! instances' worth of slots inside one `Cache`: the primary slots used by
//! normal decode steps, and the scratch slots used only while the classifier
//! re-derives scalings from the full context, plus a holder for the last
//! derived scaling tensor. Exclusive-access locking collapses to `&mut`
//! access in this model: a forward call is sequential, and each handle is
//! released before the next block runs.

use vstd::prelude::*;

use crate::adapter::Scalings;
use crate::matrix::{mat_view, Matrix};

verus! {

pub type LayerCaches = Vec<Option<(Matrix, Matrix)>>;

/// View of one layer slot as key/value row sequences.
pub open spec fn slot_view(s: Option<(Matrix, Matrix)>) -> Option<(Seq<Seq<i64>>, Seq<Seq<i64>>)> {
    match s {
        None => None,
        Some(kv) => Some((mat_view(&kv.0), mat_view(&kv.1))),
    }
}

/// View of a whole run of layer slots.
pub open spec fn caches_view(c: Seq<Option<(Matrix, Matrix)>>) -> Seq<
    Option<(Seq<Seq<i64>>, Seq<Seq<i64>>)>,
> {
    Seq::new(c.len(), |i: int| slot_view(c[i]))
}

/// The all-empty cache of a given layer count.
pub open spec fn empty_caches_s(len: nat) -> Seq<Option<(Seq<Seq<i64>>, Seq<Seq<i64>>)>> {
    Seq::new(len, |i: int| None::<(Seq<Seq<i64>>, Seq<Seq<i64>>)>)
}

/// Fresh all-empty layer slots, one per layer.
pub fn new_layer_caches(len: usize) -> (r: LayerCaches)
    ensures
        r@.len() == len,
        caches_view(r@) == empty_caches_s(len as nat),
{
    let mut out: LayerCaches = Vec::new();
    let mut i: usize = 0;
    while i < len
        invariant
            i <= len,
            out@.len() == i,
            forall|k: int| 0 <= k < i ==> (#[trigger] out@[k]) is None,
        decreases len - i,
    {
        out.push(None);
        i += 1;
    }
    proof {
        assert(caches_view(out@) =~= empty_caches_s(len as nat));
    }
    out
}

pub struct Cache {
    /// The committed incremental-decode slots.
    pub cache: LayerCaches,
    /// The scratch slots for full-context scaling passes; present exactly
    /// when the model is configured for adapter classification.
    pub xlora_cache: Option<LayerCaches>,
    /// The holder for the last derived scaling tensor; present exactly when
    /// the model is configured for adapter classification.
    pub scalings_cache: Option<Option<Scalings>>,
}

impl Cache {
    pub open spec fn is_xlora_s(&self) -> bool {
        self.xlora_cache is Some
    }

    pub fn new(len: usize, is_xlora: bool) -> (r: Self)
        ensures
            r.cache@.len() == len,
            caches_view(r.cache@) == empty_caches_s(len as nat),
            r.is_xlora_s() == is_xlora,
            r.xlora_cache matches Some(x) ==> x@.len() == len && caches_view(x@)
                == empty_caches_s(len as nat),
            is_xlora ==> r.scalings_cache == Some(None::<Scalings>),
            !is_xlora ==> r.scalings_cache is None,
    {
        Cache {
            cache: new_layer_caches(len),
            xlora_cache: if is_xlora {
                Some(new_layer_caches(len))
            } else {
                None
            },
            scalings_cache: if is_xlora {
                Some(None)
            } else {
                None
            },
        }
    }

    /// Exclusive handle to the incremental-decode slots.
    pub fn lock(&mut self) -> (r: &mut LayerCaches)
        ensures
            *r == old(self).cache,
            *final(self) == (Cache {
                cache: *final(r),
                xlora_cache: old(self).xlora_cache,
                scalings_cache: old(self).scalings_cache,
            }),
    {
        &mut self.cache
    }

    /// Exclusive handle to the scratch slots; requesting it on a model
    /// without a classifier is a precondition violation.
    pub fn xlora_lock(&mut self) -> (r: &mut LayerCaches)
        requires
            old(self).is_xlora_s(),
        ensures
            *r == old(self).xlora_cache->Some_0,
            *final(self) == (Cache {
                cache: old(self).cache,
                xlora_cache: Some(*final(r)),
                scalings_cache: old(self).scalings_cache,
            }),
    {
        match &mut self.xlora_cache {
            Some(c) => c,
            None => vstd::pervasive::unreached(),
        }
    }

    /// Exclusive handle to the scalings holder; requesting it on a model
    /// without a classifier is a precondition violation.
    pub fn get_scalings_cache(&mut self) -> (r: &mut Option<Scalings>)
        requires
            old(self).scalings_cache is Some,
        ensures
            *r == old(self).scalings_cache->Some_0,
            *final(self) == (Cache {
                cache: old(self).cache,
                xlora_cache: old(self).xlora_cache,
                scalings_cache: Some(*final(r)),
            }),
    {
        match &mut self.scalings_cache {
            Some(c) => c,
            None => vstd::pervasive::unreached(),
        }
    }

    pub fn is_xlora(&self) -> (r: bool)
        ensures
            r == self.is_xlora_s(),
    {
        matches!(&self.xlora_cache, Some(_))
    }
}

} // verus!
