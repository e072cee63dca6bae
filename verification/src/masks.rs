//! Memoized causal masks, and the flag that enables key-value caching.
//!
//! `Cache` maps a sequence length to the square boolean mask whose entry
//! `(i, j)` says whether position `j` must be hidden from position `i`
//! (strictly upper triangular: the diagonal and everything below are
//! attendable). Entries are appended once and never invalidated, since a
//! mask is a pure function of its length.

use vstd::pervasive::VecAdditionalExecFns;
use vstd::prelude::*;

use crate::matrix::{lemma_rows_view_push, mat_view, Matrix};

verus! {

/// View of a sequence of boolean row vectors as a sequence of row sequences.
pub open spec fn bool_rows_view(s: Seq<Vec<bool>>) -> Seq<Seq<bool>> {
    Seq::new(s.len(), |i: int| s[i]@)
}

/// View of a boolean matrix as a sequence of row sequences.
pub open spec fn bool_mat_view(m: &Vec<Vec<bool>>) -> Seq<Seq<bool>> {
    bool_rows_view(m@)
}

/// The causal mask for sequence length `t`: entry `(i, j)` is true exactly
/// when `j > i`, that is, when `j` lies in the future of `i`.
pub open spec fn causal_mask_s(t: nat) -> Seq<Seq<bool>> {
    Seq::new(t, |i: int| Seq::new(t, |j: int| j > i))
}

pub struct Cache {
    /// Slot `t` memoizes the mask of length `t`; `None` until first use.
    pub masks: Vec<Option<Vec<Vec<bool>>>>,
    /// Whether the key-value cache participates in attention calls.
    pub use_kv_cache: bool,
}

impl Cache {
    /// Every memoized entry really is the causal mask of its length.
    pub open spec fn wf(&self) -> bool {
        forall|t: int|
            0 <= t < self.masks@.len() && (#[trigger] self.masks@[t]) is Some
                ==> bool_mat_view(&self.masks@[t]->Some_0) == causal_mask_s(t as nat)
    }

    pub fn new(use_kv_cache: bool) -> (r: Self)
        ensures
            r.wf(),
            r.use_kv_cache == use_kv_cache,
            r.masks@.len() == 0,
    {
        Cache { masks: Vec::new(), use_kv_cache }
    }

    /// Return (and memoize) the causal mask for length `t`. The memo table
    /// only ever grows and is append-only: the call fills at most the entry
    /// for `t`, never removes or alters any other entry, and a slot already
    /// filled is never rewritten, so repeated calls hand back the very
    /// tensor that was stored first.
    pub fn mask(&mut self, t: usize) -> (r: Vec<Vec<bool>>)
        requires
            old(self).wf(),
        ensures
            final(self).wf(),
            final(self).use_kv_cache == old(self).use_kv_cache,
            bool_mat_view(&r) == causal_mask_s(t as nat),
            t < final(self).masks@.len(),
            final(self).masks@[t as int] is Some,
            bool_mat_view(&final(self).masks@[t as int]->Some_0) == causal_mask_s(t as nat),
            final(self).masks@.len() == (if t < old(self).masks@.len() {
                old(self).masks@.len() as int
            } else {
                t + 1
            }),
            forall|u: int|
                0 <= u < old(self).masks@.len() && u != t
                    ==> final(self).masks@[u] == old(self).masks@[u],
            forall|u: int|
                old(self).masks@.len() <= u < final(self).masks@.len() && u != t
                    ==> final(self).masks@[u] is None,
            t < old(self).masks@.len() && old(self).masks@[t as int] is Some
                ==> final(self).masks@[t as int] == old(self).masks@[t as int],
    {
        while self.masks.len() <= t
            invariant
                self.wf(),
                self.use_kv_cache == old(self).use_kv_cache,
                old(self).masks@.len() <= self.masks@.len(),
                old(self).masks@.len() <= t ==> self.masks@.len() <= t + 1,
                t < old(self).masks@.len() ==> self.masks == old(self).masks,
                forall|u: int|
                    0 <= u < old(self).masks@.len() ==> self.masks@[u] == old(self).masks@[u],
                forall|u: int|
                    old(self).masks@.len() <= u < self.masks@.len() ==> self.masks@[u] is None,
            decreases t + 1 - self.masks.len(),
        {
            self.masks.push(None);
        }
        let cached = matches!(&self.masks[t], Some(_));
        if cached {
            let r = match &self.masks[t] {
                Some(m) => clone_bool_matrix(m),
                None => vstd::pervasive::unreached(),
            };
            r
        } else {
            let m = build_causal_mask(t);
            let copy = clone_bool_matrix(&m);
            self.masks.set(t, Some(m));
            proof {
                assert forall|u: int|
                    0 <= u < self.masks@.len() && (#[trigger] self.masks@[u]) is Some implies
                    bool_mat_view(&self.masks@[u]->Some_0) == causal_mask_s(u as nat) by {
                    if u == t {
                    }
                }
            }
            copy
        }
    }
}

/// Build the strictly-upper-triangular boolean mask of size `t` by `t`.
pub fn build_causal_mask(t: usize) -> (r: Vec<Vec<bool>>)
    ensures
        bool_mat_view(&r) == causal_mask_s(t as nat),
{
    let ghost target = causal_mask_s(t as nat);
    let mut out: Vec<Vec<bool>> = Vec::new();
    let mut i: usize = 0;
    while i < t
        invariant
            i <= t,
            target == causal_mask_s(t as nat),
            bool_rows_view(out@) == target.take(i as int),
        decreases t - i,
    {
        let mut row: Vec<bool> = Vec::new();
        let mut j: usize = 0;
        while j < t
            invariant
                j <= t,
                i < t,
                target == causal_mask_s(t as nat),
                row@ == target[i as int].take(j as int),
            decreases t - j,
        {
            row.push(j > i);
            proof {
                assert(target[i as int].take(j + 1) =~= target[i as int].take(j as int).push(
                    target[i as int][j as int],
                ));
            }
            j += 1;
        }
        proof {
            assert(row@ =~= target[i as int]);
        }
        let ghost prev = out@;
        out.push(row);
        proof {
            assert(bool_rows_view(prev.push(row)) =~= bool_rows_view(prev).push(row@));
            assert(target.take(i as int).push(target[i as int]) =~= target.take(i + 1));
        }
        i += 1;
    }
    proof {
        assert(target.take(t as int) =~= target);
    }
    out
}

pub fn clone_bool_matrix(m: &Vec<Vec<bool>>) -> (r: Vec<Vec<bool>>)
    ensures
        bool_mat_view(&r) == bool_mat_view(m),
{
    let mut out: Vec<Vec<bool>> = Vec::new();
    let mut i: usize = 0;
    while i < m.len()
        invariant
            i <= m.len(),
            bool_rows_view(out@) == bool_mat_view(m).take(i as int),
        decreases m.len() - i,
    {
        let src = &m[i];
        let mut row: Vec<bool> = Vec::new();
        let mut j: usize = 0;
        while j < src.len()
            invariant
                j <= src.len(),
                row@ == src@.take(j as int),
            decreases src.len() - j,
        {
            let b: bool = src[j];
            row.push(b);
            proof {
                assert(src@.take(j + 1) =~= src@.take(j as int).push(src@[j as int]));
            }
            j += 1;
        }
        proof {
            assert(row@ =~= src@);
        }
        let ghost prev = out@;
        out.push(row);
        proof {
            assert(bool_rows_view(prev.push(row)) =~= bool_rows_view(prev).push(row@));
            assert(bool_mat_view(m).take(i as int).push(m@[i as int]@) =~= bool_mat_view(m).take(
                i + 1,
            ));
        }
        i += 1;
    }
    proof {
        assert(bool_mat_view(m).take(m@.len() as int) =~= bool_mat_view(m));
    }
    out
}

/// Fill the masked positions of a score matrix with `on_true` and keep the
/// unmasked scores; mask and scores must have the same shape.
pub open spec fn masked_fill_s(on_false: Seq<Seq<i64>>, mask: Seq<Seq<bool>>, on_true: i64) -> Seq<
    Seq<i64>,
> {
    Seq::new(
        on_false.len(),
        |i: int| Seq::new(on_false[i].len(), |j: int| if mask[i][j] { on_true } else { on_false[i][j] }),
    )
}

pub fn masked_fill(on_false: &Matrix, mask: &Vec<Vec<bool>>, on_true: i64) -> (r:
    Matrix)
    requires
        mask@.len() == on_false@.len(),
        forall|i: int|
            0 <= i < on_false@.len() ==> (#[trigger] mask@[i]@).len() == on_false@[i]@.len(),
    ensures
        mat_view(&r) == masked_fill_s(
            mat_view(on_false),
            bool_mat_view(mask),
            on_true,
        ),
{
    let ghost target = masked_fill_s(
        mat_view(on_false),
        bool_mat_view(mask),
        on_true,
    );
    let mut out: Matrix = Vec::new();
    let mut i: usize = 0;
    while i < on_false.len()
        invariant
            i <= on_false.len(),
            mask@.len() == on_false@.len(),
            forall|k: int|
                0 <= k < on_false@.len() ==> (#[trigger] mask@[k]@).len() == on_false@[k]@.len(),
            target == masked_fill_s(
                mat_view(on_false),
                bool_mat_view(mask),
                on_true,
            ),
            mat_view(&out) == target.take(i as int),
        decreases on_false.len() - i,
    {
        let src = &on_false[i];
        let mrow = &mask[i];
        let mut row: Vec<i64> = Vec::new();
        let mut j: usize = 0;
        while j < src.len()
            invariant
                j <= src.len(),
                i < on_false.len(),
                mask@.len() == on_false@.len(),
                src@ == on_false@[i as int]@,
                mrow@ == mask@[i as int]@,
                mrow@.len() == src@.len(),
                target == masked_fill_s(
                    mat_view(on_false),
                    bool_mat_view(mask),
                    on_true,
                ),
                target[i as int].len() == src@.len(),
                row@ == target[i as int].take(j as int),
            decreases src.len() - j,
        {
            let v: i64 = if mrow[j] {
                on_true
            } else {
                src[j]
            };
            row.push(v);
            proof {
                assert(target[i as int].take(j + 1) =~= target[i as int].take(j as int).push(
                    target[i as int][j as int],
                ));
            }
            j += 1;
        }
        proof {
            assert(row@ =~= target[i as int]);
        }
        let ghost prev = out@;
        out.push(row);
        proof {
            lemma_rows_view_push(prev, row);
            assert(target.take(i as int).push(target[i as int]) =~= target.take(i + 1));
        }
        i += 1;
    }
    proof {
        assert(target.take(on_false@.len() as int) =~= target);
    }
    out
}

/// Masks are consistent across lengths: restricted to its top-left
/// `l1` by `l1` corner, the mask for any longer length `l2` agrees entry for
/// entry with the mask for `l1`.
pub proof fn lemma_mask_consistent(l1: nat, l2: nat, i: int, j: int)
    requires
        l1 <= l2,
        0 <= i < l1,
        0 <= j < l1,
    ensures
        causal_mask_s(l2)[i][j] == causal_mask_s(l1)[i][j],
{
}

/// The mask contract pins the returned tensor completely, so any two calls
/// for the same length return bit-identical masks, whether or not either
/// call was served from the memo table.
pub proof fn lemma_mask_deterministic(m1: Seq<Seq<bool>>, m2: Seq<Seq<bool>>, t: nat)
    requires
        m1 == causal_mask_s(t),
        m2 == causal_mask_s(t),
    ensures
        m1 == m2,
{
}

} // verus!
