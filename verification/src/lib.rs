//! Verified integer model of an X-LoRA transformer inference core.
//!
//! The library models the attention/cache/orchestration subsystem of a
//! transformer runtime with dynamic per-token adapter blending: a dual
//! key-value cache (a committed incremental cache plus a scratch cache for
//! classifier passes), causal self-attention with rotary position embedding,
//! grouped-query head repetition and drop-oldest cache truncation, and the
//! two-phase forward orchestration that first derives per-layer adapter
//! scalings from the full context and then runs the real incremental pass.
//!
//! Tensor elements are modelled as saturating 64-bit integers; the scalar
//! nonlinearities (activation, attention weighting, normalization) are
//! integer surrogates defined in `scalar`. The model handles one sequence
//! per forward call, with a single absolute position offset: every modelled
//! operation acts on batch elements independently, so a caller with a batch
//! drives one call per sequence. Device and dtype handling, the fused
//! attention kernel and the floating-point element type itself are outside
//! the model. Every structural decision of the core - what is
//! projected, rotated, cached, truncated, repeated, masked, mixed and
//! re-projected, and which cache each pass touches - is carried out exactly
//! and proved against the specification functions in each module.

pub mod adapter;
pub mod attention;
pub mod block;
pub mod cache;
pub mod config;
pub mod error;
pub mod masks;
pub mod mlp;
pub mod model;
pub mod matrix;
pub mod norm;
pub mod rotary;
pub mod scalar;
pub mod weights;
