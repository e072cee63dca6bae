//! Model configuration shared by all components.

use vstd::prelude::*;

verus! {

pub struct Config {
    pub hidden_size: usize,
    pub intermediate_size: usize,
    pub vocab_size: usize,
    pub num_hidden_layers: usize,
    pub num_attention_heads: usize,
    pub num_key_value_heads: usize,
    pub rms_norm_eps: i64,
    /// The cap shared by the rotary table and the cache truncation policy:
    /// at most this many key/value rows are ever kept per layer.
    pub max_seq_len: usize,
    /// Row count past which the key side of a cache slot is truncated.
    pub k_truncate_threshold: usize,
    /// Row count past which the value side of a cache slot is truncated.
    pub v_truncate_threshold: usize,
    /// How many candidate adapters every projection carries (zero for a
    /// model of plain projections).
    pub n_adapters: usize,
}

impl Config {
    /// Width of one attention head.
    pub open spec fn head_dim_s(&self) -> int {
        self.hidden_size as int / self.num_attention_heads as int
    }

    pub open spec fn wf(&self) -> bool {
        &&& 1 <= self.hidden_size <= 0xffff_ffff
        &&& 1 <= self.intermediate_size <= 0xffff_ffff
        &&& 1 <= self.vocab_size
        &&& 1 <= self.num_attention_heads
        &&& 1 <= self.num_key_value_heads
        &&& self.num_attention_heads % self.num_key_value_heads == 0
        &&& 2 <= self.head_dim_s()
        &&& self.head_dim_s() % 2 == 0
        &&& 0 <= self.rms_norm_eps
        &&& 1 <= self.max_seq_len
        &&& self.max_seq_len <= self.k_truncate_threshold
        &&& self.max_seq_len <= self.v_truncate_threshold
        &&& (self.n_adapters as int) * (self.num_hidden_layers as int) <= usize::MAX as int
    }
}

} // verus!
