use xlora_core::config::Config;
use xlora_core::error::ModelError;
use xlora_core::model::XLoraLlama;
use xlora_core::weights::WeightSource;

fn weight_pool(n: usize) -> Vec<i64> {
    let mut v: Vec<i64> = Vec::new();
    for i in 0..n {
        v.push(((i as i64 * 7) % 5) - 2);
    }
    v
}

fn toy_config(n_adapters: usize) -> Config {
    Config {
        hidden_size: 4,
        intermediate_size: 4,
        vocab_size: 5,
        num_hidden_layers: 2,
        num_attention_heads: 1,
        num_key_value_heads: 1,
        rms_norm_eps: 1,
        max_seq_len: 8,
        k_truncate_threshold: 8,
        v_truncate_threshold: 8,
        n_adapters,
    }
}

fn toy_model(n_adapters: usize, global: Option<i64>, no_kv_cache: bool) -> XLoraLlama {
    let mut ws = WeightSource::new(weight_pool(4000));
    XLoraLlama::load(&mut ws, &toy_config(n_adapters), global, no_kv_cache).unwrap()
}

#[test]
fn end_to_end_logits_without_classifier() {
    let mut m = toy_model(0, None, true);
    let toks: Vec<usize> = vec![1, 2, 3];
    let logits = m.forward(&toks, &toks, 0, 0, true).unwrap();
    assert_eq!(logits, vec![5, -4, 2, -2, -1]);
}

#[test]
fn end_to_end_logits_with_classifier() {
    let mut m = toy_model(1, Some(2), true);
    let toks: Vec<usize> = vec![1, 2, 3];
    let logits = m.forward(&toks, &toks, 0, 0, true).unwrap();
    assert_eq!(logits, vec![-4, 2, -2, 4, 0]);
}

#[test]
fn forward_is_bit_reproducible_across_runs() {
    let toks: Vec<usize> = vec![1, 2, 3];
    let mut a = toy_model(0, None, true);
    let mut b = toy_model(0, None, true);
    assert_eq!(
        a.forward(&toks, &toks, 0, 0, true).unwrap(),
        b.forward(&toks, &toks, 0, 0, true).unwrap()
    );
    let mut c = toy_model(1, Some(2), true);
    let mut d = toy_model(1, Some(2), true);
    assert_eq!(
        c.forward(&toks, &toks, 0, 0, true).unwrap(),
        d.forward(&toks, &toks, 0, 0, true).unwrap()
    );
}

#[test]
fn incremental_cache_round_trip_matches_full_recomputation() {
    // Two tokens fed one at a time with caching enabled, offsets 0 then 1.
    let mut inc = toy_model(0, None, false);
    let t1: Vec<usize> = vec![1];
    let t2: Vec<usize> = vec![2];
    inc.forward(&t1, &t1, 0, 0, false).unwrap();
    let incremental = inc.forward(&t2, &t2, 1, 1, false).unwrap();
    // The same two tokens in a single uncached call.
    let mut full = toy_model(0, None, true);
    let both: Vec<usize> = vec![1, 2];
    let recomputed = full.forward(&both, &both, 0, 0, true).unwrap();
    assert_eq!(incremental, recomputed);
    assert_eq!(incremental, vec![1, -2, 0, 2, -1]);
}

#[test]
fn cache_truncation_keeps_only_the_most_recent_rows() {
    let mut cfg = toy_config(0);
    cfg.max_seq_len = 4;
    cfg.k_truncate_threshold = 4;
    cfg.v_truncate_threshold = 4;
    let mut ws = WeightSource::new(weight_pool(4000));
    let mut m = XLoraLlama::load(&mut ws, &cfg, None, false).unwrap();
    let mut prev: Vec<Option<(Vec<Vec<i64>>, Vec<Vec<i64>>)>> = Vec::new();
    for step in 0..7usize {
        let tok: Vec<usize> = vec![(step % 5) as usize];
        m.forward(&tok, &tok, step, step, false).unwrap();
        let now = m.kv_cache.cache.clone();
        for layer in 0..2usize {
            let (k, v) = now[layer].as_ref().unwrap();
            let expected_rows = if step + 1 < 4 { step + 1 } else { 4 };
            assert_eq!(k.len(), expected_rows);
            assert_eq!(v.len(), expected_rows);
            if step >= 4 {
                // Oldest-first eviction: the surviving rows are the
                // previous step's rows shifted by one, plus one new row.
                let (pk, pv) = prev[layer].as_ref().unwrap();
                assert_eq!(&k[..3], &pk[1..4]);
                assert_eq!(&v[..3], &pv[1..4]);
            }
        }
        prev = now;
    }
}

#[test]
fn scratch_cache_holds_only_the_current_context_after_bypass() {
    // A model that has seen an earlier, unrelated context.
    let mut seasoned = toy_model(1, Some(2), false);
    let old_ctx: Vec<usize> = vec![4];
    seasoned.forward(&old_ctx, &old_ctx, 0, 0, true).unwrap();
    let cur: Vec<usize> = vec![1];
    let full: Vec<usize> = vec![1, 2];
    // The real pass of this call cannot broadcast against the residue the
    // earlier context left in the primary cache, but the scaling pass has
    // already rewritten the scratch cache from the current context alone.
    let _ = seasoned.forward(&cur, &full, 0, 0, true);
    // A fresh model given only the current full context.
    let mut fresh = toy_model(1, Some(2), false);
    fresh.forward(&cur, &full, 0, 0, true).unwrap();
    assert_eq!(seasoned.kv_cache.xlora_cache, fresh.kv_cache.xlora_cache);
}

#[test]
fn scaling_tensor_is_discarded_after_the_call() {
    let mut m = toy_model(1, Some(2), true);
    let toks: Vec<usize> = vec![1, 2, 3];
    m.forward(&toks, &toks, 0, 0, true).unwrap();
    assert_eq!(m.kv_cache.scalings_cache, Some(None));
}

#[test]
fn out_of_vocabulary_token_is_a_shape_error() {
    let mut m = toy_model(0, None, true);
    let toks: Vec<usize> = vec![1, 99];
    assert_eq!(m.forward(&toks, &toks, 0, 0, true), Err(ModelError::Shape));
}

#[test]
fn empty_input_is_a_shape_error() {
    let mut m = toy_model(0, None, true);
    let toks: Vec<usize> = Vec::new();
    assert_eq!(m.forward(&toks, &toks, 0, 0, true), Err(ModelError::Shape));
}

#[test]
fn multi_token_call_against_a_filled_cache_is_a_shape_error() {
    // The square mask cannot broadcast against a longer cached context.
    let mut m = toy_model(0, None, false);
    let one: Vec<usize> = vec![1];
    m.forward(&one, &one, 0, 0, false).unwrap();
    let two: Vec<usize> = vec![2, 3];
    assert_eq!(m.forward(&two, &two, 1, 1, false), Err(ModelError::Shape));
}

#[test]
fn exhausted_weight_source_is_a_shape_error() {
    let mut ws = WeightSource::new(weight_pool(10));
    assert_eq!(
        XLoraLlama::load(&mut ws, &toy_config(0), None, true).err(),
        Some(ModelError::Shape)
    );
}

#[test]
fn cache_accessors_expose_the_configured_state() {
    let mut m = toy_model(1, Some(2), true);
    assert!(m.get_cache().is_xlora());
    assert_eq!(m.get_classifier().get_global_scaling_weight(), 2);
    let mut plain = toy_model(0, None, true);
    assert!(!plain.get_cache().is_xlora());
    assert_eq!(plain.kv_cache.lock().len(), 2);
    assert_eq!(m.kv_cache.xlora_lock().len(), 2);
    assert_eq!(*m.kv_cache.get_scalings_cache(), None);
}
