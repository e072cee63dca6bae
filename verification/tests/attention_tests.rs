use xlora_core::adapter::AdapterLinear;
use xlora_core::attention::CausalSelfAttention;
use xlora_core::config::Config;
use xlora_core::weights::WeightSource;

fn weight_pool(n: usize) -> Vec<i64> {
    let mut v: Vec<i64> = Vec::new();
    for i in 0..n {
        v.push(((i as i64 * 7) % 5) - 2);
    }
    v
}

fn grouped_config() -> Config {
    Config {
        hidden_size: 16,
        intermediate_size: 16,
        vocab_size: 5,
        num_hidden_layers: 1,
        num_attention_heads: 8,
        num_key_value_heads: 2,
        rms_norm_eps: 1,
        max_seq_len: 8,
        k_truncate_threshold: 8,
        v_truncate_threshold: 8,
        n_adapters: 0,
    }
}

#[test]
fn grouped_query_repetition_copies_each_kv_head_four_times() {
    let mut ws = WeightSource::new(weight_pool(4000));
    let att = CausalSelfAttention::load(&mut ws, &grouped_config(), 0).unwrap();
    // head_dim = 2, two kv heads, eight query heads.
    let input: Vec<Vec<i64>> = vec![vec![10, 11, 20, 21]];
    let out = att.repeat_kv(&input);
    assert_eq!(out.len(), 1);
    assert_eq!(out[0].len(), 16);
    for group in 0..2usize {
        for rep in 0..4usize {
            let h = group * 4 + rep;
            for d in 0..2usize {
                assert_eq!(out[0][h * 2 + d], input[0][group * 2 + d]);
            }
        }
    }
}

#[test]
fn scaling_pass_flag_is_forwarded_into_the_projection() {
    let mut ws = WeightSource::new(weight_pool(64));
    let lin = AdapterLinear::load(&mut ws, 2, 2, 1, 0).unwrap();
    let x: Vec<Vec<i64>> = vec![vec![1, 2]];
    let scalings: Vec<Vec<i64>> = vec![vec![3]];
    let plain = lin.forward(&x, Some(&scalings), 1, None).unwrap();
    let passed = lin.forward(&x, Some(&scalings), 1, Some(5)).unwrap();
    assert_ne!(plain, passed);
    // Without a scaling tensor only the base weight applies.
    let base = lin.forward(&x, None, 1, None).unwrap();
    let base_again = lin.forward(&x, None, 1, Some(5)).unwrap();
    assert_eq!(base, base_again);
}

#[test]
fn projection_rejects_mismatched_input_width() {
    let mut ws = WeightSource::new(weight_pool(64));
    let lin = AdapterLinear::load(&mut ws, 2, 2, 0, 0).unwrap();
    let bad: Vec<Vec<i64>> = vec![vec![1, 2, 3]];
    assert_eq!(lin.forward(&bad, None, 1, None), Err(xlora_core::error::ModelError::Shape));
}

#[test]
fn masked_future_positions_never_leak_even_at_saturated_scores() {
    // Weights big enough that every attendable score saturates to the very
    // bottom of the element range: masked future positions must still weigh
    // exactly zero, so output row 0 cannot depend on the second position.
    let big: i64 = 3_037_000_500;
    let plain = |w: Vec<Vec<i64>>| AdapterLinear {
        weight: w,
        kind: xlora_core::adapter::AdapterKind::Plain,
        in_features: 2,
        out_features: 2,
    };
    let att = CausalSelfAttention {
        q_proj: plain(vec![vec![big, 0], vec![0, big]]),
        k_proj: plain(vec![vec![-big, 0], vec![0, -big]]),
        v_proj: plain(vec![vec![1, 0], vec![0, 1]]),
        o_proj: plain(vec![vec![1, 0], vec![0, 1]]),
        num_attention_heads: 1,
        num_key_value_heads: 1,
        head_dim: 2,
        sqrt_head_dim: 1,
        hidden_size: 2,
        max_seq_len: 8,
        k_threshold: 8,
        v_threshold: 8,
    };
    let run = |second_row: Vec<i64>| {
        let x: Vec<Vec<i64>> = vec![vec![big, big], second_row];
        let mut kv: Vec<Option<(Vec<Vec<i64>>, Vec<Vec<i64>>)>> = vec![None];
        let mut cache = xlora_core::masks::Cache::new(false);
        att.forward(&x, 0, 0, &mut kv, &mut cache, None, 1, None).unwrap()
    };
    let one = run(vec![1, 2]);
    let other = run(vec![-7, 5]);
    assert_eq!(one[0], other[0]);
}
