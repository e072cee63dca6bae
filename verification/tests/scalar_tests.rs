use xlora_core::scalar::{attn_weight, div_trunc, isqrt, sat_add, sat_mul, sat_sub, silu_gate};

#[test]
fn saturating_arithmetic_clamps_at_the_bounds() {
    assert_eq!(sat_add(i64::MAX, 1), i64::MAX);
    assert_eq!(sat_add(i64::MIN, -1), i64::MIN);
    assert_eq!(sat_sub(i64::MIN, 1), i64::MIN);
    assert_eq!(sat_mul(i64::MAX, 2), i64::MAX);
    assert_eq!(sat_mul(i64::MIN, 2), i64::MIN);
    assert_eq!(sat_add(3, 4), 7);
    assert_eq!(sat_mul(-3, 4), -12);
}

#[test]
fn division_truncates_toward_zero() {
    assert_eq!(div_trunc(7, 2), 3);
    assert_eq!(div_trunc(-7, 2), -3);
    assert_eq!(div_trunc(0, 5), 0);
    assert_eq!(div_trunc(i64::MIN, 1), i64::MIN);
}

#[test]
fn integer_square_root_is_the_floor_root() {
    assert_eq!(isqrt(1), 1);
    assert_eq!(isqrt(3), 1);
    assert_eq!(isqrt(4), 2);
    assert_eq!(isqrt(15), 3);
    assert_eq!(isqrt(16), 4);
    assert_eq!(isqrt(0xffff_ffff), 65535);
}

#[test]
fn gate_and_attention_weight_surrogates() {
    assert_eq!(silu_gate(-5), 0);
    assert_eq!(silu_gate(5), 5);
    assert_eq!(attn_weight(0), 64);
    assert_eq!(attn_weight(-1), 63);
    assert_eq!(attn_weight(-64), 0);
    assert_eq!(attn_weight(i64::MIN), 0);
}
