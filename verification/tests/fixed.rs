use arena_combat::fixed::{advance, isqrt, rate_over_time, saturate_i32, saturate_i64};
use arena_combat::vector::Vec3;

#[test]
fn isqrt_rounds_down() {
    assert_eq!(isqrt(0), 0);
    assert_eq!(isqrt(1), 1);
    assert_eq!(isqrt(15), 3);
    assert_eq!(isqrt(16), 4);
    assert_eq!(isqrt(17), 4);
    assert_eq!(isqrt(1_000_000), 1_000);
    assert_eq!(isqrt(u128::MAX), u64::MAX);
}

#[test]
fn rates_round_toward_zero() {
    assert_eq!(rate_over_time(1_000, 500_000_000), 500);
    assert_eq!(rate_over_time(-1_000, 500_000_000), -500);
    assert_eq!(rate_over_time(3, 500_000_000), 1);
    assert_eq!(rate_over_time(-3, 500_000_000), -1);
    assert_eq!(rate_over_time(-1, 1), 0);
    assert_eq!(rate_over_time(7, 0), 0);
}

#[test]
fn advance_adds_rate_times_time() {
    assert_eq!(advance(100, 1_000, 500_000_000), 600);
    assert_eq!(advance(100, -1_000, 500_000_000), -400);
    assert_eq!(advance(i32::MAX, 1_000, 1_000_000_000), i32::MAX);
    assert_eq!(advance(i32::MIN, -1_000, 1_000_000_000), i32::MIN);
    assert_eq!(advance(0, i32::MAX, u64::MAX), i32::MAX);
}

#[test]
fn saturation_clamps_at_both_ends() {
    assert_eq!(saturate_i32(5), 5);
    assert_eq!(saturate_i32(i32::MAX as i128 + 1), i32::MAX);
    assert_eq!(saturate_i32(i32::MIN as i128 - 1), i32::MIN);
    assert_eq!(saturate_i64(i64::MAX as i128 + 1), i64::MAX);
    assert_eq!(saturate_i64(i64::MIN as i128 - 1), i64::MIN);
}

#[test]
fn distance_squared_is_exact() {
    let a = Vec3::new(1_000, 2_000, 3_000);
    let b = Vec3::new(4_000, 6_000, 3_000);
    assert_eq!(a.distance_squared_to(&b), 25_000_000);
    assert_eq!(b.distance_squared_to(&a), 25_000_000);
    let far = Vec3::new(i32::MAX, i32::MAX, i32::MAX);
    let near = Vec3::new(i32::MIN, i32::MIN, i32::MIN);
    assert_eq!(far.distance_squared_to(&near), 3 * (u32::MAX as u128) * (u32::MAX as u128));
}

#[test]
fn resized_keeps_direction_and_sets_length() {
    assert_eq!(Vec3::new(3_000, 0, 4_000).resized(10_000), Vec3::new(6_000, 0, 8_000));
    assert_eq!(Vec3::new(-3_000, 0, 4_000).resized(10_000), Vec3::new(-6_000, 0, 8_000));
    assert_eq!(Vec3::new(1, 1, 0).resized(1_000), Vec3::new(707, 707, 0));
    assert_eq!(Vec3::new(0, 0, -7).resized(50_000), Vec3::new(0, 0, -50_000));
    assert_eq!(Vec3::new(0, 0, 0).resized(1_000), Vec3::new(0, 0, 0));
}

#[test]
fn scale_multiplies_by_a_fraction() {
    assert_eq!(Vec3::new(1_000, 0, -1_000).scale(500, 1_000), Vec3::new(500, 0, -500));
    assert_eq!(Vec3::new(3, -3, 0).scale(1, 2), Vec3::new(1, -1, 0));
    assert_eq!(Vec3::new(i32::MAX, 0, 0).scale(2, 1), Vec3::new(i32::MAX, 0, 0));
}

#[test]
fn sums_and_differences_saturate() {
    let a = Vec3::new(1, 2, 3);
    let b = Vec3::new(10, 20, 30);
    assert_eq!(a.saturating_add(&b), Vec3::new(11, 22, 33));
    assert_eq!(a.saturating_sub(&b), Vec3::new(-9, -18, -27));
    let top = Vec3::new(i32::MAX, 0, i32::MIN);
    assert_eq!(top.saturating_add(&Vec3::new(1, 0, -1)), top);
    assert_eq!(Vec3::new(0, 0, 0).saturating_sub(&Vec3::new(i32::MIN, 0, 0)), Vec3::new(i32::MAX, 0, 0));
}

#[test]
fn advance_moves_each_component() {
    let p = Vec3::new(0, 0, -20_000);
    let v = Vec3::new(500, 0, 1_000);
    assert_eq!(p.advance(&v, 500_000_000), Vec3::new(250, 0, -19_500));
}
