use particle_life::fixed::{dist, isqrt_u128, wrap_coord, Fp, SCALE};

fn fp_raw(raw: i64) -> Fp {
    Fp { raw }
}

#[test]
fn scale_is_one_million() {
    assert_eq!(SCALE, 1_000_000);
    assert_eq!(Fp::from_int(1).raw, 1_000_000);
    assert_eq!(Fp::from_int(-3).raw, -3_000_000);
}

#[test]
fn add_sub_exact_and_saturating() {
    assert_eq!(fp_raw(2_500_000).add(fp_raw(1_250_000)).raw, 3_750_000);
    assert_eq!(fp_raw(2_500_000).sub(fp_raw(4_000_000)).raw, -1_500_000);
    assert_eq!(fp_raw(i64::MAX).add(fp_raw(1)).raw, i64::MAX);
    assert_eq!(fp_raw(i64::MIN).sub(fp_raw(1)).raw, i64::MIN);
    assert_eq!(fp_raw(i64::MIN).neg().raw, i64::MAX);
    assert_eq!(fp_raw(-7).neg().raw, 7);
}

#[test]
fn mul_matches_rational_product() {
    // 2.5 * 4 = 10
    assert_eq!(fp_raw(2_500_000).mul(Fp::from_int(4)).raw, 10_000_000);
    // (-1.5) * 0.5 = -0.75
    assert_eq!(fp_raw(-1_500_000).mul(fp_raw(500_000)).raw, -750_000);
    // Truncation is toward zero: 0.0000015 * 0.5 = 0.00000075 -> 0.0000007
    assert_eq!(fp_raw(15).mul(fp_raw(500_000)).raw, 7);
    assert_eq!(fp_raw(-15).mul(fp_raw(500_000)).raw, -7);
}

#[test]
fn div_truncates_toward_zero() {
    // 1 / 3 = 0.333333...
    assert_eq!(Fp::from_int(1).div(Fp::from_int(3)).raw, 333_333);
    assert_eq!(Fp::from_int(-1).div(Fp::from_int(3)).raw, -333_333);
    assert_eq!(Fp::from_int(1).div(Fp::from_int(-3)).raw, -333_333);
    assert_eq!(Fp::from_int(10).div(Fp::from_int(4)).raw, 2_500_000);
}

#[test]
fn isqrt_exact_values() {
    assert_eq!(isqrt_u128(0), 0);
    assert_eq!(isqrt_u128(1), 1);
    assert_eq!(isqrt_u128(3), 1);
    assert_eq!(isqrt_u128(4), 2);
    assert_eq!(isqrt_u128(10), 3);
    assert_eq!(isqrt_u128(1_000_000_000_000), 1_000_000);
    let big: u128 = (1u128 << 126) + (1u128 << 100);
    let r = isqrt_u128(big);
    assert!(r * r <= big);
    assert!((r + 1) * (r + 1) > big);
}

#[test]
fn dist_is_euclidean_length() {
    // A 3-4-5 triangle in whole units.
    assert_eq!(dist(Fp::from_int(3), Fp::from_int(4)).raw, 5_000_000);
    assert_eq!(dist(Fp::from_int(-3), Fp::from_int(4)).raw, 5_000_000);
    assert_eq!(dist(Fp::from_int(0), Fp::from_int(0)).raw, 0);
    // Non-perfect squares round down: |(1, 1)| = 1.414213...
    assert_eq!(dist(Fp::from_int(1), Fp::from_int(1)).raw, 1_414_213);
}

#[test]
fn wrap_stays_on_plane() {
    let dim = Fp::from_int(100);
    assert_eq!(wrap_coord(fp_raw(101_500_000), dim).raw, 1_500_000);
    assert_eq!(wrap_coord(fp_raw(-1_500_000), dim).raw, 98_500_000);
    assert_eq!(wrap_coord(fp_raw(0), dim).raw, 0);
    assert_eq!(wrap_coord(fp_raw(99_999_999), dim).raw, 99_999_999);
    assert_eq!(wrap_coord(Fp::from_int(100), dim).raw, 0);
}
