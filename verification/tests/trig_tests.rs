use lightcast::trig::{atan_ratio_mdeg, sin_mdeg, cos_mdeg};
use lightcast::field::rotate_float_offset;

#[test]
fn atan_exact_points() {
    assert_eq!(atan_ratio_mdeg(0), 0);
    assert_eq!(atan_ratio_mdeg(1_000_000), 45_000);
    assert_eq!(atan_ratio_mdeg(-1_000_000), -45_000);
}

#[test]
fn atan_is_monotone_on_samples() {
    let mut prev = atan_ratio_mdeg(0);
    for r in [100_000i64, 500_000, 1_000_000, 2_000_000, 10_000_000, 100_000_000] {
        let a = atan_ratio_mdeg(r);
        assert!(a >= prev);
        prev = a;
    }
}

#[test]
fn sine_exact_points() {
    assert_eq!(sin_mdeg(0), 0);
    assert_eq!(sin_mdeg(30_000), 500_000);
    assert_eq!(sin_mdeg(90_000), 1_000_000);
    assert_eq!(sin_mdeg(180_000), 0);
    assert_eq!(sin_mdeg(270_000), -1_000_000);
}

#[test]
fn cosine_exact_points() {
    assert_eq!(cos_mdeg(0), 1_000_000);
    assert_eq!(cos_mdeg(90_000), 0);
    assert_eq!(cos_mdeg(180_000), -1_000_000);
    assert_eq!(cos_mdeg(270_000), 0);
}

#[test]
fn rotate_offset_follows_direction() {
    // A forward offset of 0.4 tiles swings with the facing, magnitude
    // preserved.
    assert_eq!(rotate_float_offset((400_000, 0), 0), (400_000, 0));
    assert_eq!(rotate_float_offset((400_000, 0), 90_000), (0, 400_000));
    assert_eq!(rotate_float_offset((400_000, 0), 180_000), (-400_000, 0));
    assert_eq!(rotate_float_offset((400_000, 0), 270_000), (0, -400_000));
}
