use lightcast::tables::BrightnessTables;
use lightcast::fixed::MICRO;

#[test]
fn brightness_is_full_at_one_tile() {
    let t = BrightnessTables::new();
    // At the reference distance of one tile no light has been lost yet,
    // whatever the collimation.
    assert_eq!(t.read_brightness_table(20, 0), MICRO);
    assert_eq!(t.read_brightness_table(20, 45_000), MICRO);
    assert_eq!(t.read_brightness_table(20, 90_000), MICRO);
}

#[test]
fn collimation_zero_never_dims() {
    let t = BrightnessTables::new();
    assert_eq!(t.read_brightness_table(100, 0), MICRO);
    assert_eq!(t.read_brightness_table(2_000, 0), MICRO);
    assert_eq!(t.read_brightness_table(4_020, 0), MICRO);
}

#[test]
fn brightness_known_values() {
    let t = BrightnessTables::new();
    // Collimation 45 degrees gives an inverse-linear falloff: half
    // brightness at two tiles, a fifth at five.
    assert_eq!(t.read_brightness_table(40, 45_000), 499_968);
    assert_eq!(t.read_brightness_table(100, 45_000), 199_992);
    // Collimation 90 degrees gives an inverse-square falloff: a quarter
    // at two tiles.
    assert_eq!(t.read_brightness_table(40, 90_000), 249_954);
}

#[test]
fn brightness_monotonic_in_distance() {
    let t = BrightnessTables::new();
    let mut prev = t.read_brightness_table(20, 45_000);
    for steps in [40u64, 100, 200, 400, 1_000, 2_000, 4_020] {
        let b = t.read_brightness_table(steps, 45_000);
        assert!(b <= prev);
        prev = b;
    }
    // And strictly falls somewhere.
    assert!(t.read_brightness_table(4_020, 45_000) < t.read_brightness_table(20, 45_000));
}

#[test]
fn brightness_clamps_out_of_range_inputs() {
    let t = BrightnessTables::new();
    // Distances beyond the table read its last column; collimations
    // beyond ninety degrees read the last row.
    assert_eq!(t.read_brightness_table(9_999, 45_000), t.read_brightness_table(4_020, 45_000));
    assert_eq!(t.read_brightness_table(40, 200_000), t.read_brightness_table(40, 90_000));
    // Distances under one tile count as one tile.
    assert_eq!(t.read_brightness_table(3, 45_000), t.read_brightness_table(20, 45_000));
}

#[test]
fn distance_table_known_values() {
    let t = BrightnessTables::new();
    // Zero brightness is extinguished immediately.
    assert_eq!(t.read_distance_table(0, 45_000), 0);
    // Full brightness with no falloff never drops below the cutoff, so
    // the radius caps at the table end.
    assert_eq!(t.read_distance_table(MICRO, 0), 4_000);
    // Half brightness at ninety-degree collimation crosses the cutoff at
    // a known distance index.
    assert_eq!(t.read_distance_table(500_000, 90_000), 296);
}

#[test]
fn radius_brightness_inverse_consistency() {
    let t = BrightnessTables::new();
    // At the table-derived radius the attenuated brightness has fallen to
    // the visibility cutoff; one step inside it is still above.
    let v = t.read_distance_table(500_000, 90_000);
    assert!(v > 0 && v < 4_000);
    let at_radius = t.read_brightness_table(v + 20, 90_000);
    let inside = t.read_brightness_table(v + 19, 90_000);
    assert!(500_000u64 * at_radius / 1_000_000 <= 2_000);
    assert!(500_000u64 * inside / 1_000_000 > 2_000);
}

#[test]
fn tangent_table_known_values() {
    let t = BrightnessTables::new();
    assert_eq!(t.read_tangent_table(0), 0);
    assert_eq!(t.read_tangent_table(1_000_000), 45_000);
    assert_eq!(t.read_tangent_table(-1_000_000), -45_000);
    // Ratios beyond +/-100 clamp to the table edges.
    assert_eq!(t.read_tangent_table(500_000_000), t.read_tangent_table(100_000_000));
    assert_eq!(t.read_tangent_table(-500_000_000), t.read_tangent_table(-100_000_000));
}
