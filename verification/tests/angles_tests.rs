use lightcast::tables::BrightnessTables;
use lightcast::angles::{normalise_angle, de_normalise_angle, wrap_angle, determine_alpha_angle,
    determine_collision_face, reflect_direction};

#[test]
fn angle_normalisation() {
    assert_eq!(normalise_angle(350_000), -10_000);
    assert_eq!(normalise_angle(10_000), 10_000);
    assert_eq!(de_normalise_angle(-10_000), 350_000);
    assert_eq!(de_normalise_angle(370_000), 10_000);
    assert_eq!(de_normalise_angle(200_000), 200_000);
    assert_eq!(wrap_angle(360_000), 0);
    assert_eq!(wrap_angle(-5_000), 355_000);
}

#[test]
fn alpha_angle_quadrants() {
    let t = BrightnessTables::new();
    assert_eq!(determine_alpha_angle((1_000_000, 1_000_000), 0, &t), 45_000);
    assert_eq!(determine_alpha_angle((-1_000_000, 1_000_000), 0, &t), 135_000);
    assert_eq!(determine_alpha_angle((-1_000_000, -1_000_000), 0, &t), 225_000);
    assert_eq!(determine_alpha_angle((1_000_000, -1_000_000), 0, &t), 315_000);
}

#[test]
fn alpha_angle_subtracts_facing() {
    let t = BrightnessTables::new();
    // A target dead ahead of an east-facing source has alpha zero; the
    // same target seen from a north-facing source sits a quarter turn
    // around.
    assert_eq!(determine_alpha_angle((1_000_000, 0), 0, &t), 0);
    assert_eq!(determine_alpha_angle((1_000_000, 0), 90_000, &t), 270_000);
}

#[test]
fn collision_faces_by_quadrant() {
    // Points deep in the 0.1-tile band of each edge, past the diagonals.
    assert_eq!(determine_collision_face((950_000, 500_000)), (0, 0));
    assert_eq!(determine_collision_face((500_000, 950_000)), (1, 90_000));
    assert_eq!(determine_collision_face((50_000, 400_000)), (2, 180_000));
    assert_eq!(determine_collision_face((400_000, 50_000)), (3, 270_000));
}

#[test]
fn specular_reflection_mirrors_incident_ray() {
    // A ray arriving on the +x face at 0, 45 and 89 degrees of incidence
    // leaves along the geometric mirror of its incident direction about
    // the face normal: reflected = 180 degrees minus incident, wrapped.
    let t = BrightnessTables::new();
    for comps in [(-1_000_000i64, 0i64), (-1_000_000, 1_000_000), (-17_455, 1_000_000)] {
        let incident = determine_alpha_angle(comps, 0, &t);
        let mirrored = ((180_000 - incident) % 360_000 + 360_000) % 360_000;
        assert_eq!(reflect_direction(0, comps, &t), mirrored);
    }
    // And about the -x face normal for a ray arriving from the other
    // side: reflected is again the mirror in x.
    let comps = (1_000_000i64, 1_000_000i64);
    let incident = determine_alpha_angle(comps, 0, &t);
    assert_eq!(reflect_direction(180_000, comps, &t), 180_000 - incident);
}
