use lightcast::model::{Rgb, Tile, WorldMap};
use lightcast::tables::BrightnessTables;
use lightcast::field::{LightFieldObject, ChildReflection, attenuate_ray, determine_ray_brightness,
    check_adjacent};
use lightcast::filter::filter_candidate_reflections;

fn empty_room(width: usize, height: usize) -> WorldMap {
    let mut map = WorldMap::new_walls(width, height);
    for x in 0..width as i64 {
        for y in 0..height as i64 {
            map.set_tile(x, y, Tile::empty());
        }
    }
    map
}

#[test]
fn overwrite_tile_max_blends() {
    let mut f = LightFieldObject::new();
    f.overwrite_tile(&Rgb::new(5, 6, 7), (0, 0));
    assert_eq!(f.light_field[0][0], Rgb::new(5, 6, 7));
    // A dimmer ray never darkens what a brighter one lit; each channel
    // keeps its own maximum.
    f.overwrite_tile(&Rgb::new(3, 9, 2), (0, 0));
    assert_eq!(f.light_field[0][0], Rgb::new(5, 9, 7));
}

#[test]
fn attenuate_ray_multiplies_channels() {
    let i = Rgb::new(1_000_000, 1_000_000, 400_000);
    let c = Rgb::new(500_000, 250_000, 1_000_000);
    let out = attenuate_ray(&i, &c, 1_000_000);
    assert_eq!(out, Rgb::new(500_000, 250_000, 400_000));
    let half = attenuate_ray(&i, &c, 500_000);
    assert_eq!(half, Rgb::new(250_000, 125_000, 200_000));
}

#[test]
fn ray_brightness_scales_parent_by_falloff() {
    let t = BrightnessTables::new();
    let parent = Rgb::new(1_000_000, 500_000, 0);
    // Two tiles travelled at 45-degree collimation: the table gives
    // 499_968 micro-units of the source intensity.
    let rb = determine_ray_brightness(40, &parent, 45_000, &t);
    assert_eq!(rb, Rgb::new(499_968, 249_984, 0));
    // Under one tile travelled counts as one tile: no loss.
    let near = determine_ray_brightness(5, &parent, 45_000, &t);
    assert_eq!(near, parent);
}

#[test]
fn adjacency_is_orthogonal_only() {
    assert!(check_adjacent((3, 4), (3, 5)));
    assert!(check_adjacent((2, 4), (3, 4)));
    assert!(!check_adjacent((3, 4), (4, 5)));
    assert!(!check_adjacent((3, 4), (3, 4)));
    assert!(!check_adjacent((3, 4), (3, 7)));
}

#[test]
fn embedded_source_never_lights_its_own_tile() {
    // A light source inside a sight-blocking tile: its own rays leave the
    // housing dark.
    let t = BrightnessTables::new();
    let mut map = empty_room(9, 9);
    map.set_tile(4, 4, Tile::wall());
    let mut f = LightFieldObject::new();
    f.recalculate(
        &map,
        4,
        4,
        (0, 0),
        &Rgb::new(1_000_000, 1_000_000, 1_000_000),
        0,
        180_000,
        0,
        &t,
        0,
        1,
    );
    let fx = (4 - f.map_offset_start.0) as usize;
    let fy = (4 - f.map_offset_start.1) as usize;
    assert_eq!(f.light_field[fx][fy], Rgb::new(0, 0, 0));
}

#[test]
fn zero_reflection_level_equals_primary_pass() {
    // With the reflection depth at zero, the cascade adds nothing beyond
    // the primary raycast.
    let t = BrightnessTables::new();
    let mut map = empty_room(11, 11);
    map.set_tile(8, 5, Tile::wall());
    let intensity = Rgb::new(600_000, 600_000, 600_000);
    let mut a = LightFieldObject::new();
    a.recalculate(&map, 5, 5, (0, 0), &intensity, 0, 180_000, 45_000, &t, 0, 1);
    let mut b = LightFieldObject::new();
    b.recalculate_primary(&map, 5, 5, (0, 0), &intensity, 0, 180_000, 45_000, &t, 1);
    assert_eq!(a.map_offset_start, b.map_offset_start);
    assert_eq!(a.map_offset_end, b.map_offset_end);
    assert_eq!(a.light_field, b.light_field);
}

#[test]
fn isotropic_source_in_empty_room() {
    // A single isotropic white source in an empty room: the brightest
    // cell is the source's own, irradiance never increases with distance,
    // and no cell exceeds the source intensity.
    let t = BrightnessTables::new();
    let map = empty_room(21, 21);
    let mut f = LightFieldObject::new();
    f.recalculate(
        &map,
        10,
        10,
        (0, 0),
        &Rgb::new(1_000_000, 1_000_000, 1_000_000),
        0,
        180_000,
        0,
        &t,
        0,
        1,
    );
    let sx = (10 - f.map_offset_start.0) as usize;
    let sy = (10 - f.map_offset_start.1) as usize;
    let at_source = f.light_field[sx][sy].r;
    assert_eq!(at_source, 1_000_000);
    let mut cells: Vec<(u64, u64)> = Vec::new();
    for (i, col) in f.light_field.iter().enumerate() {
        for (j, cell) in col.iter().enumerate() {
            assert!(cell.r <= 1_000_000);
            assert!(cell.r <= at_source);
            let dx = i as i64 - sx as i64;
            let dy = j as i64 - sy as i64;
            if cell.r > 0 {
                cells.push(((dx * dx + dy * dy) as u64, cell.r));
            }
        }
    }
    // Monotonic with Euclidean distance over the lit cells.
    for &(d1, v1) in &cells {
        for &(d2, v2) in &cells {
            if d1 < d2 {
                assert!(v1 >= v2);
            }
        }
    }
}

#[test]
fn collimated_source_dims_with_distance() {
    let t = BrightnessTables::new();
    let map = empty_room(21, 21);
    let mut f = LightFieldObject::new();
    f.recalculate(
        &map,
        10,
        10,
        (0, 0),
        &Rgb::new(1_000_000, 1_000_000, 1_000_000),
        0,
        180_000,
        90_000,
        &t,
        0,
        1,
    );
    let sx = (10 - f.map_offset_start.0) as usize;
    let sy = (10 - f.map_offset_start.1) as usize;
    // Straight east along the beam: strictly dimmer a few tiles out.
    let near = f.light_field[sx + 1][sy].r;
    let far = f.light_field[sx + 5][sy].r;
    assert!(near > 0 && far > 0);
    assert!(far < near);
}

#[test]
fn filter_averages_duplicate_diffuse_candidates() {
    // Two candidates at the same location, face and direction collapse to
    // exactly one whose intensity is their arithmetic mean.
    let t = BrightnessTables::new();
    let a = ChildReflection::new(
        true, 3, 4, (500_000, 0), 0, 0, Rgb::new(200, 400, 600), 90_000, 90_000,
    );
    let b = ChildReflection::new(
        true, 3, 4, (500_000, 0), 0, 0, Rgb::new(400, 600, 800), 90_000, 90_000,
    );
    let out = filter_candidate_reflections(&vec![a, b], &t);
    assert_eq!(out.len(), 1);
    assert!(out[0].diffuse);
    assert_eq!(out[0].x, 3);
    assert_eq!(out[0].y, 4);
    assert_eq!(out[0].intensity_profile, Rgb::new(300, 500, 700));
}

#[test]
fn filter_keeps_distinct_groups_apart() {
    let t = BrightnessTables::new();
    let a = ChildReflection::new(
        true, 3, 4, (500_000, 0), 0, 0, Rgb::new(100, 100, 100), 90_000, 90_000,
    );
    let b = ChildReflection::new(
        true, 3, 5, (500_000, 0), 0, 0, Rgb::new(100, 100, 100), 90_000, 90_000,
    );
    let c = ChildReflection::new(
        true, 3, 4, (500_000, 0), 1, 90_000, Rgb::new(100, 100, 100), 90_000, 90_000,
    );
    let out = filter_candidate_reflections(&vec![a, b, c], &t);
    assert_eq!(out.len(), 3);
}

#[test]
fn filter_averages_specular_directions_circularly() {
    let t = BrightnessTables::new();
    let a = ChildReflection::new(
        false, 2, 2, (500_000, 0), 0, 30_000, Rgb::new(100, 0, 0), 45_000, 60_000,
    );
    let b = ChildReflection::new(
        false, 2, 2, (500_000, 0), 0, 90_000, Rgb::new(300, 0, 0), 45_000, 60_000,
    );
    let out = filter_candidate_reflections(&vec![a, b], &t);
    assert_eq!(out.len(), 1);
    assert!(!out[0].diffuse);
    // The circular mean of 30 and 90 degrees under the engine's integer
    // trigonometry.
    assert_eq!(out[0].direction, 60_235);
    assert_eq!(out[0].intensity_profile, Rgb::new(200, 0, 0));
    assert_eq!(out[0].angular_sweep, 45_000);
    assert_eq!(out[0].collimation, 60_000);
    // Two equal directions average to themselves exactly at zero.
    let c = ChildReflection::new(
        false, 2, 2, (500_000, 0), 0, 0, Rgb::new(100, 0, 0), 45_000, 60_000,
    );
    let d = ChildReflection::new(
        false, 2, 2, (500_000, 0), 0, 0, Rgb::new(100, 0, 0), 45_000, 60_000,
    );
    let out2 = filter_candidate_reflections(&vec![c, d], &t);
    assert_eq!(out2.len(), 1);
    assert_eq!(out2[0].direction, 0);
}

#[test]
fn opaque_collision_proposes_reflections() {
    // A source facing a partially reflective wall proposes both a diffuse
    // and a specular child per colliding ray.
    let t = BrightnessTables::new();
    let mut map = empty_room(9, 9);
    map.set_tile(6, 4, Tile::wall());
    let mut f = LightFieldObject::new();
    let candidates = f.recalculate_primary(
        &map,
        4,
        4,
        (0, 0),
        &Rgb::new(1_000_000, 1_000_000, 1_000_000),
        0,
        30_000,
        0,
        &t,
        1,
    );
    assert!(candidates.len() > 0);
    assert!(candidates.iter().any(|c| c.diffuse));
    assert!(candidates.iter().any(|c| !c.diffuse));
    for c in &candidates {
        assert_eq!((c.x, c.y), (6, 4));
        if c.diffuse {
            assert_eq!(c.angular_sweep, 90_000);
            assert_eq!(c.collimation, 90_000);
        }
    }
}
