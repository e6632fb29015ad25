use lightcast::model::{Rgb, Tile, WorldMap, CHANNEL_MAX};
use lightcast::render::{exp_neg, tone_curve, correct_colors, integrate_light_fields,
    render_frame, object_display_color, update_direct_light_fields};
use lightcast::object::{Object, LightSource};
use lightcast::field::LightFieldObject;
use lightcast::tables::BrightnessTables;
use lightcast::fixed::mul_fp;

fn lit_object(x: i64, y: i64, box_start: (i64, i64), box_end: (i64, i64), cell: Rgb) -> Object {
    let source = LightSource::new(true, Rgb::new(1_000_000, 1_000_000, 1_000_000), 180_000, 0, (0, 0), false);
    let mut o = Object::new(x, y, 0, '*', Rgb::new(1_000_000, 1_000_000, 1_000_000), source);
    let w = (box_end.0 - box_start.0 + 1) as usize;
    let h = (box_end.1 - box_start.1 + 1) as usize;
    o.light_field_object = LightFieldObject {
        light_field: vec![vec![cell; h]; w],
        map_offset_start: box_start,
        map_offset_end: box_end,
    };
    o
}

#[test]
fn exponential_known_values() {
    assert_eq!(exp_neg(0), 1_000_000);
    // exp(-ln 2) is one half, to within a micro-unit.
    assert_eq!(exp_neg(693_147), 499_999);
    assert_eq!(exp_neg(1_000_000), 367_878);
    assert_eq!(exp_neg(20_000_000), 0);
}

#[test]
fn tone_curve_known_values() {
    assert_eq!(tone_curve(0), 347);
    assert_eq!(tone_curve(100_000), 365_122);
    assert_eq!(tone_curve(1_500), 7_111);
    // Saturated inputs reach the asymptote, just above one unit.
    assert_eq!(tone_curve(100_000_000), 1_012_142);
    assert_eq!(tone_curve(u64::MAX), 1_012_142);
}

#[test]
fn correct_colors_without_overflow() {
    assert_eq!(correct_colors(0, 0, 0), (0, 0, 0));
    assert_eq!(correct_colors(100_000, 100_000, 100_000), (93, 93, 93));
}

#[test]
fn correct_colors_preserves_channels_on_overflow() {
    // One blown channel: the maximum lands exactly on 255 and dark
    // channels stay dark.
    assert_eq!(correct_colors(100_000_000, 0, 0), (255, 0, 0));
    // All blown equally: pure white.
    assert_eq!(correct_colors(100_000_000, 100_000_000, 100_000_000), (255, 255, 255));
    // Mixed overflow keeps the ordering of the channels.
    let (r, g, b) = correct_colors(100_000_000, 50_000_000, 0);
    assert_eq!(r, 255);
    assert!(g <= r && b <= g);
}

#[test]
fn integrator_sums_rather_than_maxes() {
    // Two sources each lighting the shared tile to 0.2: the integrated
    // value is 0.4, the sum, not the maximum.
    let dim = Rgb::new(200_000, 200_000, 200_000);
    let a = lit_object(2, 2, (2, 2), (3, 3), dim);
    let b = lit_object(3, 3, (2, 2), (3, 3), dim);
    let objects = vec![a, b];
    let mut acc = vec![vec![Rgb::new(0, 0, 0); 5]; 5];
    integrate_light_fields(&objects, &mut acc);
    assert_eq!(acc[2][2], Rgb::new(400_000, 400_000, 400_000));
    // The whole bounding box is summed, end row and column included.
    assert_eq!(acc[3][3], Rgb::new(400_000, 400_000, 400_000));
    // Cells outside both boxes stay dark.
    assert_eq!(acc[4][4], Rgb::new(0, 0, 0));
}

#[test]
fn integrator_skips_disabled_sources() {
    let dim = Rgb::new(200_000, 200_000, 200_000);
    let mut a = lit_object(2, 2, (2, 2), (3, 3), dim);
    a.light_source.enabled = false;
    let objects = vec![a];
    let mut acc = vec![vec![Rgb::new(0, 0, 0); 5]; 5];
    integrate_light_fields(&objects, &mut acc);
    assert_eq!(acc[2][2], Rgb::new(0, 0, 0));
    assert_eq!(acc[3][3], Rgb::new(0, 0, 0));
}

#[test]
fn integrator_clamps_huge_sums() {
    let blinding = Rgb::new(CHANNEL_MAX, CHANNEL_MAX, CHANNEL_MAX);
    let a = lit_object(2, 2, (2, 2), (3, 3), blinding);
    let b = lit_object(3, 3, (2, 2), (3, 3), blinding);
    let objects = vec![a, b];
    let mut acc = vec![vec![Rgb::new(0, 0, 0); 5]; 5];
    integrate_light_fields(&objects, &mut acc);
    assert_eq!(acc[2][2], Rgb::new(CHANNEL_MAX, CHANNEL_MAX, CHANNEL_MAX));
}

#[test]
fn frame_marks_visible_tiles_explored() {
    let mut map = WorldMap::new_walls(2, 2);
    map.set_tile(0, 0, Tile::empty());
    let cell = Rgb::new(500_000, 500_000, 500_000);
    let dark = Rgb::new(0, 0, 0);
    let lf = vec![vec![cell, dark], vec![dark, dark]];
    let vis = vec![vec![true, true], vec![false, false]];
    let ambient = Rgb::new(0, 0, 0);
    let floor = Rgb::new(15_000, 15_000, 15_000);
    let display = render_frame(&mut map, &lf, &vis, ambient, floor);

    // The lit, in-view tile is explored and tone mapped from its
    // modulated color.
    assert!(map.tile(0, 0).explored);
    let ground = Tile::empty().color;
    let expected = correct_colors(
        mul_fp(ground.r, cell.r),
        mul_fp(ground.g, cell.g),
        mul_fp(ground.b, cell.b),
    );
    assert_eq!(display[0][0], expected);

    // An in-view but unlit tile counts as not visible: it keeps its
    // explored flag and renders at the remembered floor level.
    assert!(!map.tile(0, 1).explored);
    let wall = Tile::wall().color;
    let remembered = correct_colors(
        mul_fp(wall.r, floor.r),
        mul_fp(wall.g, floor.g),
        mul_fp(wall.b, floor.b),
    );
    assert_eq!(display[0][1], remembered);
    assert_eq!(display[1][0], remembered);
}

#[test]
fn object_color_modulates_by_local_light() {
    let color = Rgb::new(1_000_000, 500_000, 0);
    let cell = Rgb::new(200_000, 200_000, 200_000);
    let ambient = Rgb::new(0, 0, 0);
    let expected = correct_colors(
        mul_fp(color.r, cell.r),
        mul_fp(color.g, cell.g),
        mul_fp(color.b, cell.b),
    );
    assert_eq!(object_display_color(color, cell, ambient), expected);
}

#[test]
fn dirty_enabled_sources_are_recomputed() {
    let t = BrightnessTables::new();
    let mut map = WorldMap::new_walls(9, 9);
    for x in 0..9i64 {
        for y in 0..9i64 {
            map.set_tile(x, y, Tile::empty());
        }
    }
    let source = LightSource::new(true, Rgb::new(600_000, 600_000, 600_000), 180_000, 0, (0, 0), true);
    let on = Object::new(4, 4, 0, '@', Rgb::new(1_000_000, 1_000_000, 0), source);
    let mut off_source = source;
    off_source.enabled = false;
    let off = Object::new(2, 2, 0, 'c', Rgb::new(1_000_000, 500_000, 0), off_source);
    let mut objects = vec![on, off];

    let redraw = update_direct_light_fields(&map, &mut objects, &t, 0, 1);
    assert!(redraw);
    // The enabled dirty source was recomputed and its mark cleared; its
    // field now covers its position.
    assert!(!objects[0].light_source.recalc_dirty);
    assert!(objects[0].light_field_object.map_offset_start.0 <= 4);
    assert!(objects[0].light_field_object.map_offset_end.0 >= 4);
    // The disabled one keeps its mark and placeholder field.
    assert!(objects[1].light_source.recalc_dirty);

    // Nothing left dirty and enabled: no redraw.
    let again = update_direct_light_fields(&map, &mut objects, &t, 0, 1);
    assert!(!again);
}
