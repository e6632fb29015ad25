use lightcast::model::{Rgb, Tile, WorldMap, Rect};
use lightcast::object::{Object, LightSource};
use lightcast::mapgen::{create_room, create_h_tunnel, create_v_tunnel, make_map};
use lightcast::video_tools::compute_lightfield;

fn open_map(width: usize, height: usize) -> WorldMap {
    let mut map = WorldMap::new_walls(width, height);
    for x in 0..width as i64 {
        for y in 0..height as i64 {
            map.set_tile(x, y, Tile::empty());
        }
    }
    map
}

#[test]
fn tiles_have_their_catalog_properties() {
    let floor = Tile::empty();
    assert!(!floor.blocked && !floor.block_sight && !floor.explored);
    assert_eq!(floor.reflectivity, 0);
    let wall = Tile::wall();
    assert!(wall.blocked && wall.block_sight);
    assert_eq!(wall.reflectivity, 250_000);
    assert_eq!(wall.color, Rgb::new(509_000, 431_000, 196_000));
}

#[test]
fn rect_center_and_intersection() {
    let r = Rect::new(2, 4, 10, 6);
    assert_eq!((r.x1, r.y1, r.x2, r.y2), (2, 4, 12, 10));
    assert_eq!(r.center(), (7, 7));
    let other = Rect::new(11, 4, 5, 5);
    assert!(r.intersects_with(&other));
    let apart = Rect::new(20, 4, 5, 5);
    assert!(!r.intersects_with(&apart));
}

#[test]
fn room_carving_opens_the_interior_only() {
    let mut map = WorldMap::new_walls(12, 12);
    create_room(Rect::new(1, 1, 8, 8), &mut map);
    // Interior open, border walls intact.
    assert!(!map.tile(4, 4).blocked && !map.tile(4, 4).block_sight);
    assert!(map.tile(1, 4).blocked);
    assert!(map.tile(9, 4).blocked);
    assert!(map.tile(4, 1).blocked);
}

#[test]
fn tunnels_connect_both_endpoints() {
    let mut map = WorldMap::new_walls(12, 12);
    create_h_tunnel(2, 8, 5, &mut map);
    for x in 2..=8i64 {
        assert!(!map.tile(x, 5).blocked);
    }
    assert!(map.tile(1, 5).blocked);
    create_v_tunnel(8, 3, 9, &mut map);
    for y in 3..=8i64 {
        assert!(!map.tile(9, y).blocked);
    }
}

#[test]
fn generated_map_is_well_formed() {
    let (map, start, rooms) = make_map(80, 45);
    assert_eq!(map.width, 80);
    assert_eq!(map.height, 45);
    assert_eq!(map.tiles.len(), 80);
    for col in &map.tiles {
        assert_eq!(col.len(), 45);
    }
    assert!(start.0 >= 0 && start.0 < 80 && start.1 >= 0 && start.1 < 45);
    for room in &rooms {
        assert!(room.x1 >= 0 && room.x2 < 80 && room.y1 >= 0 && room.y2 < 45);
        assert!(room.x2 - room.x1 >= 10 && room.y2 - room.y1 >= 10);
        // Each accepted room was carved open at its centre ring.
        let (cx, cy) = ((room.x1 + room.x2) / 2, (room.y1 + room.y2) / 2);
        assert!(!map.tile(cx, cy).blocked);
        // And its island pillars block motion but not sight.
        assert!(map.tile(cx - 1, cy - 1).blocked);
        assert!(!map.tile(cx - 1, cy - 1).block_sight);
        assert_eq!(map.tile(cx - 1, cy - 1).reflectivity, 1_000_000);
    }
}

#[test]
fn moving_into_walls_is_refused() {
    let mut map = open_map(9, 9);
    map.set_tile(5, 4, Tile::wall());
    let source = LightSource::new(true, Rgb::new(600_000, 600_000, 600_000), 30_000, 60_000, (400_000, 0), false);
    let mut player = Object::new(4, 4, 0, '@', Rgb::new(1_000_000, 1_000_000, 0), source);
    player.move_by(1, 0, &map);
    assert_eq!((player.x, player.y), (4, 4));
    assert!(!player.light_source.recalc_dirty);
    player.move_by(0, 1, &map);
    assert_eq!((player.x, player.y), (4, 5));
    assert_eq!(player.direction, 90_000);
    assert!(player.light_source.recalc_dirty);
    player.move_by(-1, 0, &map);
    assert_eq!((player.x, player.y), (3, 5));
    assert_eq!(player.direction, 180_000);
}

#[test]
fn pivot_wraps_around_the_circle() {
    let source = LightSource::new(true, Rgb::new(600_000, 600_000, 600_000), 30_000, 60_000, (400_000, 0), false);
    let mut player = Object::new(4, 4, 0, '@', Rgb::new(1_000_000, 1_000_000, 0), source);
    player.pivot(true);
    assert_eq!(player.direction, 355_000);
    assert!(player.light_source.recalc_dirty);
    player.pivot(false);
    assert_eq!(player.direction, 0);
    player.pivot(false);
    assert_eq!(player.direction, 5_000);
}

#[test]
fn toggling_flips_and_dirties() {
    let source = LightSource::new(true, Rgb::new(600_000, 600_000, 600_000), 30_000, 60_000, (400_000, 0), false);
    let mut player = Object::new(4, 4, 0, '@', Rgb::new(1_000_000, 1_000_000, 0), source);
    player.toggle_light();
    assert!(!player.light_source.enabled);
    assert!(player.light_source.recalc_dirty);
    player.toggle_light();
    assert!(player.light_source.enabled);
}

#[test]
fn legacy_lightfield_centers_on_the_source() {
    let map = open_map(20, 20);
    // A peak intensity of 0.01 reaches the 1/255 visibility floor at
    // round(sqrt(0.01 / 0.0039215)) = 2 tiles.
    let intensity = Rgb::new(10_000, 10_000, 10_000);
    let (field, start, end) = compute_lightfield(&map, 10, 10, 1, intensity, 180_000);
    assert_eq!(start, (10 - 2, 10 - 2));
    assert_eq!(end, (10 + 2, 10 + 2));
    assert_eq!(field.len(), 5);
    assert_eq!(field[0].len(), 5);
    // The source tile carries the undimmed intensity; nothing exceeds it.
    assert_eq!(field[2][2], intensity);
    for col in &field {
        for cell in col {
            assert!(cell.r <= 10_000 && cell.g <= 10_000 && cell.b <= 10_000);
        }
    }
}

#[test]
fn legacy_lightfield_respects_the_sweep() {
    let map = open_map(20, 20);
    // A peak intensity of 0.1 gives a radius of round(sqrt(25.5)) = 5.
    let intensity = Rgb::new(100_000, 100_000, 100_000);
    // Facing east with a narrow cone: tiles far behind the source stay
    // dark, tiles ahead are lit.
    let (field, start, _) = compute_lightfield(&map, 10, 10, 1, intensity, 30_000);
    let cx = (10 - start.0) as usize;
    let cy = (10 - start.1) as usize;
    assert!(field[cx + 4][cy].r > 0);
    assert_eq!(field[cx - 4][cy].r, 0);
}

#[test]
fn random_draws_stay_in_range() {
    for _ in 0..64 {
        let r = lightcast::rng::gen_range_i64(3, 10);
        assert!((3..10).contains(&r));
    }
}
