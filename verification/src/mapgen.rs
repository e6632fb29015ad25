//! Random dungeon carving: rectangular rooms connected by L-shaped
//! tunnels, each room with a small island of reflective pillars at its
//! centre.

use vstd::prelude::*;
use crate::model::{Rgb, Tile, WorldMap, Rect};
use crate::rng::{gen_range_i64, random_bool};

verus! {

pub const ROOM_MAX_SIZE: i64 = 30;

pub const ROOM_MIN_SIZE: i64 = 10;

pub const MAX_ROOMS: i64 = 30;

/// The carved tile of a previously solid cell: open, see-through, ground
/// colored.
pub open spec fn carved_tile_spec(t: Tile) -> Tile {
    Tile {
        blocked: false,
        block_sight: false,
        color: Rgb { r: 100_000, g: 100_000, b: 100_000 },
        ..t
    }
}

/// Carve the interior of a room out of the map: every tile strictly
/// inside the rectangle becomes open ground.
#[verifier::loop_isolation(false)]
pub fn create_room(room: Rect, map: &mut WorldMap)
    requires
        old(map).wf(),
        0 <= room.x1 <= room.x2 < old(map).width,
        0 <= room.y1 <= room.y2 < old(map).height,
    ensures
        final(map).wf(),
        final(map).width == old(map).width,
        final(map).height == old(map).height,
        forall|x: int, y: int|
            old(map).in_bounds(x, y) ==> #[trigger] final(map).tile_at(x, y) == if room.x1 < x
                < room.x2 && room.y1 < y < room.y2 {
                carved_tile_spec(old(map).tile_at(x, y))
            } else {
                old(map).tile_at(x, y)
            },
{
    let mut x: i64 = room.x1 + 1;
    while x < room.x2
        invariant
            room.x1 + 1 <= x,
            x <= room.x2 || x == room.x1 + 1,
            map.wf(),
            map.width == old(map).width,
            map.height == old(map).height,
            forall|i: int, j: int|
                old(map).in_bounds(i, j) ==> #[trigger] map.tile_at(i, j) == if room.x1 < i < x
                    && room.y1 < j < room.y2 {
                    carved_tile_spec(old(map).tile_at(i, j))
                } else {
                    old(map).tile_at(i, j)
                },
        decreases room.x2 - x,
    {
        let mut y: i64 = room.y1 + 1;
        while y < room.y2
            invariant
                room.y1 + 1 <= y,
                y <= room.y2 || y == room.y1 + 1,
                room.x1 < x < room.x2,
                map.wf(),
                map.width == old(map).width,
                map.height == old(map).height,
                forall|i: int, j: int|
                    old(map).in_bounds(i, j) ==> #[trigger] map.tile_at(i, j) == if (room.x1 < i
                        < x && room.y1 < j < room.y2) || (i == x && room.y1 < j < y) {
                        carved_tile_spec(old(map).tile_at(i, j))
                    } else {
                        old(map).tile_at(i, j)
                    },
            decreases room.y2 - y,
        {
            let mut t = map.tile(x, y);
            t.blocked = false;
            t.block_sight = false;
            t.color = Rgb { r: 100_000, g: 100_000, b: 100_000 };
            map.set_tile(x, y, t);
            y += 1;
        }
        x += 1;
    }
}

/// Carve a horizontal tunnel between two columns, endpoints included.
#[verifier::loop_isolation(false)]
pub fn create_h_tunnel(x1: i64, x2: i64, y: i64, map: &mut WorldMap)
    requires
        old(map).wf(),
        0 <= x1 < old(map).width,
        0 <= x2 < old(map).width,
        0 <= y < old(map).height,
    ensures
        final(map).wf(),
        final(map).width == old(map).width,
        final(map).height == old(map).height,
        ({
            let lo = if x1 <= x2 { x1 as int } else { x2 as int };
            let hi = if x1 <= x2 { x2 as int } else { x1 as int };
            forall|i: int, j: int|
                old(map).in_bounds(i, j) ==> #[trigger] final(map).tile_at(i, j) == if lo <= i
                    <= hi && j == y {
                    carved_tile_spec(old(map).tile_at(i, j))
                } else {
                    old(map).tile_at(i, j)
                }
        }),
{
    let lo: i64 = if x1 <= x2 { x1 } else { x2 };
    let hi: i64 = if x1 <= x2 { x2 } else { x1 };
    let mut x: i64 = lo;
    while x < hi + 1
        invariant
            lo <= x <= hi + 1,
            map.wf(),
            map.width == old(map).width,
            map.height == old(map).height,
            forall|i: int, j: int|
                old(map).in_bounds(i, j) ==> #[trigger] map.tile_at(i, j) == if lo <= i < x && j
                    == y {
                    carved_tile_spec(old(map).tile_at(i, j))
                } else {
                    old(map).tile_at(i, j)
                },
        decreases hi + 1 - x,
    {
        let mut t = map.tile(x, y);
        t.blocked = false;
        t.block_sight = false;
        t.color = Rgb { r: 100_000, g: 100_000, b: 100_000 };
        map.set_tile(x, y, t);
        x += 1;
    }
}

/// Carve a vertical tunnel between two rows, endpoints included.
#[verifier::loop_isolation(false)]
pub fn create_v_tunnel(y1: i64, y2: i64, x: i64, map: &mut WorldMap)
    requires
        old(map).wf(),
        0 <= y1 < old(map).height,
        0 <= y2 < old(map).height,
        0 <= x < old(map).width,
    ensures
        final(map).wf(),
        final(map).width == old(map).width,
        final(map).height == old(map).height,
        ({
            let lo = if y1 <= y2 { y1 as int } else { y2 as int };
            let hi = if y1 <= y2 { y2 as int } else { y1 as int };
            forall|i: int, j: int|
                old(map).in_bounds(i, j) ==> #[trigger] final(map).tile_at(i, j) == if i == x
                    && lo <= j <= hi {
                    carved_tile_spec(old(map).tile_at(i, j))
                } else {
                    old(map).tile_at(i, j)
                }
        }),
{
    let lo: i64 = if y1 <= y2 { y1 } else { y2 };
    let hi: i64 = if y1 <= y2 { y2 } else { y1 };
    let mut y: i64 = lo;
    while y < hi + 1
        invariant
            lo <= y <= hi + 1,
            map.wf(),
            map.width == old(map).width,
            map.height == old(map).height,
            forall|i: int, j: int|
                old(map).in_bounds(i, j) ==> #[trigger] map.tile_at(i, j) == if i == x && lo <= j
                    < y {
                    carved_tile_spec(old(map).tile_at(i, j))
                } else {
                    old(map).tile_at(i, j)
                },
        decreases hi + 1 - y,
    {
        let mut t = map.tile(x, y);
        t.blocked = false;
        t.block_sight = false;
        t.color = Rgb { r: 100_000, g: 100_000, b: 100_000 };
        map.set_tile(x, y, t);
        y += 1;
    }
}

/// One fully reflective colored pillar of a room's central island: it
/// blocks motion but not sight.
fn island_tile(color: Rgb) -> (t: Tile)
    requires
        color.is_color(),
    ensures
        t.blocked,
        !t.block_sight,
        t.color == color,
        t.reflectivity == crate::fixed::MICRO,
        t.valid(),
{
    Tile {
        blocked: true,
        block_sight: false,
        explored: false,
        color,
        reflectivity: crate::fixed::MICRO,
        refractive_index: 2_000_000,
    }
}

/// The room-placement overlap test, as `Rect::intersects_with` computes
/// it.
pub open spec fn rect_overlap_spec(a: Rect, b: Rect) -> bool {
    a.x1 <= b.x2 && a.x2 >= b.x1 && a.y1 <= b.y2 && a.y2 >= b.y1
}

/// Whether a proposed room overlaps any accepted one.
fn any_intersects(rooms: &Vec<Rect>, candidate: &Rect) -> (b: bool)
    ensures
        b == exists|i: int| 0 <= i < rooms.len() && rect_overlap_spec(*candidate, #[trigger] rooms[i]),
{
    let mut i: usize = 0;
    while i < rooms.len()
        invariant
            i <= rooms.len(),
            forall|j: int| 0 <= j < i ==> !rect_overlap_spec(*candidate, #[trigger] rooms[j]),
        decreases rooms.len() - i,
    {
        if candidate.intersects_with(&rooms[i]) {
            assert(rect_overlap_spec(*candidate, rooms[i as int]));
            return true;
        }
        i += 1;
    }
    false
}

/// Generate a dungeon: up to `MAX_ROOMS` random non-overlapping rooms
/// carved from solid rock, each with a reflective central island, adjacent
/// rooms joined by an L-shaped tunnel, the player starting near the first
/// room's centre.
#[verifier::loop_isolation(false)]
pub fn make_map(width: usize, height: usize) -> (r: (WorldMap, (i64, i64), Vec<Rect>))
    requires
        32 <= width <= 1024,
        32 <= height <= 1024,
    ensures
        r.0.wf(),
        r.0.width == width,
        r.0.height == height,
        r.0.in_bounds(r.1.0 as int, r.1.1 as int),
        forall|k: int|
            0 <= k < r.2.len() ==> {
                &&& 0 <= (#[trigger] r.2[k]).x1 < r.2[k].x2 < width
                &&& 0 <= r.2[k].y1 < r.2[k].y2 < height
                &&& r.2[k].x1 + ROOM_MIN_SIZE <= r.2[k].x2
                &&& r.2[k].y1 + ROOM_MIN_SIZE <= r.2[k].y2
            },
{
    let mut map = WorldMap::new_walls(width, height);
    let mut starting_position: (i64, i64) = (0, 0);
    let mut rooms: Vec<Rect> = Vec::new();

    let mut attempt: i64 = 0;
    while attempt < MAX_ROOMS
        invariant
            map.wf(),
            map.width == width,
            map.height == height,
            map.in_bounds(starting_position.0 as int, starting_position.1 as int),
            forall|k: int|
                0 <= k < rooms.len() ==> {
                    &&& 0 <= (#[trigger] rooms[k]).x1 < rooms[k].x2 < width
                    &&& 0 <= rooms[k].y1 < rooms[k].y2 < height
                    &&& rooms[k].x1 + ROOM_MIN_SIZE <= rooms[k].x2
                    &&& rooms[k].y1 + ROOM_MIN_SIZE <= rooms[k].y2
                },
        decreases MAX_ROOMS - attempt,
    {
        let w = gen_range_i64(ROOM_MIN_SIZE, ROOM_MAX_SIZE + 1);
        let h = gen_range_i64(ROOM_MIN_SIZE, ROOM_MAX_SIZE + 1);
        let x = gen_range_i64(0, width as i64 - w);
        let y = gen_range_i64(0, height as i64 - h);

        let new_room = Rect::new(x, y, w, h);

        let failed = any_intersects(&rooms, &new_room);

        if !failed {
            create_room(new_room, &mut map);

            let (new_x, new_y) = new_room.center();
            assert(new_room.x1 + 5 <= new_x <= new_room.x2 - 5);
            assert(new_room.y1 + 5 <= new_y <= new_room.y2 - 5);

            // A three-by-three island: four fully reflective colored
            // pillars around the centre.
            map.set_tile(new_x - 1, new_y - 1, island_tile(Rgb { r: 1_000_000, g: 0, b: 0 }));
            map.set_tile(new_x + 1, new_y - 1, island_tile(Rgb { r: 0, g: 1_000_000, b: 0 }));
            map.set_tile(new_x - 1, new_y + 1, island_tile(Rgb { r: 0, g: 0, b: 1_000_000 }));
            map.set_tile(
                new_x + 1,
                new_y + 1,
                island_tile(Rgb { r: 1_000_000, g: 0, b: 1_000_000 }),
            );

            if rooms.len() == 0 {
                starting_position = (new_x + 3, new_y + 3);
            } else {
                let (prev_x, prev_y) = rooms[rooms.len() - 1].center();
                if random_bool() {
                    create_h_tunnel(prev_x, new_x, prev_y, &mut map);
                    create_v_tunnel(prev_y, new_y, new_x, &mut map);
                } else {
                    create_v_tunnel(prev_y, new_y, prev_x, &mut map);
                    create_h_tunnel(prev_x, new_x, new_y, &mut map);
                }
            }
            rooms.push(new_room);
        }
        attempt += 1;
    }
    (map, starting_position, rooms)
}

} // verus!
