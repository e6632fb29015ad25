//! Core data model: RGB triples in micro-units, map tiles, the world map
//! grid, and rectangular rooms.

use vstd::prelude::*;
use crate::fixed::MICRO;

verus! {

/// Upper bound on any irradiance channel the engine stores: one million
/// whole units, in micro-units.  Sums are clamped here explicitly.
pub const CHANNEL_MAX: u64 = 1_000_000_000_000;

/// An RGB triple in linear micro-units (1.0 is `MICRO`).
#[derive(Clone, Copy, Debug, PartialEq, Eq, Structural)]
pub struct Rgb {
    pub r: u64,
    pub g: u64,
    pub b: u64,
}

impl Rgb {
    /// All channels within the engine's storable range.
    pub open spec fn valid(self) -> bool {
        self.r <= CHANNEL_MAX && self.g <= CHANNEL_MAX && self.b <= CHANNEL_MAX
    }

    /// All channels at most one whole unit (a reflectance or base color).
    pub open spec fn is_color(self) -> bool {
        self.r <= MICRO && self.g <= MICRO && self.b <= MICRO
    }

    pub open spec fn is_zero(self) -> bool {
        self.r == 0 && self.g == 0 && self.b == 0
    }

    pub fn new(r: u64, g: u64, b: u64) -> (c: Rgb)
        ensures
            c == (Rgb { r, g, b }),
    {
        Rgb { r, g, b }
    }

    pub fn zero() -> (c: Rgb)
        ensures
            c.is_zero(),
            c.valid(),
    {
        Rgb { r: 0, g: 0, b: 0 }
    }

    /// Channel-wise comparison.
    pub open spec fn le(self, o: Rgb) -> bool {
        self.r <= o.r && self.g <= o.g && self.b <= o.b
    }

    /// Channel-wise maximum.
    pub open spec fn join(self, o: Rgb) -> Rgb {
        Rgb {
            r: if self.r >= o.r { self.r } else { o.r },
            g: if self.g >= o.g { self.g } else { o.g },
            b: if self.b >= o.b { self.b } else { o.b },
        }
    }

    /// The brightest of the three channels.
    pub open spec fn max_channel_spec(self) -> int {
        if self.r >= self.g && self.r >= self.b {
            self.r as int
        } else if self.g >= self.b {
            self.g as int
        } else {
            self.b as int
        }
    }

    pub fn max_channel(&self) -> (m: u64)
        ensures
            m == self.max_channel_spec(),
            m >= self.r && m >= self.g && m >= self.b,
    {
        if self.r >= self.g && self.r >= self.b {
            self.r
        } else if self.g >= self.b {
            self.g
        } else {
            self.b
        }
    }
}

/// One map cell: static geometry and optical properties.
#[derive(Clone, Copy, Debug)]
pub struct Tile {
    /// Blocks motion.
    pub blocked: bool,
    /// Blocks sight: rays stop here.
    pub block_sight: bool,
    /// Set once the tile has been seen.
    pub explored: bool,
    /// Base surface color, channels in `[0, MICRO]`.
    pub color: Rgb,
    /// Fraction of incident light reflected specularly, in `[0, MICRO]`.
    pub reflectivity: u64,
    /// Refractive index in micro-units (transparent solids only).
    pub refractive_index: u64,
}

impl Tile {
    pub open spec fn valid(self) -> bool {
        self.color.is_color() && self.reflectivity <= MICRO
    }

    /// An open floor tile.
    pub fn empty() -> (t: Tile)
        ensures
            !t.blocked,
            !t.block_sight,
            !t.explored,
            t.color == (Rgb { r: 100_000u64, g: 100_000u64, b: 100_000u64 }),
            t.reflectivity == 0,
            t.valid(),
    {
        Tile {
            blocked: false,
            block_sight: false,
            explored: false,
            color: Rgb { r: 100_000, g: 100_000, b: 100_000 },
            reflectivity: 0,
            refractive_index: 1_000_277,
        }
    }

    /// An opaque wall tile.
    pub fn wall() -> (t: Tile)
        ensures
            t.blocked,
            t.block_sight,
            !t.explored,
            t.color == (Rgb { r: 509_000u64, g: 431_000u64, b: 196_000u64 }),
            t.reflectivity == 250_000,
            t.valid(),
    {
        Tile {
            blocked: true,
            block_sight: true,
            explored: false,
            color: Rgb { r: 509_000, g: 431_000, b: 196_000 },
            reflectivity: 250_000,
            refractive_index: 0,
        }
    }
}

/// A dense grid of tiles with fixed dimensions, indexed `tiles[x][y]`.
pub struct WorldMap {
    pub width: usize,
    pub height: usize,
    pub tiles: Vec<Vec<Tile>>,
}

impl WorldMap {
    pub open spec fn wf(self) -> bool {
        &&& 1 <= self.width <= 1024
        &&& 1 <= self.height <= 1024
        &&& self.tiles.len() == self.width
        &&& forall|x: int| 0 <= x < self.width ==> #[trigger] self.tiles[x].len() == self.height
        &&& forall|x: int, y: int|
            0 <= x < self.width && 0 <= y < self.height ==> (#[trigger] self.tiles[x][y]).valid()
    }

    pub open spec fn in_bounds(self, x: int, y: int) -> bool {
        0 <= x < self.width && 0 <= y < self.height
    }

    pub open spec fn tile_at(self, x: int, y: int) -> Tile {
        self.tiles[x][y]
    }

    /// A fresh map of the given dimensions where every tile is a wall.
    pub fn new_walls(width: usize, height: usize) -> (m: WorldMap)
        requires
            1 <= width <= 1024,
            1 <= height <= 1024,
        ensures
            m.wf(),
            m.width == width,
            m.height == height,
            forall|x: int, y: int| m.in_bounds(x, y) ==> #[trigger] m.tile_at(x, y).block_sight,
            forall|x: int, y: int| m.in_bounds(x, y) ==> #[trigger] m.tile_at(x, y).blocked,
    {
        let mut tiles: Vec<Vec<Tile>> = Vec::new();
        let mut x: usize = 0;
        while x < width
            invariant
                x <= width,
                tiles.len() == x,
                forall|i: int| 0 <= i < x ==> #[trigger] tiles[i].len() == height,
                forall|i: int, j: int|
                    0 <= i < x && 0 <= j < height ==> (#[trigger] tiles[i][j]).blocked
                        && tiles[i][j].block_sight && tiles[i][j].valid(),
            decreases width - x,
        {
            let mut col: Vec<Tile> = Vec::new();
            let mut y: usize = 0;
            while y < height
                invariant
                    y <= height,
                    col.len() == y,
                    forall|j: int| 0 <= j < y ==> (#[trigger] col[j]).blocked
                        && col[j].block_sight && col[j].valid(),
                decreases height - y,
            {
                col.push(Tile::wall());
                y += 1;
            }
            tiles.push(col);
            x += 1;
        }
        WorldMap { width, height, tiles }
    }

    pub fn tile(&self, x: i64, y: i64) -> (t: Tile)
        requires
            self.wf(),
            self.in_bounds(x as int, y as int),
        ensures
            t == self.tile_at(x as int, y as int),
    {
        assert(self.tiles[x as int].len() == self.height);
        self.tiles[x as usize][y as usize]
    }

    /// Replace one tile.
    pub fn set_tile(&mut self, x: i64, y: i64, t: Tile)
        requires
            old(self).wf(),
            old(self).in_bounds(x as int, y as int),
            t.valid(),
        ensures
            final(self).wf(),
            final(self).width == old(self).width,
            final(self).height == old(self).height,
            final(self).tile_at(x as int, y as int) == t,
            forall|i: int, j: int|
                old(self).in_bounds(i, j) && (i != x || j != y)
                    ==> #[trigger] final(self).tile_at(i, j) == old(self).tile_at(i, j),
    {
        let xi: usize = x as usize;
        let yi: usize = y as usize;
        assert(xi < self.tiles.len());
        assert(self.tiles[xi as int].len() == self.height);
        let col: &mut Vec<Tile> = &mut self.tiles[xi];
        col.set(yi, t);
        assert(self.tiles[xi as int][yi as int] == t);
        assert(forall|i: int| 0 <= i < self.tiles.len() && i != xi
            ==> #[trigger] self.tiles[i] == old(self).tiles[i]);
    }
}

/// An axis-aligned rectangular room.
#[derive(Clone, Copy, Debug, PartialEq, Eq, Structural)]
pub struct Rect {
    pub x1: i64,
    pub y1: i64,
    pub x2: i64,
    pub y2: i64,
}

impl Rect {
    pub fn new(x: i64, y: i64, w: i64, h: i64) -> (r: Rect)
        requires
            -0x4000_0000 <= x <= 0x4000_0000,
            -0x4000_0000 <= y <= 0x4000_0000,
            0 <= w <= 0x4000_0000,
            0 <= h <= 0x4000_0000,
        ensures
            r == (Rect { x1: x, y1: y, x2: (x + w) as i64, y2: (y + h) as i64 }),
    {
        Rect { x1: x, y1: y, x2: x + w, y2: y + h }
    }

    pub fn center(&self) -> (c: (i64, i64))
        requires
            0 <= self.x1 <= self.x2 <= 0x4000_0000,
            0 <= self.y1 <= self.y2 <= 0x4000_0000,
        ensures
            c.0 == (self.x1 + self.x2) as i64 / 2,
            c.1 == (self.y1 + self.y2) as i64 / 2,
    {
        ((self.x1 + self.x2) / 2, (self.y1 + self.y2) / 2)
    }

    /// Whether this rectangle overlaps the target: the closed intervals
    /// meet on both axes.
    pub fn intersects_with(&self, other: &Rect) -> (b: bool)
        ensures
            b == (self.x1 <= other.x2 && self.x2 >= other.x1 && self.y1 <= other.y2
                && self.y2 >= other.y1),
    {
        (self.x1 <= other.x2) && (self.x2 >= other.x1) && (self.y1 <= other.y2)
            && (self.y2 >= other.y1)
    }
}

} // verus!
