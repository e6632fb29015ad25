//! The raycasting engine: per-source light fields, single-ray walking with
//! max-blend tile writes, collision handling with candidate reflection
//! generation, reflection filtering, and the reflection cascade.

use vstd::prelude::*;
use crate::fixed::{MICRO, mul_fp, mul_fp_spec, isqrt, isqrt_spec, sdiv, sdiv_spec, smul_fp,
    smul_fp_spec, lemma_mul_fp_le_left};
use crate::model::{Rgb, Tile, WorldMap, CHANNEL_MAX};
use crate::tables::{BrightnessTables, coll_index_spec, dist_index_spec, bright_index_spec};
use crate::trig::{sin_mdeg, cos_mdeg, sin_mdeg_spec, cos_mdeg_spec};
use crate::angles::{wrap_angle, wrap_angle_spec, determine_alpha_angle, alpha_angle_spec,
    determine_collision_face, collision_face_spec, sub_tile_spec, reflect_direction,
    reflect_direction_spec};

verus! {

/// One ray step: a twentieth of a tile, in micro-tiles.
pub const STEP_MICRO: u64 = 50_000;

/// Per-channel brightness under which a ray is extinguished (just under
/// 1/255), bounding reflection fan-out.
pub const RAY_KILL_FLOOR: u64 = 3_930;

/// A candidate child light source proposed at a ray/tile collision,
/// consumed within the same reflection level.
#[derive(Clone, Copy, Debug)]
pub struct ChildReflection {
    /// Diffuse bounce (wide, along the face normal) rather than specular.
    pub diffuse: bool,
    pub x: i64,
    pub y: i64,
    /// Sub-tile emission offset in micro-tiles.
    pub position_offset: (i64, i64),
    /// Index of the struck face, 0 through 3.
    pub face: i64,
    /// Leaving direction in millidegrees.
    pub direction: i64,
    pub intensity_profile: Rgb,
    /// Emission half-angle in millidegrees.
    pub angular_sweep: i64,
    /// Beam focus in millidegrees.
    pub collimation: i64,
}

impl ChildReflection {
    pub open spec fn valid(self) -> bool {
        &&& self.intensity_profile.valid()
        &&& 0 <= self.x < 1024
        &&& 0 <= self.y < 1024
        &&& -1_000_000 <= self.position_offset.0 <= 1_000_000
        &&& -1_000_000 <= self.position_offset.1 <= 1_000_000
        &&& 0 <= self.face < 4
        &&& 0 <= self.direction < 360_000
        &&& 0 <= self.angular_sweep <= 360_000
        &&& 0 <= self.collimation <= 90_000
    }

    pub fn new(
        diffuse: bool,
        x: i64,
        y: i64,
        position_offset: (i64, i64),
        face: i64,
        direction: i64,
        intensity_profile: Rgb,
        angular_sweep: i64,
        collimation: i64,
    ) -> (c: ChildReflection)
        ensures
            c == (ChildReflection {
                diffuse,
                x,
                y,
                position_offset,
                face,
                direction,
                intensity_profile,
                angular_sweep,
                collimation,
            }),
    {
        ChildReflection {
            diffuse,
            x,
            y,
            position_offset,
            face,
            direction,
            intensity_profile,
            angular_sweep,
            collimation,
        }
    }
}

/// One light source's dense RGB irradiance grid, with its bounding box in
/// map coordinates (`light_field[i][j]` covers map tile
/// `(map_offset_start.0 + i, map_offset_start.1 + j)`).
pub struct LightFieldObject {
    pub light_field: Vec<Vec<Rgb>>,
    pub map_offset_start: (i64, i64),
    pub map_offset_end: (i64, i64),
}

impl LightFieldObject {
    pub open spec fn field_w(self) -> int {
        self.map_offset_end.0 - self.map_offset_start.0 + 1
    }

    pub open spec fn field_h(self) -> int {
        self.map_offset_end.1 - self.map_offset_start.1 + 1
    }

    pub open spec fn at(self, i: int, j: int) -> Rgb {
        self.light_field[i][j]
    }

    /// The field's contents as a sequence of columns.
    pub open spec fn view(self) -> Seq<Seq<Rgb>> {
        Seq::new(self.light_field@.len() as nat, |i: int| self.light_field@[i]@)
    }

    pub open spec fn wf(self) -> bool {
        &&& 0 <= self.map_offset_start.0 <= self.map_offset_end.0 < 1024
        &&& 0 <= self.map_offset_start.1 <= self.map_offset_end.1 < 1024
        &&& self.light_field.len() == self.field_w()
        &&& forall|i: int|
            0 <= i < self.field_w() ==> (#[trigger] self.light_field[i]).len() == self.field_h()
        &&& forall|i: int, j: int|
            0 <= i < self.field_w() && 0 <= j < self.field_h()
                ==> (#[trigger] self.light_field[i][j]).valid()
    }

    /// Same bounding box as `other`.
    pub open spec fn same_box(self, other: LightFieldObject) -> bool {
        self.map_offset_start == other.map_offset_start
            && self.map_offset_end == other.map_offset_end
    }

    /// Every cell at least as bright as in `other`, channel-wise.
    pub open spec fn covers(self, other: LightFieldObject) -> bool {
        forall|i: int, j: int|
            0 <= i < other.field_w() && 0 <= j < other.field_h()
                ==> (#[trigger] other.at(i, j)).le(self.at(i, j))
    }

    /// A fresh one-by-one placeholder field.
    pub fn new() -> (o: LightFieldObject)
        ensures
            o.wf(),
            o.map_offset_start.0 == 0 && o.map_offset_start.1 == 0,
            o.map_offset_end.0 == 0 && o.map_offset_end.1 == 0,
            o.at(0, 0).is_zero(),
    {
        let mut row: Vec<Rgb> = Vec::new();
        row.push(Rgb::zero());
        let mut light_field: Vec<Vec<Rgb>> = Vec::new();
        light_field.push(row);
        LightFieldObject { light_field, map_offset_start: (0, 0), map_offset_end: (0, 0) }
    }

    /// A field view after one max-blend write into cell `(fx, fy)`.
    pub open spec fn view_write(field: Seq<Seq<Rgb>>, fx: int, fy: int, rb: Rgb) -> Seq<Seq<Rgb>> {
        field.update(fx, field[fx].update(fy, field[fx][fy].join(rb)))
    }

    /// Max-blend a ray's brightness into one cell: never darken what a
    /// brighter ray already lit.
    pub fn overwrite_tile(&mut self, ray_brightness: &Rgb, field_coords: (i64, i64))
        requires
            old(self).wf(),
            ray_brightness.valid(),
            0 <= field_coords.0 < old(self).field_w(),
            0 <= field_coords.1 < old(self).field_h(),
        ensures
            final(self).wf(),
            final(self).same_box(*old(self)),
            final(self).at(field_coords.0 as int, field_coords.1 as int)
                == old(self).at(field_coords.0 as int, field_coords.1 as int).join(*ray_brightness),
            forall|i: int, j: int|
                0 <= i < old(self).field_w() && 0 <= j < old(self).field_h()
                    && (i != field_coords.0 || j != field_coords.1)
                    ==> #[trigger] final(self).at(i, j) == old(self).at(i, j),
            final(self).covers(*old(self)),
            final(self).view() == LightFieldObject::view_write(
                old(self).view(),
                field_coords.0 as int,
                field_coords.1 as int,
                *ray_brightness,
            ),
    {
        let i: usize = field_coords.0 as usize;
        let j: usize = field_coords.1 as usize;
        assert(self.light_field[i as int].len() == self.field_h());
        let cell: Rgb = self.light_field[i][j];
        let blended = Rgb {
            r: if cell.r >= ray_brightness.r { cell.r } else { ray_brightness.r },
            g: if cell.g >= ray_brightness.g { cell.g } else { ray_brightness.g },
            b: if cell.b >= ray_brightness.b { cell.b } else { ray_brightness.b },
        };
        let row: &mut Vec<Rgb> = &mut self.light_field[i];
        row.set(j, blended);
        assert(forall|k: int| 0 <= k < self.light_field.len() && k != i
            ==> #[trigger] self.light_field[k] == old(self).light_field[k]);
        proof {
            let expected = LightFieldObject::view_write(
                old(self).view(),
                i as int,
                j as int,
                *ray_brightness,
            );
            assert forall|a: int| 0 <= a < self.view().len()
                implies #[trigger] self.view()[a] =~= expected[a] by {
                if a == i {
                    assert(self.light_field@[a]@ =~= old(self).light_field@[a]@.update(
                        j as int,
                        blended,
                    ));
                } else {
                    assert(self.light_field@[a] == old(self).light_field@[a]);
                }
            }
            assert(self.view() =~~= expected);
        }
    }
}

/// Law of the max-blend invariant: a max-blended cell is never darker
/// than any single ray that touched it, nor than what it already held; so
/// after a pass, in which every tile write goes through `overwrite_tile`,
/// no stored irradiance is below the brightest ray that reached it.
pub proof fn lemma_max_blend_never_darkens(cell: Rgb, ray: Rgb)
    ensures
        ray.le(cell.join(ray)),
        cell.le(cell.join(ray)),
{
}

/// Dim a ray's intensity by a tile's color and a micro-unit scale factor,
/// channel by channel.
pub open spec fn attenuate_spec(intensity: Rgb, color: Rgb, scale: int) -> Rgb {
    Rgb {
        r: mul_fp_spec(mul_fp_spec(intensity.r as int, color.r as int), scale) as u64,
        g: mul_fp_spec(mul_fp_spec(intensity.g as int, color.g as int), scale) as u64,
        b: mul_fp_spec(mul_fp_spec(intensity.b as int, color.b as int), scale) as u64,
    }
}

/// Multiply a ray's intensity by a tile color and a scale factor.
pub fn attenuate_ray(ray_intensity: &Rgb, tile_color: &Rgb, scale_factor: u64) -> (r: Rgb)
    requires
        ray_intensity.valid(),
        tile_color.is_color(),
        scale_factor <= MICRO,
    ensures
        r == attenuate_spec(*ray_intensity, *tile_color, scale_factor as int),
        r.le(*ray_intensity),
        r.valid(),
{
    proof {
        lemma_mul_fp_le_left(ray_intensity.r as int, tile_color.r as int);
        lemma_mul_fp_le_left(ray_intensity.g as int, tile_color.g as int);
        lemma_mul_fp_le_left(ray_intensity.b as int, tile_color.b as int);
        lemma_mul_fp_le_left(mul_fp_spec(ray_intensity.r as int, tile_color.r as int), scale_factor as int);
        lemma_mul_fp_le_left(mul_fp_spec(ray_intensity.g as int, tile_color.g as int), scale_factor as int);
        lemma_mul_fp_le_left(mul_fp_spec(ray_intensity.b as int, tile_color.b as int), scale_factor as int);
        assert(ray_intensity.r * tile_color.r <= u64::MAX) by (nonlinear_arith)
            requires ray_intensity.r <= CHANNEL_MAX && tile_color.r <= MICRO;
        assert(ray_intensity.g * tile_color.g <= u64::MAX) by (nonlinear_arith)
            requires ray_intensity.g <= CHANNEL_MAX && tile_color.g <= MICRO;
        assert(ray_intensity.b * tile_color.b <= u64::MAX) by (nonlinear_arith)
            requires ray_intensity.b <= CHANNEL_MAX && tile_color.b <= MICRO;
    }
    let r0 = mul_fp(ray_intensity.r, tile_color.r);
    let g0 = mul_fp(ray_intensity.g, tile_color.g);
    let b0 = mul_fp(ray_intensity.b, tile_color.b);
    proof {
        assert(r0 * scale_factor <= u64::MAX) by (nonlinear_arith)
            requires r0 <= CHANNEL_MAX && scale_factor <= MICRO;
        assert(g0 * scale_factor <= u64::MAX) by (nonlinear_arith)
            requires g0 <= CHANNEL_MAX && scale_factor <= MICRO;
        assert(b0 * scale_factor <= u64::MAX) by (nonlinear_arith)
            requires b0 <= CHANNEL_MAX && scale_factor <= MICRO;
    }
    Rgb { r: mul_fp(r0, scale_factor), g: mul_fp(g0, scale_factor), b: mul_fp(b0, scale_factor) }
}

/// A parent intensity dimmed by the falloff table for the distance a ray
/// has travelled, clamped never to exceed the parent.
pub open spec fn ray_brightness_spec(parent: Rgb, modulation: int) -> Rgb {
    Rgb {
        r: (if mul_fp_spec(parent.r as int, modulation) > parent.r {
            parent.r as int
        } else {
            mul_fp_spec(parent.r as int, modulation)
        }) as u64,
        g: (if mul_fp_spec(parent.g as int, modulation) > parent.g {
            parent.g as int
        } else {
            mul_fp_spec(parent.g as int, modulation)
        }) as u64,
        b: (if mul_fp_spec(parent.b as int, modulation) > parent.b {
            parent.b as int
        } else {
            mul_fp_spec(parent.b as int, modulation)
        }) as u64,
    }
}

/// Ray brightness after `ray_distance_steps` twentieths of a tile:
/// the parent intensity scaled by the falloff table (distances under one
/// tile count as one tile), clamped so attenuation never amplifies.
pub fn determine_ray_brightness(
    ray_distance_steps: u64,
    parent_intensity_profile: &Rgb,
    collimation: i64,
    brightness_tables: &BrightnessTables,
) -> (r: Rgb)
    requires
        brightness_tables.wf(),
        parent_intensity_profile.valid(),
        collimation >= 0,
    ensures
        r == ray_brightness_spec(
            *parent_intensity_profile,
            brightness_tables.brightness_at(
                coll_index_spec(collimation as int),
                dist_index_spec(
                    if ray_distance_steps < 20 { 20int } else { ray_distance_steps as int },
                ),
            ),
        ),
        r.le(*parent_intensity_profile),
        r.valid(),
{
    let modulation_distance: u64 = if ray_distance_steps < 20 { 20 } else { ray_distance_steps };
    let modulation: u64 = brightness_tables.read_brightness_table(modulation_distance, collimation);
    proof {
        assert(parent_intensity_profile.r * modulation <= u64::MAX) by (nonlinear_arith)
            requires parent_intensity_profile.r <= CHANNEL_MAX && modulation <= MICRO;
        assert(parent_intensity_profile.g * modulation <= u64::MAX) by (nonlinear_arith)
            requires parent_intensity_profile.g <= CHANNEL_MAX && modulation <= MICRO;
        assert(parent_intensity_profile.b * modulation <= u64::MAX) by (nonlinear_arith)
            requires parent_intensity_profile.b <= CHANNEL_MAX && modulation <= MICRO;
    }
    let mut r = mul_fp(parent_intensity_profile.r, modulation);
    let mut g = mul_fp(parent_intensity_profile.g, modulation);
    let mut b = mul_fp(parent_intensity_profile.b, modulation);
    if r > parent_intensity_profile.r {
        r = parent_intensity_profile.r;
    }
    if g > parent_intensity_profile.g {
        g = parent_intensity_profile.g;
    }
    if b > parent_intensity_profile.b {
        b = parent_intensity_profile.b;
    }
    Rgb { r, g, b }
}

/// Whether two map positions are orthogonally adjacent.
pub open spec fn adjacent_spec(a: (int, int), b: (int, int)) -> bool {
    ||| (a.0 == b.0 && (a.1 - b.1 == 1 || b.1 - a.1 == 1))
    ||| (a.1 == b.1 && (a.0 - b.0 == 1 || b.0 - a.0 == 1))
}

/// Whether a target position is orthogonally adjacent to the light source.
pub fn check_adjacent(map_target_position: (i64, i64), map_light_source_position: (i64, i64)) -> (r: bool)
    requires
        -0x1_0000_0000 <= map_target_position.0 <= 0x1_0000_0000,
        -0x1_0000_0000 <= map_target_position.1 <= 0x1_0000_0000,
        -0x1_0000_0000 <= map_light_source_position.0 <= 0x1_0000_0000,
        -0x1_0000_0000 <= map_light_source_position.1 <= 0x1_0000_0000,
    ensures
        r == adjacent_spec(
            (map_target_position.0 as int, map_target_position.1 as int),
            (map_light_source_position.0 as int, map_light_source_position.1 as int),
        ),
{
    let dx: i64 = map_target_position.0 - map_light_source_position.0;
    let dy: i64 = map_target_position.1 - map_light_source_position.1;
    let adx: i64 = if dx < 0 { -dx } else { dx };
    let ady: i64 = if dy < 0 { -dy } else { dy };
    (dx == 0 && ady == 1) || (adx == 1 && dy == 0)
}

/// A sub-tile offset rotated to point along `direction`: the offset's
/// magnitude redirected to the facing angle, quadrant by quadrant of the
/// unrotated offset.
pub open spec fn rotate_offset_spec(ox: int, oy: int, direction: int) -> (int, int) {
    let mag = isqrt_spec(ox * ox + oy * oy);
    if ox >= 0 && oy >= 0 {
        (smul_fp_spec(mag, cos_mdeg_spec(direction)), smul_fp_spec(mag, sin_mdeg_spec(direction)))
    } else if ox < 0 && oy >= 0 {
        let w = wrap_angle_spec(180_000 - direction);
        (-smul_fp_spec(mag, cos_mdeg_spec(w)), smul_fp_spec(mag, sin_mdeg_spec(w)))
    } else if ox < 0 && oy < 0 {
        let w = wrap_angle_spec(direction - 180_000);
        (-smul_fp_spec(mag, cos_mdeg_spec(w)), -smul_fp_spec(mag, sin_mdeg_spec(w)))
    } else {
        let w = wrap_angle_spec(360_000 - direction);
        (smul_fp_spec(mag, cos_mdeg_spec(w)), -smul_fp_spec(mag, sin_mdeg_spec(w)))
    }
}

/// Rotate a light source's sub-tile position offset to its facing
/// direction, preserving the offset's magnitude.
pub fn rotate_float_offset(float_offset: (i64, i64), direction: i64) -> (r: (i64, i64))
    requires
        -1_000_000 <= float_offset.0 <= 1_000_000,
        -1_000_000 <= float_offset.1 <= 1_000_000,
        0 <= direction < 360_000,
    ensures
        r.0 == rotate_offset_spec(float_offset.0 as int, float_offset.1 as int, direction as int).0,
        r.1 == rotate_offset_spec(float_offset.0 as int, float_offset.1 as int, direction as int).1,
        -4_000_000 <= r.0 <= 4_000_000,
        -4_000_000 <= r.1 <= 4_000_000,
{
    let ox = float_offset.0;
    let oy = float_offset.1;
    proof {
        assert(0 <= ox * ox <= 1_000_000_000_000int) by (nonlinear_arith)
            requires -1_000_000 <= ox <= 1_000_000;
        assert(0 <= oy * oy <= 1_000_000_000_000int) by (nonlinear_arith)
            requires -1_000_000 <= oy <= 1_000_000;
    }
    let sq: u64 = ((ox * ox) + (oy * oy)) as u64;
    let mag: u64 = isqrt(sq);
    assert(mag <= 2_000_000) by (nonlinear_arith)
        requires
            mag * mag <= sq,
            sq <= 2_000_000_000_000u64;
    if ox >= 0 && oy >= 0 {
        let c = cos_mdeg(direction);
        let s = sin_mdeg(direction);
        (smul_fp(mag, c), smul_fp(mag, s))
    } else if ox < 0 && oy >= 0 {
        let w = wrap_angle(180_000 - direction);
        let c = cos_mdeg(w);
        let s = sin_mdeg(w);
        (-smul_fp(mag, c), smul_fp(mag, s))
    } else if ox < 0 && oy < 0 {
        let w = wrap_angle(direction - 180_000);
        let c = cos_mdeg(w);
        let s = sin_mdeg(w);
        (-smul_fp(mag, c), -smul_fp(mag, s))
    } else {
        let w = wrap_angle(360_000 - direction);
        let c = cos_mdeg(w);
        let s = sin_mdeg(w);
        (smul_fp(mag, c), -smul_fp(mag, s))
    }
}

/// The tile index a micro-tile coordinate falls into, truncated toward
/// zero (so a coordinate a hair below zero still reads as tile zero, and
/// only a full tile outside the field fails the bounds check).
pub open spec fn trunc_tile_spec(c: int) -> int {
    if c >= 0 {
        c / 1_000_000
    } else {
        -((-c) / 1_000_000)
    }
}

/// Truncate a micro-tile coordinate to its tile index.
pub fn trunc_tile(c: i64) -> (r: i64)
    requires
        -4_000_000_000_000 <= c <= 4_000_000_000_000,
    ensures
        r == trunc_tile_spec(c as int),
        -4_000_000 <= r <= 4_000_000,
{
    if c >= 0 {
        c / 1_000_000
    } else {
        -((-c) / 1_000_000)
    }
}

impl LightFieldObject {
    /// Size a light field: the radius is the table-derived maximum lit
    /// distance for the brightest channel (the tabulated distance is
    /// `1 + index/20` tiles, rounded up to the next whole tile so the dim
    /// boundary ring is kept), and the bounding box is that radius around
    /// the source, clamped to the map.  Returns the box and a zeroed field
    /// covering it.
    pub fn determine_light_field_dimensions(
        map: &WorldMap,
        position: (i64, i64),
        intensity_profile: &Rgb,
        brightness_tables: &BrightnessTables,
        collimation: i64,
    ) -> (r: ((i64, i64), (i64, i64), Vec<Vec<Rgb>>))
        requires
            map.wf(),
            brightness_tables.wf(),
            map.in_bounds(position.0 as int, position.1 as int),
            intensity_profile.valid(),
            collimation >= 0,
        ensures
            ({
                let rad = brightness_tables.radius_at(
                    coll_index_spec(collimation as int),
                    bright_index_spec(intensity_profile.max_channel_spec()),
                ) / 20 + 2;
                &&& r.0.0 == if position.0 - rad < 0 { 0int } else { position.0 - rad }
                &&& r.0.1 == if position.1 - rad < 0 { 0int } else { position.1 - rad }
                &&& r.1.0 == if position.0 + rad > map.width - 1 {
                    map.width as int - 1
                } else {
                    position.0 + rad
                }
                &&& r.1.1 == if position.1 + rad > map.height - 1 {
                    map.height as int - 1
                } else {
                    position.1 + rad
                }
            }),
            0 <= r.0.0 <= position.0 <= r.1.0 < map.width,
            0 <= r.0.1 <= position.1 <= r.1.1 < map.height,
            r.2.len() == r.1.0 - r.0.0 + 1,
            forall|i: int| 0 <= i < r.2.len() ==> (#[trigger] r.2[i]).len() == r.1.1 - r.0.1 + 1,
            forall|i: int, j: int|
                0 <= i < r.2.len() && 0 <= j < r.1.1 - r.0.1 + 1
                    ==> (#[trigger] r.2[i][j]).is_zero() && r.2[i][j].valid(),
    {
        let max_intensity: u64 = intensity_profile.max_channel();
        let radius_index: u64 = brightness_tables.read_distance_table(max_intensity, collimation);
        let int_light_radius: i64 = (radius_index / 20 + 2) as i64;

        let mut start_x: i64 = position.0 - int_light_radius;
        let mut start_y: i64 = position.1 - int_light_radius;
        let mut end_x: i64 = position.0 + int_light_radius;
        let mut end_y: i64 = position.1 + int_light_radius;
        if start_x < 0 {
            start_x = 0;
        }
        if start_y < 0 {
            start_y = 0;
        }
        if end_x > map.width as i64 - 1 {
            end_x = map.width as i64 - 1;
        }
        if end_y > map.height as i64 - 1 {
            end_y = map.height as i64 - 1;
        }

        let w: usize = (end_x - start_x + 1) as usize;
        let h: usize = (end_y - start_y + 1) as usize;
        let mut field: Vec<Vec<Rgb>> = Vec::new();
        let mut i: usize = 0;
        while i < w
            invariant
                i <= w,
                field.len() == i,
                forall|a: int| 0 <= a < i ==> (#[trigger] field[a]).len() == h,
                forall|a: int, b: int|
                    0 <= a < i && 0 <= b < h
                        ==> (#[trigger] field[a][b]).is_zero() && field[a][b].valid(),
            decreases w - i,
        {
            let mut col: Vec<Rgb> = Vec::new();
            let mut j: usize = 0;
            while j < h
                invariant
                    j <= h,
                    col.len() == j,
                    forall|b: int| 0 <= b < j ==> (#[trigger] col[b]).is_zero() && col[b].valid(),
                decreases h - j,
            {
                col.push(Rgb::zero());
                j += 1;
            }
            field.push(col);
            i += 1;
        }
        ((start_x, start_y), (end_x, end_y), field)
    }

    /// How many perimeter targets a box yields: the four corners plus
    /// `fineness` points per interior edge tile on each of the four edges.
    pub open spec fn perimeter_count_spec(s0: int, e0: int, s1: int, e1: int, f: int) -> int {
        let rx = if e0 - s0 - 1 > 0 { e0 - s0 - 1 } else { 0int };
        let ry = if e1 - s1 - 1 > 0 { e1 - s1 - 1 } else { 0int };
        4 + (rx * f) + (rx * f) + (ry * f) + (ry * f)
    }

    /// The perimeter target at position `idx` of the list, in micro-tile
    /// map coordinates: the near corner of the `(min, min)` tile, the top
    /// row, the `(max, min)` corner, the right column, the `(max, max)`
    /// corner, the bottom row, the `(min, max)` corner, then the left
    /// column, with `fineness` evenly spaced points per interior edge
    /// tile.
    pub open spec fn perimeter_target_spec(
        s0: int,
        e0: int,
        s1: int,
        e1: int,
        f: int,
        idx: int,
    ) -> (int, int) {
        let spacing = 1_000_000int / f;
        let half = spacing / 2;
        let rx = if e0 - s0 - 1 > 0 { e0 - s0 - 1 } else { 0int };
        let ry = if e1 - s1 - 1 > 0 { e1 - s1 - 1 } else { 0int };
        let rxf = rx * f;
        let ryf = ry * f;
        if idx == 0 {
            (s0 * 1_000_000 + 1_000_000 - half, s1 * 1_000_000 + 1_000_000 - half)
        } else if idx < 1 + rxf {
            let q = idx - 1;
            (
                (s0 + 1 + q / f) * 1_000_000 + half + spacing * (q % f),
                s1 * 1_000_000 + 1_000_000 - half,
            )
        } else if idx == 1 + rxf {
            (e0 * 1_000_000 + half, s1 * 1_000_000 + 1_000_000 - half)
        } else if idx < 2 + rxf + ryf {
            let q = idx - 2 - rxf;
            (e0 * 1_000_000 + half, (s1 + 1 + q / f) * 1_000_000 + half + spacing * (q % f))
        } else if idx == 2 + rxf + ryf {
            (e0 * 1_000_000 + half, e1 * 1_000_000 + half)
        } else if idx < 3 + rxf + rxf + ryf {
            let q = idx - 3 - rxf - ryf;
            (
                (s0 + 1 + q / f) * 1_000_000 + half + spacing * (q % f),
                e1 * 1_000_000 + half,
            )
        } else if idx == 3 + rxf + rxf + ryf {
            (s0 * 1_000_000 + 1_000_000 - half, e1 * 1_000_000 + half)
        } else {
            let q = idx - 4 - rxf - rxf - ryf;
            (
                s0 * 1_000_000 + 1_000_000 - half,
                (s1 + 1 + q / f) * 1_000_000 + half + spacing * (q % f),
            )
        }
    }

    /// Sample ray target points along the perimeter of a bounding box:
    /// `fineness` points per interior edge tile, plus the four corners,
    /// all in micro-tile map coordinates, exactly as
    /// `perimeter_target_spec` lists them.
    #[verifier::loop_isolation(false)]
    #[verifier::rlimit(100)]
    pub fn locate_perimeter_targets(
        map_offset_start: (i64, i64),
        map_offset_end: (i64, i64),
        fineness: i64,
    ) -> (targets: Vec<(i64, i64)>)
        requires
            0 <= map_offset_start.0 <= map_offset_end.0 < 1024,
            0 <= map_offset_start.1 <= map_offset_end.1 < 1024,
            1 <= fineness <= 20,
        ensures
            targets.len() == LightFieldObject::perimeter_count_spec(
                map_offset_start.0 as int,
                map_offset_end.0 as int,
                map_offset_start.1 as int,
                map_offset_end.1 as int,
                fineness as int,
            ),
            forall|k: int|
                0 <= k < targets.len()
                    ==> ((#[trigger] targets[k]).0 as int, targets[k].1 as int)
                        == LightFieldObject::perimeter_target_spec(
                        map_offset_start.0 as int,
                        map_offset_end.0 as int,
                        map_offset_start.1 as int,
                        map_offset_end.1 as int,
                        fineness as int,
                        k,
                    ),
            forall|k: int|
                0 <= k < targets.len() ==> {
                    &&& map_offset_start.0 * 1_000_000 <= (#[trigger] targets[k]).0
                        <= (map_offset_end.0 + 1) * 1_000_000
                    &&& map_offset_start.1 * 1_000_000 <= targets[k].1
                        <= (map_offset_end.1 + 1) * 1_000_000
                },
    {
        let ghost s0 = map_offset_start.0 as int;
        let ghost e0 = map_offset_end.0 as int;
        let ghost s1 = map_offset_start.1 as int;
        let ghost e1 = map_offset_end.1 as int;
        let ghost f = fineness as int;
        let ghost rx: int = if e0 - s0 - 1 > 0 { e0 - s0 - 1 } else { 0int };
        let ghost ry: int = if e1 - s1 - 1 > 0 { e1 - s1 - 1 } else { 0int };

        let sp0: i64 = map_offset_start.0 * 1_000_000;
        let sp1: i64 = map_offset_start.1 * 1_000_000;
        let ep0: i64 = map_offset_end.0 * 1_000_000;
        let ep1: i64 = map_offset_end.1 * 1_000_000;
        let spacing: i64 = 1_000_000 / fineness;
        let half: i64 = spacing / 2;
        proof {
            vstd::arithmetic::div_mod::lemma_fundamental_div_mod(1_000_000int, fineness as int);
            vstd::arithmetic::div_mod::lemma_mod_bound(1_000_000int, fineness as int);
            vstd::arithmetic::div_mod::lemma_div_is_ordered_by_denominator(
                1_000_000int,
                fineness as int,
                20,
            );
            assert((fineness as int) * (1_000_000int / (fineness as int))
                == (1_000_000int / (fineness as int)) * (fineness as int)) by (nonlinear_arith);
        }
        assert(50_000 <= spacing <= 1_000_000);
        assert(0 <= half <= 500_000);
        assert(spacing * (fineness as int) <= 1_000_000);

        let mut targets: Vec<(i64, i64)> = Vec::new();
        // Near corner of the (min, min) tile.
        targets.push((sp0 + (1_000_000 - half), sp1 + (1_000_000 - half)));
        // Top row.
        proof {
            assert(0int * f == 0) by (nonlinear_arith);
        }
        let mut x: i64 = map_offset_start.0 + 1;
        while x < map_offset_end.0
            invariant
                map_offset_start.0 + 1 <= x,
                x <= map_offset_end.0 || x == map_offset_start.0 + 1,
                targets@.len() == 1 + (x - s0 - 1) * f,
                forall|k: int|
                    0 <= k < targets.len()
                        ==> ((#[trigger] targets[k]).0 as int, targets[k].1 as int)
                            == LightFieldObject::perimeter_target_spec(s0, e0, s1, e1, f, k),
            decreases map_offset_end.0 - x,
        {
            let mut sub: i64 = 0;
            while sub < fineness
                invariant
                    0 <= sub <= fineness,
                    map_offset_start.0 + 1 <= x < map_offset_end.0,
                    targets@.len() == 1 + (x - s0 - 1) * f + sub,
                    forall|k: int|
                        0 <= k < targets.len()
                            ==> ((#[trigger] targets[k]).0 as int, targets[k].1 as int)
                                == LightFieldObject::perimeter_target_spec(s0, e0, s1, e1, f, k),
                decreases fineness - sub,
            {
                proof {
                    vstd::arithmetic::mul::lemma_mul_inequality(sub as int, fineness as int - 1, spacing as int);
                    assert((fineness as int - 1) * spacing == (fineness as int) * spacing - spacing)
                        by (nonlinear_arith);
                    assert((fineness as int) * spacing == spacing * (fineness as int))
                        by (nonlinear_arith);
                    assert((sub as int) * spacing == spacing * (sub as int)) by (nonlinear_arith);
                    let q = (x - s0 - 1) * f + sub;
                    assert(f * (x - s0 - 1) == (x - s0 - 1) * f) by (nonlinear_arith);
                    vstd::arithmetic::div_mod::lemma_fundamental_div_mod_converse(
                        q,
                        f,
                        x - s0 - 1,
                        sub as int,
                    );
                    assert(0 <= (x - s0 - 1) * f && q < rx * f) by (nonlinear_arith)
                        requires
                            0 <= x - s0 - 1 <= rx - 1,
                            0 <= sub < f,
                            q == (x - s0 - 1) * f + sub;
                }
                targets.push((x * 1_000_000 + half + spacing * sub, sp1 + (1_000_000 - half)));
                sub += 1;
            }
            proof {
                assert((x + 1 - s0 - 1) * f == (x - s0 - 1) * f + f) by (nonlinear_arith);
            }
            x += 1;
        }
        assert(targets@.len() == 1 + rx * f) by {
            if e0 - s0 - 1 <= 0 {
                assert(rx == 0);
                assert(rx * f == 0) by (nonlinear_arith)
                    requires rx == 0int;
            } else {
                assert((x - s0 - 1) * f == rx * f);
            }
        }
        // (max, min) corner.
        targets.push((ep0 + half, sp1 + (1_000_000 - half)));
        // Right column.
        proof {
            assert(0int * f == 0) by (nonlinear_arith);
        }
        let mut y: i64 = map_offset_start.1 + 1;
        while y < map_offset_end.1
            invariant
                map_offset_start.1 + 1 <= y,
                y <= map_offset_end.1 || y == map_offset_start.1 + 1,
                targets@.len() == 2 + rx * f + (y - s1 - 1) * f,
                forall|k: int|
                    0 <= k < targets.len()
                        ==> ((#[trigger] targets[k]).0 as int, targets[k].1 as int)
                            == LightFieldObject::perimeter_target_spec(s0, e0, s1, e1, f, k),
            decreases map_offset_end.1 - y,
        {
            let mut sub: i64 = 0;
            while sub < fineness
                invariant
                    0 <= sub <= fineness,
                    map_offset_start.1 + 1 <= y < map_offset_end.1,
                    targets@.len() == 2 + rx * f + (y - s1 - 1) * f + sub,
                    forall|k: int|
                        0 <= k < targets.len()
                            ==> ((#[trigger] targets[k]).0 as int, targets[k].1 as int)
                                == LightFieldObject::perimeter_target_spec(s0, e0, s1, e1, f, k),
                decreases fineness - sub,
            {
                proof {
                    vstd::arithmetic::mul::lemma_mul_inequality(sub as int, fineness as int - 1, spacing as int);
                    assert((fineness as int - 1) * spacing == (fineness as int) * spacing - spacing)
                        by (nonlinear_arith);
                    assert((fineness as int) * spacing == spacing * (fineness as int))
                        by (nonlinear_arith);
                    assert((sub as int) * spacing == spacing * (sub as int)) by (nonlinear_arith);
                    let q = (y - s1 - 1) * f + sub;
                    assert(f * (y - s1 - 1) == (y - s1 - 1) * f) by (nonlinear_arith);
                    vstd::arithmetic::div_mod::lemma_fundamental_div_mod_converse(
                        q,
                        f,
                        y - s1 - 1,
                        sub as int,
                    );
                    assert(0 <= (y - s1 - 1) * f && q < ry * f) by (nonlinear_arith)
                        requires
                            0 <= y - s1 - 1 <= ry - 1,
                            0 <= sub < f,
                            q == (y - s1 - 1) * f + sub;
                }
                targets.push((ep0 + half, y * 1_000_000 + half + spacing * sub));
                sub += 1;
            }
            proof {
                assert((y + 1 - s1 - 1) * f == (y - s1 - 1) * f + f) by (nonlinear_arith);
            }
            y += 1;
        }
        assert(targets@.len() == 2 + rx * f + ry * f) by {
            if e1 - s1 - 1 <= 0 {
                assert(ry == 0);
                assert(ry * f == 0) by (nonlinear_arith)
                    requires ry == 0int;
            } else {
                assert((y - s1 - 1) * f == ry * f);
            }
        }
        // (max, max) corner.
        targets.push((ep0 + half, ep1 + half));
        // Bottom row.
        proof {
            assert(0int * f == 0) by (nonlinear_arith);
        }
        let mut x2: i64 = map_offset_start.0 + 1;
        while x2 < map_offset_end.0
            invariant
                map_offset_start.0 + 1 <= x2,
                x2 <= map_offset_end.0 || x2 == map_offset_start.0 + 1,
                targets@.len() == 3 + rx * f + ry * f + (x2 - s0 - 1) * f,
                forall|k: int|
                    0 <= k < targets.len()
                        ==> ((#[trigger] targets[k]).0 as int, targets[k].1 as int)
                            == LightFieldObject::perimeter_target_spec(s0, e0, s1, e1, f, k),
            decreases map_offset_end.0 - x2,
        {
            let mut sub: i64 = 0;
            while sub < fineness
                invariant
                    0 <= sub <= fineness,
                    map_offset_start.0 + 1 <= x2 < map_offset_end.0,
                    targets@.len() == 3 + rx * f + ry * f + (x2 - s0 - 1) * f + sub,
                    forall|k: int|
                        0 <= k < targets.len()
                            ==> ((#[trigger] targets[k]).0 as int, targets[k].1 as int)
                                == LightFieldObject::perimeter_target_spec(s0, e0, s1, e1, f, k),
                decreases fineness - sub,
            {
                proof {
                    vstd::arithmetic::mul::lemma_mul_inequality(sub as int, fineness as int - 1, spacing as int);
                    assert((fineness as int - 1) * spacing == (fineness as int) * spacing - spacing)
                        by (nonlinear_arith);
                    assert((fineness as int) * spacing == spacing * (fineness as int))
                        by (nonlinear_arith);
                    assert((sub as int) * spacing == spacing * (sub as int)) by (nonlinear_arith);
                    let q = (x2 - s0 - 1) * f + sub;
                    assert(f * (x2 - s0 - 1) == (x2 - s0 - 1) * f) by (nonlinear_arith);
                    vstd::arithmetic::div_mod::lemma_fundamental_div_mod_converse(
                        q,
                        f,
                        x2 - s0 - 1,
                        sub as int,
                    );
                    assert(0 <= (x2 - s0 - 1) * f && q < rx * f) by (nonlinear_arith)
                        requires
                            0 <= x2 - s0 - 1 <= rx - 1,
                            0 <= sub < f,
                            q == (x2 - s0 - 1) * f + sub;
                }
                targets.push((x2 * 1_000_000 + half + spacing * sub, ep1 + half));
                sub += 1;
            }
            proof {
                assert((x2 + 1 - s0 - 1) * f == (x2 - s0 - 1) * f + f) by (nonlinear_arith);
            }
            x2 += 1;
        }
        assert(targets@.len() == 3 + rx * f + rx * f + ry * f) by {
            if e0 - s0 - 1 <= 0 {
                assert(rx == 0);
                assert(rx * f == 0) by (nonlinear_arith)
                    requires rx == 0int;
            } else {
                assert((x2 - s0 - 1) * f == rx * f);
            }
        }
        // (min, max) corner.
        targets.push((sp0 + (1_000_000 - half), ep1 + half));
        // Left column.
        proof {
            assert(0int * f == 0) by (nonlinear_arith);
        }
        let mut y2: i64 = map_offset_start.1 + 1;
        while y2 < map_offset_end.1
            invariant
                map_offset_start.1 + 1 <= y2,
                y2 <= map_offset_end.1 || y2 == map_offset_start.1 + 1,
                targets@.len() == 4 + rx * f + rx * f + ry * f + (y2 - s1 - 1) * f,
                forall|k: int|
                    0 <= k < targets.len()
                        ==> ((#[trigger] targets[k]).0 as int, targets[k].1 as int)
                            == LightFieldObject::perimeter_target_spec(s0, e0, s1, e1, f, k),
            decreases map_offset_end.1 - y2,
        {
            let mut sub: i64 = 0;
            while sub < fineness
                invariant
                    0 <= sub <= fineness,
                    map_offset_start.1 + 1 <= y2 < map_offset_end.1,
                    targets@.len() == 4 + rx * f + rx * f + ry * f + (y2 - s1 - 1) * f + sub,
                    forall|k: int|
                        0 <= k < targets.len()
                            ==> ((#[trigger] targets[k]).0 as int, targets[k].1 as int)
                                == LightFieldObject::perimeter_target_spec(s0, e0, s1, e1, f, k),
                decreases fineness - sub,
            {
                proof {
                    vstd::arithmetic::mul::lemma_mul_inequality(sub as int, fineness as int - 1, spacing as int);
                    assert((fineness as int - 1) * spacing == (fineness as int) * spacing - spacing)
                        by (nonlinear_arith);
                    assert((fineness as int) * spacing == spacing * (fineness as int))
                        by (nonlinear_arith);
                    assert((sub as int) * spacing == spacing * (sub as int)) by (nonlinear_arith);
                    let q = (y2 - s1 - 1) * f + sub;
                    assert(f * (y2 - s1 - 1) == (y2 - s1 - 1) * f) by (nonlinear_arith);
                    vstd::arithmetic::div_mod::lemma_fundamental_div_mod_converse(
                        q,
                        f,
                        y2 - s1 - 1,
                        sub as int,
                    );
                    assert(0 <= (y2 - s1 - 1) * f && q < ry * f) by (nonlinear_arith)
                        requires
                            0 <= y2 - s1 - 1 <= ry - 1,
                            0 <= sub < f,
                            q == (y2 - s1 - 1) * f + sub;
                }
                targets.push((sp0 + (1_000_000 - half), y2 * 1_000_000 + half + spacing * sub));
                sub += 1;
            }
            proof {
                assert((y2 + 1 - s1 - 1) * f == (y2 - s1 - 1) * f + f) by (nonlinear_arith);
            }
            y2 += 1;
        }
        assert(targets@.len() == 4 + rx * f + rx * f + ry * f + ry * f) by {
            if e1 - s1 - 1 <= 0 {
                assert(ry == 0);
                assert(ry * f == 0) by (nonlinear_arith)
                    requires ry == 0int;
            } else {
                assert((y2 - s1 - 1) * f == ry * f);
            }
        }
        proof {
            assert forall|k: int| 0 <= k < targets.len() implies {
                &&& map_offset_start.0 * 1_000_000 <= (#[trigger] targets[k]).0
                    <= (map_offset_end.0 + 1) * 1_000_000
                &&& map_offset_start.1 * 1_000_000 <= targets[k].1
                    <= (map_offset_end.1 + 1) * 1_000_000
            } by {
                assert(((targets[k]).0 as int, targets[k].1 as int)
                    == LightFieldObject::perimeter_target_spec(s0, e0, s1, e1, f, k));
                LightFieldObject::lemma_perimeter_target_in_box(s0, e0, s1, e1, f, k);
            }
        }
        targets
    }

    /// Every listed perimeter target lies within one tile of the box.
    proof fn lemma_perimeter_target_in_box(s0: int, e0: int, s1: int, e1: int, f: int, idx: int)
        requires
            0 <= s0 <= e0 < 1024,
            0 <= s1 <= e1 < 1024,
            1 <= f <= 20,
            0 <= idx < LightFieldObject::perimeter_count_spec(s0, e0, s1, e1, f),
        ensures
            ({
                let t = LightFieldObject::perimeter_target_spec(s0, e0, s1, e1, f, idx);
                &&& s0 * 1_000_000 <= t.0 <= (e0 + 1) * 1_000_000
                &&& s1 * 1_000_000 <= t.1 <= (e1 + 1) * 1_000_000
            }),
    {
        let spacing = 1_000_000int / f;
        let half = spacing / 2;
        let rx = if e0 - s0 - 1 > 0 { e0 - s0 - 1 } else { 0int };
        let ry = if e1 - s1 - 1 > 0 { e1 - s1 - 1 } else { 0int };
        let rxf = rx * f;
        let ryf = ry * f;
        vstd::arithmetic::div_mod::lemma_fundamental_div_mod(1_000_000int, f);
        vstd::arithmetic::div_mod::lemma_mod_bound(1_000_000int, f);
        vstd::arithmetic::div_mod::lemma_div_is_ordered_by_denominator(1_000_000int, f, 20);
        assert(f * (1_000_000int / f) == (1_000_000int / f) * f) by (nonlinear_arith);
        assert(50_000 <= spacing <= 1_000_000);
        assert(spacing * f <= 1_000_000);
        if 1 <= idx < 1 + rxf || 3 + rxf + ryf <= idx < 3 + rxf + rxf + ryf {
            let q = if idx < 1 + rxf { idx - 1 } else { idx - 3 - rxf - ryf };
            assert(0 <= q < rxf);
            vstd::arithmetic::div_mod::lemma_fundamental_div_mod(q, f);
            vstd::arithmetic::div_mod::lemma_mod_bound(q, f);
            assert(0 <= q / f <= rx - 1) by (nonlinear_arith)
                requires
                    0 <= q < rxf,
                    rxf == rx * f,
                    f >= 1,
                    q == f * (q / f) + q % f,
                    0 <= q % f < f;
            assert(spacing * (q % f) + half + spacing <= 1_000_000 + half) by (nonlinear_arith)
                requires
                    0 <= q % f <= f - 1,
                    spacing >= 0,
                    spacing * f <= 1_000_000,
                    half >= 0;
            assert(0 <= spacing * (q % f)) by (nonlinear_arith)
                requires 0 <= q % f && spacing >= 0;
        }
        if 2 + rxf <= idx < 2 + rxf + ryf || 4 + rxf + rxf + ryf <= idx {
            let q = if idx < 2 + rxf + ryf {
                idx - 2 - rxf
            } else {
                idx - 4 - rxf - rxf - ryf
            };
            assert(0 <= q < ryf);
            vstd::arithmetic::div_mod::lemma_fundamental_div_mod(q, f);
            vstd::arithmetic::div_mod::lemma_mod_bound(q, f);
            assert(0 <= q / f <= ry - 1) by (nonlinear_arith)
                requires
                    0 <= q < ryf,
                    ryf == ry * f,
                    f >= 1,
                    q == f * (q / f) + q % f,
                    0 <= q % f < f;
            assert(spacing * (q % f) + half + spacing <= 1_000_000 + half) by (nonlinear_arith)
                requires
                    0 <= q % f <= f - 1,
                    spacing >= 0,
                    spacing * f <= 1_000_000,
                    half >= 0;
            assert(0 <= spacing * (q % f)) by (nonlinear_arith)
                requires 0 <= q % f && spacing >= 0;
        }
    }
}

/// A diffuse candidate reflection as the collision handler builds it:
/// emitted from the struck tile along the face normal, with a wide sweep
/// and full diffusion.
pub open spec fn diffuse_candidate_ok(c: ChildReflection, x: int, y: int, face: int, profile: Rgb) -> bool {
    &&& c.diffuse == true
    &&& c.x == x
    &&& c.y == y
    &&& c.position_offset.0 == 500_000
    &&& c.position_offset.1 == 0
    &&& c.face == face
    &&& c.direction == face * 90_000
    &&& c.intensity_profile == profile
    &&& c.angular_sweep == 90_000
    &&& c.collimation == 90_000
}

/// A specular candidate reflection: emitted from the struck tile along the
/// mirrored ray direction, inheriting the parent beam's shape.
pub open spec fn specular_candidate_ok(
    c: ChildReflection,
    x: int,
    y: int,
    face: int,
    direction: int,
    profile: Rgb,
    sweep: int,
    collimation: int,
) -> bool {
    &&& c.diffuse == false
    &&& c.x == x
    &&& c.y == y
    &&& c.position_offset.0 == 500_000
    &&& c.position_offset.1 == 0
    &&& c.face == face
    &&& c.direction == direction
    &&& c.intensity_profile == profile
    &&& c.angular_sweep == sweep
    &&& c.collimation == collimation
}

/// The widened collimation of a partially specular bounce: the parent's
/// focus relaxed toward fully diffuse in proportion to the diffuse share.
pub open spec fn partial_collimation_spec(collimation: int, reflectivity: int) -> int {
    collimation + mul_fp_spec(1_000_000 - reflectivity, 90_000 - collimation)
}

/// The exact sequence of candidate reflections an opaque collision
/// proposes: a diffuse bounce, a specular bounce, or both, by the tile's
/// reflectivity.
pub open spec fn opaque_candidates_spec(
    map: WorldMap,
    map_check_coords: (i64, i64),
    field_ray_coords: (int, int),
    field_dist_step_comps: (int, int),
    ray_brightness: Rgb,
    beam_sweep: i64,
    collimation: i64,
) -> Seq<ChildReflection> {
    let t = map.tile_at(map_check_coords.0 as int, map_check_coords.1 as int);
    let face = collision_face_spec(
        sub_tile_spec(field_ray_coords.0),
        sub_tile_spec(field_ray_coords.1),
    );
    let dprofile = attenuate_spec(ray_brightness, t.color, 1_000_000 - t.reflectivity);
    let sprofile = attenuate_spec(ray_brightness, t.color, 1_000_000int);
    let sdir = reflect_direction_spec(
        face * 90_000,
        field_dist_step_comps.0,
        field_dist_step_comps.1,
    );
    let diffuse = ChildReflection {
        diffuse: true,
        x: map_check_coords.0,
        y: map_check_coords.1,
        position_offset: (500_000int as i64, 0),
        face: face as i64,
        direction: (face * 90_000) as i64,
        intensity_profile: dprofile,
        angular_sweep: 90_000,
        collimation: 90_000,
    };
    if t.reflectivity == 0 {
        seq![diffuse]
    } else if t.reflectivity == MICRO {
        seq![
            ChildReflection {
                diffuse: false,
                x: map_check_coords.0,
                y: map_check_coords.1,
                position_offset: (500_000int as i64, 0),
                face: face as i64,
                direction: sdir as i64,
                intensity_profile: sprofile,
                angular_sweep: beam_sweep,
                collimation: collimation,
            },
        ]
    } else {
        seq![
            diffuse,
            ChildReflection {
                diffuse: false,
                x: map_check_coords.0,
                y: map_check_coords.1,
                position_offset: (500_000int as i64, 0),
                face: face as i64,
                direction: sdir as i64,
                intensity_profile: sprofile,
                angular_sweep: beam_sweep,
                collimation: partial_collimation_spec(
                    collimation as int,
                    t.reflectivity as int,
                ) as i64,
            },
        ]
    }
}

/// Handle a ray striking an opaque, sight-blocking tile: propose a diffuse
/// bounce, a specular bounce, or both, depending on the tile's
/// reflectivity.
pub fn opaque_interaction(
    map: &WorldMap,
    map_check_coords: (i64, i64),
    field_ray_coords: (i64, i64),
    field_dist_step_comps: (i64, i64),
    ray_brightness: &Rgb,
    beam_sweep: i64,
    collimation: i64,
    brightness_tables: &BrightnessTables,
) -> (refl: Vec<ChildReflection>)
    requires
        map.wf(),
        brightness_tables.wf(),
        map.in_bounds(map_check_coords.0 as int, map_check_coords.1 as int),
        ray_brightness.valid(),
        0 <= beam_sweep <= 360_000,
        0 <= collimation <= 90_000,
        -4_000_000_000 <= field_ray_coords.0 <= 4_000_000_000,
        -4_000_000_000 <= field_ray_coords.1 <= 4_000_000_000,
        -4_000_000_000 <= field_dist_step_comps.0 <= 4_000_000_000,
        -4_000_000_000 <= field_dist_step_comps.1 <= 4_000_000_000,
    ensures
        forall|k: int| 0 <= k < refl.len() ==> (#[trigger] refl[k]).valid(),
        ({
            let t = map.tile_at(map_check_coords.0 as int, map_check_coords.1 as int);
            let face = collision_face_spec(
                sub_tile_spec(field_ray_coords.0 as int),
                sub_tile_spec(field_ray_coords.1 as int),
            );
            let dprofile = attenuate_spec(*ray_brightness, t.color, 1_000_000 - t.reflectivity);
            let sprofile = attenuate_spec(*ray_brightness, t.color, 1_000_000int);
            let sdir = reflect_direction_spec(
                face * 90_000,
                field_dist_step_comps.0 as int,
                field_dist_step_comps.1 as int,
            );
            let mx = map_check_coords.0 as int;
            let my = map_check_coords.1 as int;
            &&& (t.reflectivity == 0 ==> refl.len() == 1
                && diffuse_candidate_ok(refl[0], mx, my, face, dprofile))
            &&& (t.reflectivity == MICRO ==> refl.len() == 1
                && specular_candidate_ok(
                    refl[0],
                    mx,
                    my,
                    face,
                    sdir,
                    sprofile,
                    beam_sweep as int,
                    collimation as int,
                ))
            &&& (0 < t.reflectivity < MICRO ==> refl.len() == 2
                && diffuse_candidate_ok(refl[0], mx, my, face, dprofile)
                && specular_candidate_ok(
                    refl[1],
                    mx,
                    my,
                    face,
                    sdir,
                    sprofile,
                    beam_sweep as int,
                    partial_collimation_spec(collimation as int, t.reflectivity as int),
                ))
        }),
        refl@ == opaque_candidates_spec(
            *map,
            map_check_coords,
            (field_ray_coords.0 as int, field_ray_coords.1 as int),
            (field_dist_step_comps.0 as int, field_dist_step_comps.1 as int),
            *ray_brightness,
            beam_sweep,
            collimation,
        ),
{
    let mut refl: Vec<ChildReflection> = Vec::new();
    let tile = map.tile(map_check_coords.0, map_check_coords.1);
    let target_reflectivity = tile.reflectivity;
    let (face, face_dir) = determine_collision_face(field_ray_coords);
    if target_reflectivity == 0 {
        let profile = attenuate_ray(ray_brightness, &tile.color, MICRO - target_reflectivity);
        refl.push(ChildReflection::new(
            true,
            map_check_coords.0,
            map_check_coords.1,
            (500_000, 0),
            face,
            face_dir,
            profile,
            90_000,
            90_000,
        ));
    }
    if target_reflectivity == MICRO {
        let profile = attenuate_ray(ray_brightness, &tile.color, MICRO);
        let direction = reflect_direction(face_dir, field_dist_step_comps, brightness_tables);
        refl.push(ChildReflection::new(
            false,
            map_check_coords.0,
            map_check_coords.1,
            (500_000, 0),
            face,
            direction,
            profile,
            beam_sweep,
            collimation,
        ));
    }
    if 0 < target_reflectivity && target_reflectivity < MICRO {
        let dprofile = attenuate_ray(ray_brightness, &tile.color, MICRO - target_reflectivity);
        refl.push(ChildReflection::new(
            true,
            map_check_coords.0,
            map_check_coords.1,
            (500_000, 0),
            face,
            face_dir,
            dprofile,
            90_000,
            90_000,
        ));
        let sprofile = attenuate_ray(ray_brightness, &tile.color, MICRO);
        let direction = reflect_direction(face_dir, field_dist_step_comps, brightness_tables);
        proof {
            assert((1_000_000 - target_reflectivity) * (90_000 - collimation) <= u64::MAX)
                by (nonlinear_arith)
                requires 0 <= 1_000_000 - target_reflectivity <= 1_000_000
                    && 0 <= 90_000 - collimation <= 90_000;
            crate::fixed::lemma_mul_fp_mono_left(
                1_000_000 - target_reflectivity as int,
                1_000_000int,
                90_000 - collimation as int,
            );
            assert(mul_fp_spec(1_000_000int, 90_000 - collimation as int)
                == 90_000 - collimation as int);
        }
        let widened: u64 = mul_fp(MICRO - target_reflectivity, (90_000 - collimation) as u64);
        let new_collimation: i64 = collimation + widened as i64;
        refl.push(ChildReflection::new(
            false,
            map_check_coords.0,
            map_check_coords.1,
            (500_000, 0),
            face,
            direction,
            sprofile,
            beam_sweep,
            new_collimation,
        ));
    }
    proof {
        assert(refl@ =~= opaque_candidates_spec(
            *map,
            map_check_coords,
            (field_ray_coords.0 as int, field_ray_coords.1 as int),
            (field_dist_step_comps.0 as int, field_dist_step_comps.1 as int),
            *ray_brightness,
            beam_sweep,
            collimation,
        ));
    }
    refl
}

/// Handle a ray inside a transparent solid (a tile that blocks motion but
/// not sight): on entering the tile, filter the parent intensity once by
/// the tile's color.  Transparent surfaces spawn no reflections here, as in
/// this engine's configuration, and refraction is a documented
/// non-goal.
pub fn transparent_interaction(
    map: &WorldMap,
    map_check_coords: (i64, i64),
    field_ray_coords: (i64, i64),
    field_dist_step_comps: (i64, i64),
    parent_intensity: &mut Rgb,
)
    requires
        map.wf(),
        map.in_bounds(map_check_coords.0 as int, map_check_coords.1 as int),
        old(parent_intensity).valid(),
        -4_000_000_000 <= field_ray_coords.0 <= 4_000_000_000,
        -4_000_000_000 <= field_ray_coords.1 <= 4_000_000_000,
        -4_000_000_000 <= field_dist_step_comps.0 <= 4_000_000_000,
        -4_000_000_000 <= field_dist_step_comps.1 <= 4_000_000_000,
    ensures
        final(parent_intensity).valid(),
        final(parent_intensity).le(*old(parent_intensity)),
        ({
            let entered = trunc_tile_spec(
                field_ray_coords.0 - field_dist_step_comps.0,
            ) != trunc_tile_spec(field_ray_coords.0 as int) || trunc_tile_spec(
                field_ray_coords.1 - field_dist_step_comps.1,
            ) != trunc_tile_spec(field_ray_coords.1 as int);
            if entered {
                *final(parent_intensity) == attenuate_spec(
                    *old(parent_intensity),
                    map.tile_at(map_check_coords.0 as int, map_check_coords.1 as int).color,
                    1_000_000int,
                )
            } else {
                *final(parent_intensity) == *old(parent_intensity)
            }
        }),
{
    let prev_x = trunc_tile(field_ray_coords.0 - field_dist_step_comps.0);
    let prev_y = trunc_tile(field_ray_coords.1 - field_dist_step_comps.1);
    let here_x = trunc_tile(field_ray_coords.0);
    let here_y = trunc_tile(field_ray_coords.1);
    let entered = prev_x != here_x || prev_y != here_y;
    if entered {
        let tile = map.tile(map_check_coords.0, map_check_coords.1);
        let filtered = attenuate_ray(parent_intensity, &tile.color, MICRO);
        *parent_intensity = filtered;
    }
}

impl LightFieldObject {
    /// Whether a pass left the cell under a sight-blocking source tile
    /// untouched: a source embedded in a wall must not light its own
    /// housing.
    pub open spec fn source_cell_unchanged(
        pre: LightFieldObject,
        post: LightFieldObject,
        map: WorldMap,
        light: (int, int),
    ) -> bool {
        (pre.map_offset_start.0 <= light.0 <= pre.map_offset_end.0
            && pre.map_offset_start.1 <= light.1 <= pre.map_offset_end.1
            && map.in_bounds(light.0, light.1) && map.tile_at(light.0, light.1).block_sight)
            ==> post.at(
                light.0 - pre.map_offset_start.0,
                light.1 - pre.map_offset_start.1,
            ) == pre.at(light.0 - pre.map_offset_start.0, light.1 - pre.map_offset_start.1)
    }

    /// The state a ray walk threads: the field view, the candidates
    /// proposed so far, and the parent intensity (filtered when the ray
    /// crosses transparent solids).
    ///
    /// `ray_walk_spec` is the exact meaning of one ray: from the state
    /// after `i` of `n` steps it yields the final state.  Each step moves
    /// one twentieth of a tile, re-derives the ray brightness from the
    /// parent and the falloff table, and then either: dies at the kill
    /// floor; leaves the field or the map and stops; passes through the
    /// source's own sight-blocking tile unrecorded; lights a sight-blocking
    /// tile, proposes that collision's candidates and stops; lights an open
    /// tile and walks on; or lights a transparent solid, filters the parent
    /// on entry, and walks on.
    pub open spec fn ray_walk_spec(
        map: WorldMap,
        box_start: (int, int),
        box_end: (int, int),
        light: (int, int),
        sx: int,
        sy: int,
        start: (int, int),
        beam_sweep: i64,
        collimation: i64,
        t: BrightnessTables,
        st: (Seq<Seq<Rgb>>, Seq<ChildReflection>, Rgb),
        i: int,
        n: int,
    ) -> (Seq<Seq<Rgb>>, Seq<ChildReflection>, Rgb)
        decreases n - i,
    {
        if i >= n {
            st
        } else {
            let ii = i + 1;
            let rb = ray_brightness_spec(
                st.2,
                t.brightness_at(
                    coll_index_spec(collimation as int),
                    dist_index_spec(if ii < 20 { 20int } else { ii }),
                ),
            );
            if rb.r < RAY_KILL_FLOOR && rb.g < RAY_KILL_FLOOR && rb.b < RAY_KILL_FLOOR {
                st
            } else {
                let cx = start.0 + ii * sx;
                let cy = start.1 + ii * sy;
                let fx = trunc_tile_spec(cx);
                let fy = trunc_tile_spec(cy);
                let mx = fx + box_start.0;
                let my = fy + box_start.1;
                if fx < 0 || fx > box_end.0 - box_start.0 || fy < 0
                    || fy > box_end.1 - box_start.1 || mx < 0 || mx > map.width - 1 || my < 0
                    || my > map.height - 1 {
                    st
                } else {
                    let tile = map.tile_at(mx, my);
                    if tile.block_sight {
                        if mx == light.0 && my == light.1 {
                            LightFieldObject::ray_walk_spec(
                                map, box_start, box_end, light, sx, sy, start, beam_sweep,
                                collimation, t, st, ii, n,
                            )
                        } else {
                            (
                                LightFieldObject::view_write(st.0, fx, fy, rb),
                                st.1 + opaque_candidates_spec(
                                    map,
                                    (mx as i64, my as i64),
                                    (cx, cy),
                                    (sx, sy),
                                    rb,
                                    beam_sweep,
                                    collimation,
                                ),
                                st.2,
                            )
                        }
                    } else if !tile.blocked {
                        LightFieldObject::ray_walk_spec(
                            map, box_start, box_end, light, sx, sy, start, beam_sweep,
                            collimation, t,
                            (LightFieldObject::view_write(st.0, fx, fy, rb), st.1, st.2), ii, n,
                        )
                    } else {
                        let entered = trunc_tile_spec(cx - sx) != trunc_tile_spec(cx)
                            || trunc_tile_spec(cy - sy) != trunc_tile_spec(cy);
                        let parent2 = if entered {
                            attenuate_spec(st.2, tile.color, 1_000_000int)
                        } else {
                            st.2
                        };
                        LightFieldObject::ray_walk_spec(
                            map, box_start, box_end, light, sx, sy, start, beam_sweep,
                            collimation, t,
                            (LightFieldObject::view_write(st.0, fx, fy, rb), st.1, parent2), ii,
                            n,
                        )
                    }
                }
            }
        }
    }

    /// Walk a single ray from the source toward a target in fixed steps,
    /// exactly as `ray_walk_spec` describes: open tiles are max-blend lit
    /// and passed, transparent solids are lit and filter the ray,
    /// sight-blocking tiles are lit and stop the ray, proposing candidate
    /// reflections — except the source's own tile, which is never lit by
    /// its own rays.  Rays die when all channels fall below the kill floor
    /// or when they leave the field or the map.
    #[verifier::loop_isolation(false)]
    #[verifier::rlimit(100)]
    pub fn cast_ray(
        &mut self,
        map: &WorldMap,
        map_light_coords: (i64, i64),
        field_dist_increments: i64,
        field_dist_step_comps: (i64, i64),
        field_start_coords: (i64, i64),
        intensity_profile: &Rgb,
        beam_sweep: i64,
        collimation: i64,
        brightness_tables: &BrightnessTables,
    ) -> (candidates: Vec<ChildReflection>)
        requires
            old(self).wf(),
            map.wf(),
            brightness_tables.wf(),
            old(self).map_offset_end.0 < map.width,
            old(self).map_offset_end.1 < map.height,
            intensity_profile.valid(),
            0 <= beam_sweep <= 360_000,
            0 <= collimation <= 90_000,
            0 <= field_dist_increments <= 100_000,
            -1_100_000_000 <= field_start_coords.0 <= 1_100_000_000,
            -1_100_000_000 <= field_start_coords.1 <= 1_100_000_000,
            -2_200_000_000 <= field_dist_increments * field_dist_step_comps.0 <= 2_200_000_000,
            -2_200_000_000 <= field_dist_increments * field_dist_step_comps.1 <= 2_200_000_000,
            -2_200_000_000 <= field_dist_step_comps.0 <= 2_200_000_000,
            -2_200_000_000 <= field_dist_step_comps.1 <= 2_200_000_000,
        ensures
            final(self).wf(),
            final(self).same_box(*old(self)),
            final(self).covers(*old(self)),
            LightFieldObject::source_cell_unchanged(
                *old(self),
                *final(self),
                *map,
                (map_light_coords.0 as int, map_light_coords.1 as int),
            ),
            forall|k: int| 0 <= k < candidates.len() ==> (#[trigger] candidates[k]).valid(),
            ({
                let walk = LightFieldObject::ray_walk_spec(
                    *map,
                    (old(self).map_offset_start.0 as int, old(self).map_offset_start.1 as int),
                    (old(self).map_offset_end.0 as int, old(self).map_offset_end.1 as int),
                    (map_light_coords.0 as int, map_light_coords.1 as int),
                    field_dist_step_comps.0 as int,
                    field_dist_step_comps.1 as int,
                    (field_start_coords.0 as int, field_start_coords.1 as int),
                    beam_sweep,
                    collimation,
                    *brightness_tables,
                    (old(self).view(), Seq::<ChildReflection>::empty(), *intensity_profile),
                    0,
                    field_dist_increments as int,
                );
                final(self).view() == walk.0 && candidates@ == walk.1
            }),
    {
        let ghost light = (map_light_coords.0 as int, map_light_coords.1 as int);
        let ghost bs = (self.map_offset_start.0 as int, self.map_offset_start.1 as int);
        let ghost be = (self.map_offset_end.0 as int, self.map_offset_end.1 as int);
        let ghost n = field_dist_increments as int;
        let ghost start = (field_start_coords.0 as int, field_start_coords.1 as int);
        let mut candidates: Vec<ChildReflection> = Vec::new();
        let mut parent: Rgb = *intensity_profile;
        let mut cx: i64 = field_start_coords.0;
        let mut cy: i64 = field_start_coords.1;
        let mut dist_steps: u64 = 0;
        let mut i: i64 = 0;
        let mut done: bool = false;
        let sx = field_dist_step_comps.0;
        let sy = field_dist_step_comps.1;
        let ghost full = LightFieldObject::ray_walk_spec(
            *map, bs, be, light, sx as int, sy as int, start, beam_sweep, collimation,
            *brightness_tables,
            (old(self).view(), Seq::<ChildReflection>::empty(), *intensity_profile), 0, n,
        );
        while !done && i < field_dist_increments
            invariant
                0 <= i <= field_dist_increments,
                dist_steps == i,
                cx == field_start_coords.0 + i * sx,
                cy == field_start_coords.1 + i * sy,
                -3_300_000_000 <= cx <= 3_300_000_000,
                -3_300_000_000 <= cy <= 3_300_000_000,
                parent.valid(),
                self.wf(),
                self.same_box(*old(self)),
                self.covers(*old(self)),
                LightFieldObject::source_cell_unchanged(*old(self), *self, *map, light),
                forall|k: int| 0 <= k < candidates.len() ==> (#[trigger] candidates[k]).valid(),
                full == if done {
                    (self.view(), candidates@, parent)
                } else {
                    LightFieldObject::ray_walk_spec(
                        *map, bs, be, light, sx as int, sy as int, start, beam_sweep,
                        collimation, *brightness_tables, (self.view(), candidates@, parent),
                        i as int, n,
                    )
                },
            decreases field_dist_increments - i + if done { 0int } else { 1int },
        {
            proof {
                assert(-2_200_000_000 <= (i + 1) * sx <= 2_200_000_000) by (nonlinear_arith)
                    requires
                        0 <= i + 1 <= field_dist_increments,
                        -2_200_000_000 <= field_dist_increments * sx <= 2_200_000_000,
                        -2_200_000_000 <= sx <= 2_200_000_000;
                assert(-2_200_000_000 <= (i + 1) * sy <= 2_200_000_000) by (nonlinear_arith)
                    requires
                        0 <= i + 1 <= field_dist_increments,
                        -2_200_000_000 <= field_dist_increments * sy <= 2_200_000_000,
                        -2_200_000_000 <= sy <= 2_200_000_000;
                assert((i + 1) * sx == i * sx + sx) by (nonlinear_arith);
                assert((i + 1) * sy == i * sy + sy) by (nonlinear_arith);
            }
            let ghost st0 = (self.view(), candidates@, parent);
            let ghost i0 = i as int;
            i += 1;
            cx = cx + sx;
            cy = cy + sy;
            dist_steps += 1;

            let ray_brightness = determine_ray_brightness(
                dist_steps,
                &parent,
                collimation,
                brightness_tables,
            );
            if ray_brightness.r < RAY_KILL_FLOOR && ray_brightness.g < RAY_KILL_FLOOR
                && ray_brightness.b < RAY_KILL_FLOOR {
                done = true;
            } else {
                let fx = trunc_tile(cx);
                let fy = trunc_tile(cy);
                let mx = fx + self.map_offset_start.0;
                let my = fy + self.map_offset_start.1;
                if fx < 0 || fx > self.map_offset_end.0 - self.map_offset_start.0 || fy < 0
                    || fy > self.map_offset_end.1 - self.map_offset_start.1 || mx < 0
                    || mx > map.width as i64 - 1 || my < 0 || my > map.height as i64 - 1 {
                    done = true;
                } else {
                    let tile = map.tile(mx, my);
                    if tile.block_sight {
                        if !(mx == map_light_coords.0 && my == map_light_coords.1) {
                            self.overwrite_tile(&ray_brightness, (fx, fy));
                            let refl = opaque_interaction(
                                map,
                                (mx, my),
                                (cx, cy),
                                (sx, sy),
                                &ray_brightness,
                                beam_sweep,
                                collimation,
                                brightness_tables,
                            );
                            let ghost c0 = candidates@;
                            let mut k: usize = 0;
                            while k < refl.len()
                                invariant
                                    k <= refl.len(),
                                    candidates@ == c0 + refl@.take(k as int),
                                    forall|q: int|
                                        0 <= q < candidates.len()
                                            ==> (#[trigger] candidates[q]).valid(),
                                    forall|q: int|
                                        0 <= q < refl.len() ==> (#[trigger] refl[q]).valid(),
                                decreases refl.len() - k,
                            {
                                proof {
                                    assert(refl@.take(k + 1) =~= refl@.take(k as int).push(
                                        refl@[k as int],
                                    ));
                                    assert((c0 + refl@.take(k as int)).push(refl@[k as int]) =~= c0
                                        + refl@.take(k as int).push(refl@[k as int]));
                                }
                                candidates.push(refl[k]);
                                k += 1;
                            }
                            proof {
                                assert(refl@.take(refl@.len() as int) =~= refl@);
                                assert(candidates@ =~= c0 + refl@);
                            }
                            done = true;
                        }
                    } else if !tile.blocked {
                        self.overwrite_tile(&ray_brightness, (fx, fy));
                    } else {
                        self.overwrite_tile(&ray_brightness, (fx, fy));
                        transparent_interaction(map, (mx, my), (cx, cy), (sx, sy), &mut parent);
                    }
                }
            }
        }
        candidates
    }

    /// The meaning of a full pass: the single-ray walks folded over the
    /// target list from index `k` on.  A target is cast at exactly when its
    /// alpha angle lies inside the emission cone; each cast ray starts from
    /// the source's field position with the full source intensity, walks
    /// `distance / step` increments along the truncated per-step
    /// components, and contributes its candidates in order.
    pub open spec fn raycast_fold_spec(
        map: WorldMap,
        box_start: (int, int),
        box_end: (int, int),
        light: (int, int),
        flc: (int, int),
        direction: i64,
        beam_sweep: i64,
        intensity: Rgb,
        collimation: i64,
        t: BrightnessTables,
        targets: Seq<(i64, i64)>,
        st: (Seq<Seq<Rgb>>, Seq<ChildReflection>),
        k: int,
    ) -> (Seq<Seq<Rgb>>, Seq<ChildReflection>)
        decreases targets.len() - k,
    {
        if k < 0 || k >= targets.len() {
            st
        } else {
            let dx = targets[k].0 - box_start.0 * 1_000_000 - flc.0;
            let dy = targets[k].1 - box_start.1 * 1_000_000 - flc.1;
            let alpha = alpha_angle_spec(dx, dy, direction as int);
            if !(alpha <= beam_sweep || alpha >= 360_000 - beam_sweep) {
                LightFieldObject::raycast_fold_spec(
                    map, box_start, box_end, light, flc, direction, beam_sweep, intensity,
                    collimation, t, targets, st, k + 1,
                )
            } else {
                let inc = isqrt_spec(dx * dx + dy * dy) / (STEP_MICRO as int);
                if inc <= 0 {
                    LightFieldObject::raycast_fold_spec(
                        map, box_start, box_end, light, flc, direction, beam_sweep, intensity,
                        collimation, t, targets, st, k + 1,
                    )
                } else {
                    let out = LightFieldObject::ray_walk_spec(
                        map,
                        box_start,
                        box_end,
                        light,
                        sdiv_spec(dx, inc),
                        sdiv_spec(dy, inc),
                        flc,
                        beam_sweep,
                        collimation,
                        t,
                        (st.0, Seq::<ChildReflection>::empty(), intensity),
                        0,
                        inc,
                    );
                    LightFieldObject::raycast_fold_spec(
                        map, box_start, box_end, light, flc, direction, beam_sweep, intensity,
                        collimation, t, targets, (out.0, st.1 + out.1), k + 1,
                    )
                }
            }
        }
    }

    /// Cast one ray per perimeter target that falls inside the emission
    /// cone, exactly as `raycast_fold_spec` describes, collecting every
    /// candidate reflection the rays propose.  The field only ever
    /// brightens, and a sight-blocking source tile is never lit by its own
    /// rays.
    #[verifier::loop_isolation(false)]
    #[verifier::rlimit(100)]
    pub fn raycast(
        &mut self,
        map: &WorldMap,
        map_targets_list: &Vec<(i64, i64)>,
        map_light_coords: (i64, i64),
        field_light_coords: (i64, i64),
        direction: i64,
        beam_sweep: i64,
        intensity_profile: &Rgb,
        collimation: i64,
        brightness_tables: &BrightnessTables,
    ) -> (candidates: Vec<ChildReflection>)
        requires
            old(self).wf(),
            map.wf(),
            brightness_tables.wf(),
            old(self).map_offset_end.0 < map.width,
            old(self).map_offset_end.1 < map.height,
            intensity_profile.valid(),
            0 <= beam_sweep <= 360_000,
            0 <= collimation <= 90_000,
            0 <= direction < 360_000,
            forall|k: int|
                0 <= k < map_targets_list.len() ==> {
                    &&& 0 <= (#[trigger] map_targets_list[k]).0 <= 1_024_000_000
                    &&& 0 <= map_targets_list[k].1 <= 1_024_000_000
                },
            -1_100_000_000 <= field_light_coords.0 <= 1_100_000_000,
            -1_100_000_000 <= field_light_coords.1 <= 1_100_000_000,
        ensures
            final(self).wf(),
            final(self).same_box(*old(self)),
            final(self).covers(*old(self)),
            LightFieldObject::source_cell_unchanged(
                *old(self),
                *final(self),
                *map,
                (map_light_coords.0 as int, map_light_coords.1 as int),
            ),
            forall|k: int| 0 <= k < candidates.len() ==> (#[trigger] candidates[k]).valid(),
            ({
                let fold = LightFieldObject::raycast_fold_spec(
                    *map,
                    (old(self).map_offset_start.0 as int, old(self).map_offset_start.1 as int),
                    (old(self).map_offset_end.0 as int, old(self).map_offset_end.1 as int),
                    (map_light_coords.0 as int, map_light_coords.1 as int),
                    (field_light_coords.0 as int, field_light_coords.1 as int),
                    direction,
                    beam_sweep,
                    *intensity_profile,
                    collimation,
                    *brightness_tables,
                    map_targets_list@,
                    (old(self).view(), Seq::<ChildReflection>::empty()),
                    0,
                );
                final(self).view() == fold.0 && candidates@ == fold.1
            }),
    {
        let ghost light = (map_light_coords.0 as int, map_light_coords.1 as int);
        let ghost bs = (self.map_offset_start.0 as int, self.map_offset_start.1 as int);
        let ghost be = (self.map_offset_end.0 as int, self.map_offset_end.1 as int);
        let ghost flc = (field_light_coords.0 as int, field_light_coords.1 as int);
        let ghost fold = LightFieldObject::raycast_fold_spec(
            *map, bs, be, light, flc, direction, beam_sweep, *intensity_profile, collimation,
            *brightness_tables, map_targets_list@,
            (old(self).view(), Seq::<ChildReflection>::empty()), 0,
        );
        let mut candidates: Vec<ChildReflection> = Vec::new();
        let mut t: usize = 0;
        while t < map_targets_list.len()
            invariant
                t <= map_targets_list.len(),
                self.wf(),
                self.same_box(*old(self)),
                self.covers(*old(self)),
                LightFieldObject::source_cell_unchanged(*old(self), *self, *map, light),
                forall|k: int| 0 <= k < candidates.len() ==> (#[trigger] candidates[k]).valid(),
                fold == LightFieldObject::raycast_fold_spec(
                    *map, bs, be, light, flc, direction, beam_sweep, *intensity_profile,
                    collimation, *brightness_tables, map_targets_list@,
                    (self.view(), candidates@), t as int,
                ),
            decreases map_targets_list.len() - t,
        {
            let target = map_targets_list[t];
            let field_target_x: i64 = target.0 - self.map_offset_start.0 * 1_000_000;
            let field_target_y: i64 = target.1 - self.map_offset_start.1 * 1_000_000;
            let dx: i64 = field_target_x - field_light_coords.0;
            let dy: i64 = field_target_y - field_light_coords.1;
            assert(-2_200_000_000 <= dx <= 2_200_000_000);
            assert(-2_200_000_000 <= dy <= 2_200_000_000);

            let alpha = determine_alpha_angle((dx, dy), direction, brightness_tables);
            if alpha <= beam_sweep || alpha >= 360_000 - beam_sweep {
                proof {
                    assert(0 <= dx * dx <= 4_840_000_000_000_000_000int) by (nonlinear_arith)
                        requires -2_200_000_000 <= dx <= 2_200_000_000;
                    assert(0 <= dy * dy <= 4_840_000_000_000_000_000int) by (nonlinear_arith)
                        requires -2_200_000_000 <= dy <= 2_200_000_000;
                }
                let sq: u64 = (dx * dx) as u64 + (dy * dy) as u64;
                let dist: u64 = isqrt(sq);
                assert(dist <= 3_120_000_000) by (nonlinear_arith)
                    requires
                        dist * dist <= 9_680_000_000_000_000_000u64,
                        dist <= u64::MAX;
                let increments: i64 = (dist / STEP_MICRO) as i64;
                if increments > 0 {
                    let adx: i64 = if dx < 0 { -dx } else { dx };
                    let ady: i64 = if dy < 0 { -dy } else { dy };
                    let sx: i64 = sdiv(dx, increments);
                    let sy: i64 = sdiv(dy, increments);
                    proof {
                        vstd::arithmetic::div_mod::lemma_fundamental_div_mod(
                            adx as int,
                            increments as int,
                        );
                        vstd::arithmetic::div_mod::lemma_fundamental_div_mod(
                            ady as int,
                            increments as int,
                        );
                        vstd::arithmetic::div_mod::lemma_mod_bound(adx as int, increments as int);
                        vstd::arithmetic::div_mod::lemma_mod_bound(ady as int, increments as int);
                        assert(increments * (adx as int / increments as int) <= adx);
                        assert(increments * (ady as int / increments as int) <= ady);
                        assert(0 <= adx as int / increments as int <= adx) by (nonlinear_arith)
                            requires adx >= 0 && increments >= 1;
                        assert(0 <= ady as int / increments as int <= ady) by (nonlinear_arith)
                            requires ady >= 0 && increments >= 1;
                        if dx >= 0 {
                            assert(sx == adx as int / increments as int);
                        } else {
                            assert(sx == -(adx as int / increments as int));
                        }
                        if dy >= 0 {
                            assert(sy == ady as int / increments as int);
                        } else {
                            assert(sy == -(ady as int / increments as int));
                        }
                        assert(-2_200_000_000 <= increments * sx <= 2_200_000_000)
                            by (nonlinear_arith)
                            requires
                                increments >= 1,
                                adx <= 2_200_000_000,
                                increments * (adx as int / increments as int) <= adx,
                                0 <= adx as int / increments as int,
                                sx == adx as int / increments as int
                                    || sx == -(adx as int / increments as int);
                        assert(-2_200_000_000 <= increments * sy <= 2_200_000_000)
                            by (nonlinear_arith)
                            requires
                                increments >= 1,
                                ady <= 2_200_000_000,
                                increments * (ady as int / increments as int) <= ady,
                                0 <= ady as int / increments as int,
                                sy == ady as int / increments as int
                                    || sy == -(ady as int / increments as int);
                    }
                    let ghost prev = *self;
                    let refl = self.cast_ray(
                        map,
                        map_light_coords,
                        increments,
                        (sx, sy),
                        field_light_coords,
                        intensity_profile,
                        beam_sweep,
                        collimation,
                        brightness_tables,
                    );
                    proof {
                        assert forall|a: int, b: int|
                            0 <= a < old(self).field_w() && 0 <= b < old(self).field_h()
                            implies (#[trigger] old(self).at(a, b)).le(self.at(a, b)) by {
                            assert(old(self).at(a, b).le(prev.at(a, b)));
                            assert(prev.at(a, b).le(self.at(a, b)));
                        }
                    }
                    let ghost c0 = candidates@;
                    let mut k: usize = 0;
                    while k < refl.len()
                        invariant
                            k <= refl.len(),
                            candidates@ == c0 + refl@.take(k as int),
                            forall|q: int|
                                0 <= q < candidates.len() ==> (#[trigger] candidates[q]).valid(),
                            forall|q: int| 0 <= q < refl.len() ==> (#[trigger] refl[q]).valid(),
                        decreases refl.len() - k,
                    {
                        proof {
                            assert(refl@.take(k + 1) =~= refl@.take(k as int).push(
                                refl@[k as int],
                            ));
                            assert((c0 + refl@.take(k as int)).push(refl@[k as int]) =~= c0
                                + refl@.take(k as int).push(refl@[k as int]));
                        }
                        candidates.push(refl[k]);
                        k += 1;
                    }
                    proof {
                        assert(refl@.take(refl@.len() as int) =~= refl@);
                        assert(candidates@ =~= c0 + refl@);
                    }
                }
            }
            t += 1;
        }
        candidates
    }

    /// The perimeter target list as a sequence.
    pub open spec fn perimeter_targets_spec(s0: int, e0: int, s1: int, e1: int, f: int) -> Seq<
        (i64, i64),
    > {
        Seq::new(
            LightFieldObject::perimeter_count_spec(s0, e0, s1, e1, f) as nat,
            |k: int|
                (
                    LightFieldObject::perimeter_target_spec(s0, e0, s1, e1, f, k).0 as i64,
                    LightFieldObject::perimeter_target_spec(s0, e0, s1, e1, f, k).1 as i64,
                ),
        )
    }

    /// A zeroed field view covering a bounding box.
    pub open spec fn zeroed_view_spec(box_start: (int, int), box_end: (int, int)) -> Seq<
        Seq<Rgb>,
    > {
        Seq::new(
            (box_end.0 - box_start.0 + 1) as nat,
            |i: int| Seq::new((box_end.1 - box_start.1 + 1) as nat, |j: int| Rgb { r: 0, g: 0, b: 0 }),
        )
    }

    /// The meaning of a whole primary pass over a given bounding box: the
    /// source's sub-tile offset rotated to its facing fixes the emission
    /// point, and the ray fold runs over the box's perimeter targets,
    /// starting from a zeroed field.
    pub open spec fn primary_pass_spec(
        map: WorldMap,
        box_start: (int, int),
        box_end: (int, int),
        pos: (i64, i64),
        float_offset: (i64, i64),
        intensity: Rgb,
        direction: i64,
        angular_sweep: i64,
        collimation: i64,
        t: BrightnessTables,
        raycast_fineness: i64,
    ) -> (Seq<Seq<Rgb>>, Seq<ChildReflection>) {
        let off = rotate_offset_spec(
            float_offset.0 as int,
            float_offset.1 as int,
            direction as int,
        );
        let flc = (
            (pos.0 - box_start.0) * 1_000_000 + 500_000 + off.0,
            (pos.1 - box_start.1) * 1_000_000 + 500_000 + off.1,
        );
        LightFieldObject::raycast_fold_spec(
            map,
            box_start,
            box_end,
            (pos.0 as int, pos.1 as int),
            flc,
            direction,
            angular_sweep,
            intensity,
            collimation,
            t,
            LightFieldObject::perimeter_targets_spec(
                box_start.0,
                box_end.0,
                box_start.1,
                box_end.1,
                raycast_fineness as int,
            ),
            (LightFieldObject::zeroed_view_spec(box_start, box_end), Seq::<
                ChildReflection,
            >::empty()),
            0,
        )
    }

    /// The primary pass of a light-field recomputation: size and zero the
    /// field for the source's intensity, rotate its sub-tile offset to its
    /// facing, sample the perimeter, and cast the primary rays.  Returns
    /// the unfiltered candidate reflections.  A sight-blocking source tile
    /// ends the pass with zero stored irradiance.
    pub fn recalculate_primary(
        &mut self,
        map: &WorldMap,
        pos_x: i64,
        pos_y: i64,
        float_offset: (i64, i64),
        intensity_profile: &Rgb,
        direction: i64,
        angular_sweep: i64,
        collimation: i64,
        brightness_tables: &BrightnessTables,
        raycast_fineness: i64,
    ) -> (candidates: Vec<ChildReflection>)
        requires
            map.wf(),
            brightness_tables.wf(),
            map.in_bounds(pos_x as int, pos_y as int),
            intensity_profile.valid(),
            -1_000_000 <= float_offset.0 <= 1_000_000,
            -1_000_000 <= float_offset.1 <= 1_000_000,
            0 <= direction < 360_000,
            0 <= angular_sweep <= 360_000,
            0 <= collimation <= 90_000,
            1 <= raycast_fineness <= 20,
        ensures
            final(self).wf(),
            final(self).map_offset_end.0 < map.width,
            final(self).map_offset_end.1 < map.height,
            final(self).map_offset_start.0 <= pos_x <= final(self).map_offset_end.0,
            final(self).map_offset_start.1 <= pos_y <= final(self).map_offset_end.1,
            map.tile_at(pos_x as int, pos_y as int).block_sight ==> final(self).at(
                pos_x - final(self).map_offset_start.0,
                pos_y - final(self).map_offset_start.1,
            ).is_zero(),
            forall|k: int| 0 <= k < candidates.len() ==> (#[trigger] candidates[k]).valid(),
            ({
                let pass = LightFieldObject::primary_pass_spec(
                    *map,
                    (final(self).map_offset_start.0 as int, final(self).map_offset_start.1 as int),
                    (final(self).map_offset_end.0 as int, final(self).map_offset_end.1 as int),
                    (pos_x, pos_y),
                    float_offset,
                    *intensity_profile,
                    direction,
                    angular_sweep,
                    collimation,
                    *brightness_tables,
                    raycast_fineness,
                );
                final(self).view() == pass.0 && candidates@ == pass.1
            }),
    {
        let dims = Self::determine_light_field_dimensions(
            map,
            (pos_x, pos_y),
            intensity_profile,
            brightness_tables,
            collimation,
        );
        self.map_offset_start = dims.0;
        self.map_offset_end = dims.1;
        self.light_field = dims.2;
        let ghost bs = (self.map_offset_start.0 as int, self.map_offset_start.1 as int);
        let ghost be = (self.map_offset_end.0 as int, self.map_offset_end.1 as int);
        proof {
            assert forall|a: int| 0 <= a < self.view().len()
                implies #[trigger] self.view()[a] =~= LightFieldObject::zeroed_view_spec(
                bs,
                be,
            )[a] by {
                assert forall|b: int| 0 <= b < self.view()[a].len()
                    implies #[trigger] self.view()[a][b] == (Rgb { r: 0, g: 0, b: 0 }) by {
                    assert(self.light_field@[a]@[b].is_zero());
                }
            }
            assert(self.view() =~~= LightFieldObject::zeroed_view_spec(bs, be));
        }

        let pos_offset = rotate_float_offset(float_offset, direction);
        let field_light_coords: (i64, i64) = (
            (pos_x - self.map_offset_start.0) * 1_000_000 + 500_000 + pos_offset.0,
            (pos_y - self.map_offset_start.1) * 1_000_000 + 500_000 + pos_offset.1,
        );
        let targets = Self::locate_perimeter_targets(
            self.map_offset_start,
            self.map_offset_end,
            raycast_fineness,
        );
        proof {
            let spec_targets = LightFieldObject::perimeter_targets_spec(
                bs.0,
                be.0,
                bs.1,
                be.1,
                raycast_fineness as int,
            );
            assert forall|k: int| 0 <= k < targets@.len()
                implies #[trigger] targets@[k] == spec_targets[k] by {
                assert(((targets@[k]).0 as int, targets@[k].1 as int)
                    == LightFieldObject::perimeter_target_spec(
                    bs.0,
                    be.0,
                    bs.1,
                    be.1,
                    raycast_fineness as int,
                    k,
                ));
            }
            assert(targets@ =~= spec_targets);
        }
        let ghost zeroed = *self;
        let candidates = self.raycast(
            map,
            &targets,
            (pos_x, pos_y),
            field_light_coords,
            direction,
            angular_sweep,
            intensity_profile,
            collimation,
            brightness_tables,
        );
        proof {
            if map.tile_at(pos_x as int, pos_y as int).block_sight {
                assert(self.at(
                    pos_x - self.map_offset_start.0,
                    pos_y - self.map_offset_start.1,
                ) == zeroed.at(
                    pos_x - zeroed.map_offset_start.0,
                    pos_y - zeroed.map_offset_start.1,
                ));
            }
        }
        candidates
    }

    /// One filtered reflection cast back into the parent's field as a
    /// virtual light source: skipped when it lies outside the map; else its
    /// own table-derived bounding box supplies the perimeter targets, its
    /// sub-tile offset (rotated to its leaving direction when diffuse)
    /// fixes its emission point, and its rays run in the parent's box.
    /// The candidates it proposes are appended, capped at one million.
    pub open spec fn reflection_ray_out_spec(
        map: WorldMap,
        parent_start: (int, int),
        parent_end: (int, int),
        t: BrightnessTables,
        raycast_fineness: i64,
        field: Seq<Seq<Rgb>>,
        r: ChildReflection,
    ) -> (Seq<Seq<Rgb>>, Seq<ChildReflection>) {
        let off = if !r.diffuse {
            (r.position_offset.0 as int, r.position_offset.1 as int)
        } else {
            rotate_offset_spec(
                r.position_offset.0 as int,
                r.position_offset.1 as int,
                r.direction as int,
            )
        };
        let flc = (
            (r.x - parent_start.0) * 1_000_000 + 500_000 + off.0,
            (r.y - parent_start.1) * 1_000_000 + 500_000 + off.1,
        );
        let rad = t.radius_at(
            coll_index_spec(r.collimation as int),
            bright_index_spec(r.intensity_profile.max_channel_spec()),
        ) / 20 + 2;
        let rs = (
            if r.x - rad < 0 { 0int } else { r.x - rad },
            if r.y - rad < 0 { 0int } else { r.y - rad },
        );
        let re = (
            if r.x + rad > map.width - 1 { map.width as int - 1 } else { r.x + rad },
            if r.y + rad > map.height - 1 { map.height as int - 1 } else { r.y + rad },
        );
        LightFieldObject::raycast_fold_spec(
            map,
            parent_start,
            parent_end,
            (r.x as int, r.y as int),
            flc,
            r.direction,
            r.angular_sweep,
            r.intensity_profile,
            r.collimation,
            t,
            LightFieldObject::perimeter_targets_spec(
                rs.0,
                re.0,
                rs.1,
                re.1,
                raycast_fineness as int,
            ),
            (field, Seq::<ChildReflection>::empty()),
            0,
        )
    }

    pub open spec fn reflection_cast_spec(
        map: WorldMap,
        parent_start: (int, int),
        parent_end: (int, int),
        t: BrightnessTables,
        raycast_fineness: i64,
        st: (Seq<Seq<Rgb>>, Seq<ChildReflection>),
        r: ChildReflection,
    ) -> (Seq<Seq<Rgb>>, Seq<ChildReflection>) {
        if !(r.x < map.width && r.y < map.height) {
            st
        } else {
            let out = LightFieldObject::reflection_ray_out_spec(
                map, parent_start, parent_end, t, raycast_fineness, st.0, r,
            );
            let total = st.1.len() + out.1.len();
            (
                out.0,
                (st.1 + out.1).take(if total > 1_000_000 { 1_000_000int } else { total as int }),
            )
        }
    }

    /// Cast one filtered reflection as a virtual light source into this
    /// field, exactly as `reflection_ray_out_spec` describes, returning
    /// the candidates its rays propose.
    #[verifier::loop_isolation(false)]
    #[verifier::rlimit(100)]
    fn cast_one_reflection(
        &mut self,
        map: &WorldMap,
        reflection: ChildReflection,
        brightness_tables: &BrightnessTables,
        raycast_fineness: i64,
    ) -> (child: Vec<ChildReflection>)
        requires
            old(self).wf(),
            map.wf(),
            brightness_tables.wf(),
            old(self).map_offset_end.0 < map.width,
            old(self).map_offset_end.1 < map.height,
            reflection.valid(),
            reflection.x < map.width,
            reflection.y < map.height,
            1 <= raycast_fineness <= 20,
        ensures
            final(self).wf(),
            final(self).same_box(*old(self)),
            final(self).covers(*old(self)),
            forall|k: int| 0 <= k < child.len() ==> (#[trigger] child[k]).valid(),
            ({
                let out = LightFieldObject::reflection_ray_out_spec(
                    *map,
                    (old(self).map_offset_start.0 as int, old(self).map_offset_start.1 as int),
                    (old(self).map_offset_end.0 as int, old(self).map_offset_end.1 as int),
                    *brightness_tables,
                    raycast_fineness,
                    old(self).view(),
                    reflection,
                );
                final(self).view() == out.0 && child@ == out.1
            }),
    {
        // A specular reflection already carries the offset chosen at
        // filtering time; a diffuse one gets its default offset rotated to
        // its leaving direction.
        let r_pos_offset: (i64, i64) = if !reflection.diffuse {
            reflection.position_offset
        } else {
            rotate_float_offset(reflection.position_offset, reflection.direction)
        };
        let r_field_light_coords: (i64, i64) = (
            (reflection.x - self.map_offset_start.0) * 1_000_000 + 500_000 + r_pos_offset.0,
            (reflection.y - self.map_offset_start.1) * 1_000_000 + 500_000 + r_pos_offset.1,
        );
        let r_dims = Self::determine_light_field_dimensions(
            map,
            (reflection.x, reflection.y),
            &reflection.intensity_profile,
            brightness_tables,
            reflection.collimation,
        );
        let r_targets = Self::locate_perimeter_targets(r_dims.0, r_dims.1, raycast_fineness);
        proof {
            let spec_targets = LightFieldObject::perimeter_targets_spec(
                r_dims.0.0 as int,
                r_dims.1.0 as int,
                r_dims.0.1 as int,
                r_dims.1.1 as int,
                raycast_fineness as int,
            );
            assert forall|k: int| 0 <= k < r_targets@.len()
                implies #[trigger] r_targets@[k] == spec_targets[k] by {
                assert(((r_targets@[k]).0 as int, r_targets@[k].1 as int)
                    == LightFieldObject::perimeter_target_spec(
                    r_dims.0.0 as int,
                    r_dims.1.0 as int,
                    r_dims.0.1 as int,
                    r_dims.1.1 as int,
                    raycast_fineness as int,
                    k,
                ));
            }
            assert(r_targets@ =~= spec_targets);
        }
        self.raycast(
            map,
            &r_targets,
            (reflection.x, reflection.y),
            r_field_light_coords,
            reflection.direction,
            reflection.angular_sweep,
            &reflection.intensity_profile,
            reflection.collimation,
            brightness_tables,
        )
    }

    /// One whole reflection level: every filtered reflection from index
    /// `ri` on cast in turn.
    pub open spec fn reflections_level_spec(
        map: WorldMap,
        parent_start: (int, int),
        parent_end: (int, int),
        t: BrightnessTables,
        raycast_fineness: i64,
        st: (Seq<Seq<Rgb>>, Seq<ChildReflection>),
        refls: Seq<ChildReflection>,
        ri: int,
    ) -> (Seq<Seq<Rgb>>, Seq<ChildReflection>)
        decreases refls.len() - ri,
    {
        if ri < 0 || ri >= refls.len() {
            st
        } else {
            LightFieldObject::reflections_level_spec(
                map,
                parent_start,
                parent_end,
                t,
                raycast_fineness,
                LightFieldObject::reflection_cast_spec(
                    map, parent_start, parent_end, t, raycast_fineness, st, refls[ri],
                ),
                refls,
                ri + 1,
            )
        }
    }

    /// The whole reflection cascade from level `level` on: each round
    /// filters the pending candidates into one source per group, casts
    /// them all, and carries the newly proposed candidates to the next
    /// round; a round with no candidates changes nothing.
    pub open spec fn cascade_spec(
        map: WorldMap,
        parent_start: (int, int),
        parent_end: (int, int),
        t: BrightnessTables,
        raycast_fineness: i64,
        field: Seq<Seq<Rgb>>,
        cands: Seq<ChildReflection>,
        level: int,
        n: int,
    ) -> Seq<Seq<Rgb>>
        decreases n - level,
    {
        if level >= n {
            field
        } else if cands.len() == 0 {
            LightFieldObject::cascade_spec(
                map, parent_start, parent_end, t, raycast_fineness, field, cands, level + 1, n,
            )
        } else {
            let out = LightFieldObject::reflections_level_spec(
                map,
                parent_start,
                parent_end,
                t,
                raycast_fineness,
                (field, Seq::<ChildReflection>::empty()),
                crate::filter::filter_output_spec(cands, t),
                0,
            );
            LightFieldObject::cascade_spec(
                map, parent_start, parent_end, t, raycast_fineness, out.0, out.1, level + 1, n,
            )
        }
    }

    /// Iterate the reflection cascade, exactly as `cascade_spec` describes:
    /// for each level up to the bound, filter the pending candidate
    /// reflections into one source per group, cast each as a virtual light
    /// source into this same field, and carry the newly proposed candidates
    /// to the next level.  With a reflection level of zero the field is
    /// left exactly as the primary pass made it.
    #[verifier::loop_isolation(false)]
    #[verifier::rlimit(100)]
    pub fn run_reflections(
        &mut self,
        map: &WorldMap,
        first_candidates: Vec<ChildReflection>,
        reflection_level: u32,
        brightness_tables: &BrightnessTables,
        raycast_fineness: i64,
    )
        requires
            old(self).wf(),
            map.wf(),
            brightness_tables.wf(),
            old(self).map_offset_end.0 < map.width,
            old(self).map_offset_end.1 < map.height,
            forall|k: int|
                0 <= k < first_candidates.len() ==> (#[trigger] first_candidates[k]).valid(),
            first_candidates.len() <= 1_000_000,
            1 <= raycast_fineness <= 20,
        ensures
            final(self).wf(),
            final(self).same_box(*old(self)),
            final(self).covers(*old(self)),
            reflection_level == 0 ==> *final(self) == *old(self),
            final(self).view() == LightFieldObject::cascade_spec(
                *map,
                (old(self).map_offset_start.0 as int, old(self).map_offset_start.1 as int),
                (old(self).map_offset_end.0 as int, old(self).map_offset_end.1 as int),
                *brightness_tables,
                raycast_fineness,
                old(self).view(),
                first_candidates@,
                0,
                reflection_level as int,
            ),
    {
        let ghost ps = (self.map_offset_start.0 as int, self.map_offset_start.1 as int);
        let ghost pe = (self.map_offset_end.0 as int, self.map_offset_end.1 as int);
        let ghost n = reflection_level as int;
        let ghost full = LightFieldObject::cascade_spec(
            *map, ps, pe, *brightness_tables, raycast_fineness, self.view(), first_candidates@,
            0, n,
        );
        let mut candidate_reflections = first_candidates;
        let mut level: u32 = 0;
        while level < reflection_level
            invariant
                level <= reflection_level,
                self.wf(),
                self.same_box(*old(self)),
                self.covers(*old(self)),
                reflection_level == 0 ==> *self == *old(self),
                forall|k: int|
                    0 <= k < candidate_reflections.len()
                        ==> (#[trigger] candidate_reflections[k]).valid(),
                candidate_reflections.len() <= 1_000_000,
                full == LightFieldObject::cascade_spec(
                    *map, ps, pe, *brightness_tables, raycast_fineness, self.view(),
                    candidate_reflections@, level as int, n,
                ),
            decreases reflection_level - level,
        {
            if candidate_reflections.len() > 0 {
                let final_reflections = crate::filter::filter_candidate_reflections(
                    &candidate_reflections,
                    brightness_tables,
                );
                let ghost level_full = LightFieldObject::reflections_level_spec(
                    *map, ps, pe, *brightness_tables, raycast_fineness,
                    (self.view(), Seq::<ChildReflection>::empty()), final_reflections@, 0,
                );
                let mut results_this_level: Vec<ChildReflection> = Vec::new();
                let mut ri: usize = 0;
                while ri < final_reflections.len()
                    invariant
                        ri <= final_reflections.len(),
                        self.wf(),
                        self.same_box(*old(self)),
                        self.covers(*old(self)),
                        forall|k: int|
                            0 <= k < final_reflections.len()
                                ==> (#[trigger] final_reflections[k]).valid(),
                        forall|k: int|
                            0 <= k < results_this_level.len()
                                ==> (#[trigger] results_this_level[k]).valid(),
                        results_this_level.len() <= 1_000_000,
                        level_full == LightFieldObject::reflections_level_spec(
                            *map, ps, pe, *brightness_tables, raycast_fineness,
                            (self.view(), results_this_level@), final_reflections@, ri as int,
                        ),
                    decreases final_reflections.len() - ri,
                {
                    let reflection = final_reflections[ri];
                    if reflection.x < map.width as i64 && reflection.y < map.height as i64 {
                        let ghost prev = *self;
                        let results_this_child = self.cast_one_reflection(
                            map,
                            reflection,
                            brightness_tables,
                            raycast_fineness,
                        );
                        proof {
                            assert forall|a: int, b: int|
                                0 <= a < old(self).field_w() && 0 <= b < old(self).field_h()
                                implies (#[trigger] old(self).at(a, b)).le(self.at(a, b)) by {
                                assert(old(self).at(a, b).le(prev.at(a, b)));
                                assert(prev.at(a, b).le(self.at(a, b)));
                            }
                        }
                        let ghost c0 = results_this_level@;
                        let ghost child = results_this_child@;
                        let ghost total = c0.len() + child.len();
                        let ghost capped = (c0 + child).take(
                            if total > 1_000_000 { 1_000_000int } else { total as int },
                        );
                        let mut k: usize = 0;
                        while k < results_this_child.len()
                            invariant
                                k <= results_this_child.len(),
                                results_this_child@ == child,
                                forall|q: int|
                                    0 <= q < results_this_level.len()
                                        ==> (#[trigger] results_this_level[q]).valid(),
                                forall|q: int|
                                    0 <= q < results_this_child.len()
                                        ==> (#[trigger] results_this_child[q]).valid(),
                                results_this_level.len() <= 1_000_000,
                                results_this_level@ == (c0 + child.take(k as int)).take(
                                    if c0.len() + k > 1_000_000 {
                                        1_000_000int
                                    } else {
                                        (c0.len() + k) as int
                                    },
                                ),
                            decreases results_this_child.len() - k,
                        {
                            proof {
                                assert(child.take(k + 1) =~= child.take(k as int).push(
                                    child[k as int],
                                ));
                                assert((c0 + child.take(k as int)).push(child[k as int]) =~= c0
                                    + child.take(k as int).push(child[k as int]));
                                if c0.len() + k > 1_000_000 {
                                } else {
                                    assert((c0 + child.take(k as int)).take(
                                        (c0.len() + k) as int,
                                    ) =~= c0 + child.take(k as int));
                                }
                                if c0.len() + k + 1 > 1_000_000 && c0.len() + k <= 1_000_000 {
                                    assert((c0 + child.take(k + 1)).take(1_000_000int) =~= c0
                                        + child.take(k as int));
                                }
                                if c0.len() + k > 1_000_000 {
                                    assert((c0 + child.take(k + 1)).take(1_000_000int) =~= (c0
                                        + child.take(k as int)).take(1_000_000int));
                                }
                            }
                            if results_this_level.len() < 1_000_000 {
                                results_this_level.push(results_this_child[k]);
                            }
                            k += 1;
                        }
                        proof {
                            assert(child.take(child.len() as int) =~= child);
                            assert(results_this_level@ == capped);
                        }
                    }
                    ri += 1;
                }
                candidate_reflections = results_this_level;
            }
            level += 1;
        }
    }

    /// Recompute this light field in full for a light source at
    /// `(pos_x, pos_y)`: a primary raycast pass, then up to
    /// `reflection_level` rounds of filtered child reflections cast back
    /// into the same field.  The field is replaced wholesale, never
    /// patched: with reflections disabled it equals the primary pass
    /// exactly, holding only direct illumination, and a sight-blocking
    /// source tile keeps zero irradiance from its own light.
    pub fn recalculate(
        &mut self,
        map: &WorldMap,
        pos_x: i64,
        pos_y: i64,
        float_offset: (i64, i64),
        intensity_profile: &Rgb,
        direction: i64,
        angular_sweep: i64,
        collimation: i64,
        brightness_tables: &BrightnessTables,
        reflection_level: u32,
        raycast_fineness: i64,
    )
        requires
            map.wf(),
            brightness_tables.wf(),
            map.in_bounds(pos_x as int, pos_y as int),
            intensity_profile.valid(),
            -1_000_000 <= float_offset.0 <= 1_000_000,
            -1_000_000 <= float_offset.1 <= 1_000_000,
            0 <= direction < 360_000,
            0 <= angular_sweep <= 360_000,
            0 <= collimation <= 90_000,
            1 <= raycast_fineness <= 20,
        ensures
            final(self).wf(),
            final(self).map_offset_end.0 < map.width,
            final(self).map_offset_end.1 < map.height,
            final(self).map_offset_start.0 <= pos_x <= final(self).map_offset_end.0,
            final(self).map_offset_start.1 <= pos_y <= final(self).map_offset_end.1,
            (map.tile_at(pos_x as int, pos_y as int).block_sight && reflection_level == 0)
                ==> final(self).at(
                    pos_x - final(self).map_offset_start.0,
                    pos_y - final(self).map_offset_start.1,
                ).is_zero(),
            ({
                let bs = (
                    final(self).map_offset_start.0 as int,
                    final(self).map_offset_start.1 as int,
                );
                let be = (
                    final(self).map_offset_end.0 as int,
                    final(self).map_offset_end.1 as int,
                );
                let pass = LightFieldObject::primary_pass_spec(
                    *map,
                    bs,
                    be,
                    (pos_x, pos_y),
                    float_offset,
                    *intensity_profile,
                    direction,
                    angular_sweep,
                    collimation,
                    *brightness_tables,
                    raycast_fineness,
                );
                let first = if pass.1.len() > 1_000_000 {
                    pass.1.take(1_000_000)
                } else {
                    pass.1
                };
                final(self).view() == LightFieldObject::cascade_spec(
                    *map,
                    bs,
                    be,
                    *brightness_tables,
                    raycast_fineness,
                    pass.0,
                    first,
                    0,
                    reflection_level as int,
                )
            }),
            reflection_level == 0 ==> final(self).view()
                == LightFieldObject::primary_pass_spec(
                *map,
                (final(self).map_offset_start.0 as int, final(self).map_offset_start.1 as int),
                (final(self).map_offset_end.0 as int, final(self).map_offset_end.1 as int),
                (pos_x, pos_y),
                float_offset,
                *intensity_profile,
                direction,
                angular_sweep,
                collimation,
                *brightness_tables,
                raycast_fineness,
            ).0,
    {
        let mut candidates = self.recalculate_primary(
            map,
            pos_x,
            pos_y,
            float_offset,
            intensity_profile,
            direction,
            angular_sweep,
            collimation,
            brightness_tables,
            raycast_fineness,
        );
        if candidates.len() > 1_000_000 {
            candidates.truncate(1_000_000);
        }
        let ghost after_primary = *self;
        self.run_reflections(
            map,
            candidates,
            reflection_level,
            brightness_tables,
            raycast_fineness,
        );
        proof {
            if reflection_level == 0 {
                assert(*self == after_primary);
            }
        }
    }
}

} // verus!
