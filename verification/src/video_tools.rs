//! The early, self-contained light-field pass: an inverse-square falloff
//! raycaster that lights every tile of a square field around the source,
//! with no lookup tables, no reflections and no sub-tile source offset.
//! Its whole result is pinned by `legacy_pass_spec`.

use vstd::prelude::*;
use crate::fixed::{MICRO, mul_fp, mul_fp_spec, isqrt, isqrt_spec, sdiv, sdiv_spec};
use crate::model::{Rgb, WorldMap, CHANNEL_MAX};
use crate::trig::{atan_ratio_mdeg, atan_ratio_spec};
use crate::angles::{de_normalise_angle, de_normalise_angle_spec};
use crate::field::{trunc_tile, trunc_tile_spec, LightFieldObject};

verus! {

/// The half-distance divisor of this pass's falloff: brightness falls as
/// the inverse square of half the distance travelled.
pub const ILLUMINATION_MODULATION_DIV: u64 = 2;

/// The field radius, in tiles, for a peak channel intensity `m`
/// (micro-units): the rounded square root of the ratio between the peak
/// and the 1/255 visibility floor (0.0039215 = 7843/2_000_000 exactly),
/// computed in milli-tiles, capped so the field allocation stays bounded.
pub open spec fn legacy_radius_spec(m: int) -> int {
    let n = m * 2_000_000 / 7_843;
    let s = isqrt_spec(n);
    let rounded = (s + 500) / 1000;
    if rounded > 512 {
        512
    } else {
        rounded
    }
}

/// The facing, in millidegrees, encoded by this pass's direction codes.
pub open spec fn direction_code_spec(code: int) -> int {
    if code == 2 {
        90_000int
    } else if code == 3 {
        180_000int
    } else if code == 4 {
        270_000int
    } else {
        0int
    }
}

/// A grid of vectors as a sequence of sequences.
pub open spec fn grid_view(g: Vec<Vec<Rgb>>) -> Seq<Seq<Rgb>> {
    Seq::new(g@.len() as nat, |i: int| g@[i]@)
}

/// The brightness this pass's ray carries at its `i`-th step: the source
/// intensity divided by the square of half the distance travelled (floored
/// at one tile), clamped never to exceed the source.
pub open spec fn legacy_brightness_spec(intensity: Rgb, i: int) -> Rgb {
    if i <= 0 {
        intensity
    } else {
        let md = if i * 50_000 / 2 < 1_000_000 {
            1_000_000int
        } else {
            i * 50_000 / 2
        };
        let md2 = mul_fp_spec(md, md);
        Rgb {
            r: (if intensity.r * 1_000_000 / md2 > intensity.r {
                intensity.r as int
            } else {
                intensity.r * 1_000_000 / md2
            }) as u64,
            g: (if intensity.g * 1_000_000 / md2 > intensity.g {
                intensity.g as int
            } else {
                intensity.g * 1_000_000 / md2
            }) as u64,
            b: (if intensity.b * 1_000_000 / md2 > intensity.b {
                intensity.b as int
            } else {
                intensity.b * 1_000_000 / md2
            }) as u64,
        }
    }
}

/// One ray of this pass, from its `i`-th step on: at each step the ray's
/// tile is max-blend lit with the step brightness; the ray stops on
/// leaving the map or the field and after lighting a sight-blocking tile.
pub open spec fn legacy_ray_walk_spec(
    map: WorldMap,
    box_start: (int, int),
    dim: int,
    sx: int,
    sy: int,
    start: (int, int),
    intensity: Rgb,
    field: Seq<Seq<Rgb>>,
    i: int,
    n: int,
) -> Seq<Seq<Rgb>>
    decreases n - i,
{
    if i >= n {
        field
    } else {
        let cx = start.0 + i * sx;
        let cy = start.1 + i * sy;
        let fx = trunc_tile_spec(cx);
        let fy = trunc_tile_spec(cy);
        let mx = fx + box_start.0;
        let my = fy + box_start.1;
        if mx < 0 || mx > map.width - 1 || my < 0 || my > map.height - 1 {
            field
        } else if fx < 0 || fx >= dim || fy < 0 || fy >= dim {
            field
        } else {
            let written = LightFieldObject::view_write(
                field,
                fx,
                fy,
                legacy_brightness_spec(intensity, i),
            );
            if map.tile_at(mx, my).block_sight {
                written
            } else {
                legacy_ray_walk_spec(
                    map, box_start, dim, sx, sy, start, intensity, written, i + 1, n,
                )
            }
        }
    }
}

/// One perimeterless target of this pass: the ray toward the centre of
/// map tile `(tx, ty)`, cast only when that centre lies inside the
/// emission cone around the encoded facing.
pub open spec fn legacy_target_step_spec(
    map: WorldMap,
    box_start: (int, int),
    dim: int,
    flc: (int, int),
    modifier: i64,
    intensity: Rgb,
    beam_sweep: i64,
    field: Seq<Seq<Rgb>>,
    tx: int,
    ty: int,
) -> Seq<Seq<Rgb>> {
    let dx = (tx - box_start.0) * 1_000_000 + 500_000 - flc.0;
    let dy = (ty - box_start.1) * 1_000_000 + 500_000 - flc.1;
    let adx = if dx < 0 { -dx } else { dx };
    let ady = if dy < 0 { -dy } else { dy };
    let ratio = if adx == 0 {
        100_000_000int
    } else {
        ady * 1_000_000 / adx
    };
    let a = atan_ratio_spec(ratio);
    let polar = if dx >= 0 && dy >= 0 {
        a
    } else if dx < 0 && dy >= 0 {
        180_000 - a
    } else if dx < 0 && dy < 0 {
        a + 180_000
    } else {
        360_000 - a
    };
    let alpha = de_normalise_angle_spec(polar - modifier);
    if !(alpha <= beam_sweep || alpha >= 360_000 - beam_sweep) {
        field
    } else {
        let inc = isqrt_spec(dx * dx + dy * dy) / 50_000;
        if inc <= 0 {
            field
        } else {
            legacy_ray_walk_spec(
                map,
                box_start,
                dim,
                sdiv_spec(dx, inc),
                sdiv_spec(dy, inc),
                flc,
                intensity,
                field,
                0,
                inc,
            )
        }
    }
}

/// The targets of one row of the bounding box, from column `tx` on
/// (exclusive of the box's end column, as this pass enumerates them).
pub open spec fn legacy_cols_fold_spec(
    map: WorldMap,
    box_start: (int, int),
    dim: int,
    flc: (int, int),
    modifier: i64,
    intensity: Rgb,
    beam_sweep: i64,
    field: Seq<Seq<Rgb>>,
    ty: int,
    tx: int,
    tx_end: int,
) -> Seq<Seq<Rgb>>
    decreases tx_end - tx,
{
    if tx >= tx_end {
        field
    } else {
        legacy_cols_fold_spec(
            map,
            box_start,
            dim,
            flc,
            modifier,
            intensity,
            beam_sweep,
            legacy_target_step_spec(
                map, box_start, dim, flc, modifier, intensity, beam_sweep, field, tx, ty,
            ),
            ty,
            tx + 1,
            tx_end,
        )
    }
}

/// All rows of the bounding box from row `ty` on: the meaning of the
/// whole pass when started on a zeroed field.
pub open spec fn legacy_rows_fold_spec(
    map: WorldMap,
    box_start: (int, int),
    dim: int,
    flc: (int, int),
    modifier: i64,
    intensity: Rgb,
    beam_sweep: i64,
    field: Seq<Seq<Rgb>>,
    ty: int,
    ty_end: int,
    tx_start: int,
    tx_end: int,
) -> Seq<Seq<Rgb>>
    decreases ty_end - ty,
{
    if ty >= ty_end {
        field
    } else {
        legacy_rows_fold_spec(
            map,
            box_start,
            dim,
            flc,
            modifier,
            intensity,
            beam_sweep,
            legacy_cols_fold_spec(
                map, box_start, dim, flc, modifier, intensity, beam_sweep, field, ty, tx_start,
                tx_end,
            ),
            ty + 1,
            ty_end,
            tx_start,
            tx_end,
        )
    }
}

/// A zeroed square field of side `dim`.
pub open spec fn legacy_zero_field_spec(dim: int) -> Seq<Seq<Rgb>> {
    Seq::new(dim as nat, |i: int| Seq::new(dim as nat, |j: int| Rgb { r: 0, g: 0, b: 0 }))
}

/// A zeroed square grid of side `dim`.
fn make_zero_grid(dim: usize) -> (g: Vec<Vec<Rgb>>)
    requires
        dim <= 1025,
    ensures
        g@.len() == dim,
        forall|i: int| 0 <= i < dim ==> (#[trigger] g[i]).len() == dim,
        forall|i: int, j: int|
            0 <= i < dim && 0 <= j < dim ==> (#[trigger] g[i][j]).is_zero(),
        grid_view(g) == legacy_zero_field_spec(dim as int),
{
    let mut g: Vec<Vec<Rgb>> = Vec::new();
    let mut i0: usize = 0;
    while i0 < dim
        invariant
            i0 <= dim,
            g.len() == i0,
            forall|i: int| 0 <= i < i0 ==> (#[trigger] g[i]).len() == dim,
            forall|i: int, j: int|
                0 <= i < i0 && 0 <= j < dim ==> (#[trigger] g[i][j]).is_zero(),
        decreases dim - i0,
    {
        let mut col: Vec<Rgb> = Vec::new();
        let mut j0: usize = 0;
        while j0 < dim
            invariant
                j0 <= dim,
                col.len() == j0,
                forall|j: int| 0 <= j < j0 ==> (#[trigger] col[j]).is_zero(),
            decreases dim - j0,
        {
            col.push(Rgb::zero());
            j0 += 1;
        }
        g.push(col);
        i0 += 1;
    }
    proof {
        assert forall|a: int| 0 <= a < grid_view(g).len()
            implies #[trigger] grid_view(g)[a] =~= legacy_zero_field_spec(dim as int)[a] by {
            assert forall|b: int| 0 <= b < dim
                implies #[trigger] g@[a]@[b] == (Rgb { r: 0, g: 0, b: 0 }) by {
                assert(g@[a]@[b].is_zero());
            }
        }
        assert(grid_view(g) =~~= legacy_zero_field_spec(dim as int));
    }
    g
}

/// Max-blend one ray brightness into a cell of a raw grid.
fn grid_overwrite(field: &mut Vec<Vec<Rgb>>, fx: i64, fy: i64, rb: Rgb, Ghost(dim): Ghost<int>)
    requires
        old(field)@.len() == dim,
        forall|i: int| 0 <= i < dim ==> (#[trigger] old(field)[i]).len() == dim,
        0 <= fx < dim,
        0 <= fy < dim,
    ensures
        final(field)@.len() == dim,
        forall|i: int| 0 <= i < dim ==> (#[trigger] final(field)[i]).len() == dim,
        grid_view(*final(field)) == LightFieldObject::view_write(
            grid_view(*old(field)),
            fx as int,
            fy as int,
            rb,
        ),
        forall|i: int, j: int|
            0 <= i < dim && 0 <= j < dim
                ==> #[trigger] final(field)[i][j] == old(field)[i][j]
                    || final(field)[i][j] == old(field)[i][j].join(rb),
{
    let i: usize = fx as usize;
    let j: usize = fy as usize;
    assert(field[i as int].len() == dim);
    let cell: Rgb = field[i][j];
    let blended = Rgb {
        r: if cell.r >= rb.r { cell.r } else { rb.r },
        g: if cell.g >= rb.g { cell.g } else { rb.g },
        b: if cell.b >= rb.b { cell.b } else { rb.b },
    };
    let row: &mut Vec<Rgb> = &mut field[i];
    row.set(j, blended);
    assert(forall|k: int| 0 <= k < field.len() && k != i
        ==> #[trigger] field@[k] == old(field)@[k]);
    proof {
        let expected = LightFieldObject::view_write(
            grid_view(*old(field)),
            fx as int,
            fy as int,
            rb,
        );
        assert forall|a: int| 0 <= a < grid_view(*field).len()
            implies #[trigger] grid_view(*field)[a] =~= expected[a] by {
            if a == i {
                assert(field@[a]@ =~= old(field)@[a]@.update(j as int, blended));
            } else {
                assert(field@[a] == old(field)@[a]);
            }
        }
        assert(grid_view(*field) =~~= expected);
    }
}

/// Cast this pass's single ray toward the centre of map tile
/// `(target_x, target_y)`, exactly as `legacy_target_step_spec` describes.
#[verifier::loop_isolation(false)]
#[verifier::rlimit(100)]
fn legacy_cast_target(
    map: &WorldMap,
    light_field: &mut Vec<Vec<Rgb>>,
    map_offset_start: (i64, i64),
    dim: usize,
    field_light_x: i64,
    field_light_y: i64,
    alpha_angle_modifier: i64,
    intensity: Rgb,
    beam_sweep: i64,
    target_x: i64,
    target_y: i64,
)
    requires
        map.wf(),
        intensity.valid(),
        0 <= beam_sweep <= 360_000,
        1 <= dim <= 1025,
        old(light_field)@.len() == dim,
        forall|i: int| 0 <= i < dim ==> (#[trigger] old(light_field)[i]).len() == dim,
        forall|i: int, j: int|
            0 <= i < dim && 0 <= j < dim ==> {
                let c = #[trigger] old(light_field)[i][j];
                c.r <= intensity.r && c.g <= intensity.g && c.b <= intensity.b
            },
        -513 <= map_offset_start.0 <= 1023,
        -513 <= map_offset_start.1 <= 1023,
        field_light_x == (dim as i64 - 1) / 2 * 1_000_000 + 500_000,
        field_light_y == (dim as i64 - 1) / 2 * 1_000_000 + 500_000,
        map_offset_start.0 <= target_x < map_offset_start.0 + dim - 1,
        map_offset_start.1 <= target_y < map_offset_start.1 + dim - 1,
        0 <= alpha_angle_modifier < 360_000,
    ensures
        final(light_field)@.len() == dim,
        forall|i: int| 0 <= i < dim ==> (#[trigger] final(light_field)[i]).len() == dim,
        forall|i: int, j: int|
            0 <= i < dim && 0 <= j < dim ==> {
                let c = #[trigger] final(light_field)[i][j];
                c.r <= intensity.r && c.g <= intensity.g && c.b <= intensity.b
            },
        grid_view(*final(light_field)) == legacy_target_step_spec(
            *map,
            (map_offset_start.0 as int, map_offset_start.1 as int),
            dim as int,
            (field_light_x as int, field_light_y as int),
            alpha_angle_modifier,
            intensity,
            beam_sweep,
            grid_view(*old(light_field)),
            target_x as int,
            target_y as int,
        ),
{
    let ghost bs = (map_offset_start.0 as int, map_offset_start.1 as int);
    let ghost dimg = dim as int;
    let ghost flc = (field_light_x as int, field_light_y as int);

    // Displacement from source to the target tile's centre.
    let dx: i64 = (target_x - map_offset_start.0) * 1_000_000 + 500_000 - field_light_x;
    let dy: i64 = (target_y - map_offset_start.1) * 1_000_000 + 500_000 - field_light_y;
    assert(-600_000_000 <= dx <= 600_000_000);
    assert(-600_000_000 <= dy <= 600_000_000);

    // Quadrant-resolved angle of the target, then the alpha angle relative
    // to the facing.
    let adx: i64 = if dx < 0 { -dx } else { dx };
    let ady: i64 = if dy < 0 { -dy } else { dy };
    let ratio: i64 = if adx == 0 {
        100_000_000
    } else {
        ady * 1_000_000 / adx
    };
    let atan_deg: i64 = atan_ratio_mdeg(ratio);
    assert(0 <= atan_deg <= 90_000) by {
        crate::trig::lemma_atan_abs_bounds(
            if ratio > 100_000_000 { 100_000_000int } else { ratio as int },
        );
    }
    let polar: i64 = if dx >= 0 && dy >= 0 {
        atan_deg
    } else if dx < 0 && dy >= 0 {
        180_000 - atan_deg
    } else if dx < 0 && dy < 0 {
        atan_deg + 180_000
    } else {
        360_000 - atan_deg
    };
    let alpha_angle: i64 = de_normalise_angle(polar - alpha_angle_modifier);

    if alpha_angle <= beam_sweep || alpha_angle >= 360_000 - beam_sweep {
        proof {
            assert(0 <= dx * dx <= 360_000_000_000_000_000int) by (nonlinear_arith)
                requires -600_000_000 <= dx <= 600_000_000;
            assert(0 <= dy * dy <= 360_000_000_000_000_000int) by (nonlinear_arith)
                requires -600_000_000 <= dy <= 600_000_000;
        }
        let sq: u64 = (dx * dx) as u64 + (dy * dy) as u64;
        let dist: u64 = isqrt(sq);
        assert(dist <= 900_000_000) by (nonlinear_arith)
            requires
                dist * dist <= 720_000_000_000_000_000u64,
                dist <= u64::MAX;
        let increments: i64 = (dist / 50_000) as i64;
        if increments > 0 {
            let sx: i64 = sdiv(dx, increments);
            let sy: i64 = sdiv(dy, increments);
            proof {
                assert(-600_000_000 <= increments * sx <= 600_000_000
                    && -600_000_000 <= sx <= 600_000_000) by (nonlinear_arith)
                    requires
                        increments >= 1,
                        -600_000_000 <= dx <= 600_000_000,
                        sx == sdiv_spec(dx as int, increments as int);
                assert(-600_000_000 <= increments * sy <= 600_000_000
                    && -600_000_000 <= sy <= 600_000_000) by (nonlinear_arith)
                    requires
                        increments >= 1,
                        -600_000_000 <= dy <= 600_000_000,
                        sy == sdiv_spec(dy as int, increments as int);
            }
            let ghost ray_full = legacy_ray_walk_spec(
                *map, bs, dimg, sx as int, sy as int, flc, intensity,
                grid_view(*light_field), 0, increments as int,
            );
            let mut cx: i64 = field_light_x;
            let mut cy: i64 = field_light_y;
            let mut ray_r: u64 = intensity.r;
            let mut ray_g: u64 = intensity.g;
            let mut ray_b: u64 = intensity.b;
            let mut travelled: u64 = 0;
            let mut inc: i64 = 0;
            let mut done: bool = false;
            while !done && inc < increments
                invariant
                    0 <= inc <= increments,
                    increments <= 100_000,
                    cx == field_light_x + inc * sx,
                    cy == field_light_y + inc * sy,
                    -700_000_000 <= cx <= 1_800_000_000,
                    -700_000_000 <= cy <= 1_800_000_000,
                    travelled == inc * 50_000,
                    ray_r == legacy_brightness_spec(intensity, inc as int).r,
                    ray_g == legacy_brightness_spec(intensity, inc as int).g,
                    ray_b == legacy_brightness_spec(intensity, inc as int).b,
                    ray_r <= intensity.r,
                    ray_g <= intensity.g,
                    ray_b <= intensity.b,
                    light_field@.len() == dim,
                    forall|i: int| 0 <= i < dim ==> (#[trigger] light_field[i]).len() == dim,
                    forall|i: int, j: int|
                        0 <= i < dim && 0 <= j < dim ==> {
                            let c = #[trigger] light_field[i][j];
                            c.r <= intensity.r && c.g <= intensity.g && c.b <= intensity.b
                        },
                    ray_full == if done {
                        grid_view(*light_field)
                    } else {
                        legacy_ray_walk_spec(
                            *map, bs, dimg, sx as int, sy as int, flc, intensity,
                            grid_view(*light_field), inc as int, increments as int,
                        )
                    },
                decreases increments - inc + if done { 0int } else { 1int },
            {
                let fx: i64 = trunc_tile(cx);
                let fy: i64 = trunc_tile(cy);
                let mx: i64 = fx + map_offset_start.0;
                let my: i64 = fy + map_offset_start.1;
                if mx < 0 || mx > map.width as i64 - 1 || my < 0 || my > map.height as i64 - 1 {
                    done = true;
                } else if fx < 0 || fx >= dim as i64 || fy < 0 || fy >= dim as i64 {
                    done = true;
                } else {
                    // Max-blend the ray into the tile it is crossing.
                    grid_overwrite(
                        light_field,
                        fx,
                        fy,
                        Rgb { r: ray_r, g: ray_g, b: ray_b },
                        Ghost(dimg),
                    );
                    if map.tile(mx, my).block_sight {
                        done = true;
                    } else {
                        proof {
                            assert(-600_000_000 <= (inc + 1) * sx <= 600_000_000)
                                by (nonlinear_arith)
                                requires
                                    0 <= inc + 1 <= increments,
                                    -600_000_000 <= increments * sx <= 600_000_000,
                                    -600_000_000 <= sx <= 600_000_000;
                            assert(-600_000_000 <= (inc + 1) * sy <= 600_000_000)
                                by (nonlinear_arith)
                                requires
                                    0 <= inc + 1 <= increments,
                                    -600_000_000 <= increments * sy <= 600_000_000,
                                    -600_000_000 <= sy <= 600_000_000;
                            assert((inc + 1) * sx == inc * sx + sx) by (nonlinear_arith);
                            assert((inc + 1) * sy == inc * sy + sy) by (nonlinear_arith);
                        }
                        cx = cx + sx;
                        cy = cy + sy;
                        travelled = travelled + 50_000;
                        inc += 1;

                        // Inverse-square falloff on half the distance
                        // travelled, floored at one tile, clamped never to
                        // exceed the source.
                        let mut modulation_distance: u64 = travelled
                            / ILLUMINATION_MODULATION_DIV;
                        if modulation_distance < MICRO {
                            modulation_distance = MICRO;
                        }
                        assert(modulation_distance <= 2_500_000_000u64);
                        proof {
                            assert(modulation_distance * modulation_distance <= u64::MAX)
                                by (nonlinear_arith)
                                requires modulation_distance <= 2_500_000_000u64;
                            assert(mul_fp_spec(
                                modulation_distance as int,
                                modulation_distance as int,
                            ) >= 1_000_000) by (nonlinear_arith)
                                requires modulation_distance >= 1_000_000u64;
                        }
                        let md2: u64 = mul_fp(modulation_distance, modulation_distance);
                        proof {
                            assert(intensity.r * 1_000_000 <= u64::MAX) by (nonlinear_arith)
                                requires intensity.r <= CHANNEL_MAX;
                            assert(intensity.g * 1_000_000 <= u64::MAX) by (nonlinear_arith)
                                requires intensity.g <= CHANNEL_MAX;
                            assert(intensity.b * 1_000_000 <= u64::MAX) by (nonlinear_arith)
                                requires intensity.b <= CHANNEL_MAX;
                        }
                        ray_r = intensity.r * 1_000_000 / md2;
                        if ray_r > intensity.r {
                            ray_r = intensity.r;
                        }
                        ray_g = intensity.g * 1_000_000 / md2;
                        if ray_g > intensity.g {
                            ray_g = intensity.g;
                        }
                        ray_b = intensity.b * 1_000_000 / md2;
                        if ray_b > intensity.b {
                            ray_b = intensity.b;
                        }
                    }
                }
            }
            proof {
                assert(grid_view(*light_field) == ray_full);
            }
        }
    }
}

/// Compute one light field by brute-force raycasting, exactly as
/// `legacy_rows_fold_spec` describes: rays run from the source tile's
/// centre toward the centre of every tile in the bounding box; each lights
/// the tiles it crosses by max-blending (never darken), stops at
/// sight-blocking tiles or the map edge, and dims with the inverse square
/// of half the distance travelled, never exceeding the source intensity.
/// Returns the field and its bounding corners in map coordinates.
#[verifier::loop_isolation(false)]
#[verifier::rlimit(100)]
pub fn compute_lightfield(
    map: &WorldMap,
    pos_x: i64,
    pos_y: i64,
    direction_code: i64,
    intensity: Rgb,
    beam_sweep: i64,
) -> (r: (Vec<Vec<Rgb>>, (i64, i64), (i64, i64)))
    requires
        map.wf(),
        map.in_bounds(pos_x as int, pos_y as int),
        intensity.valid(),
        0 <= beam_sweep <= 360_000,
    ensures
        ({
            let rad = legacy_radius_spec(intensity.max_channel_spec());
            &&& r.1.0 == pos_x - rad && r.1.1 == pos_y - rad
            &&& r.2.0 == pos_x + rad && r.2.1 == pos_y + rad
            &&& r.0.len() == 2 * rad + 1
            &&& forall|i: int| 0 <= i < r.0.len() ==> (#[trigger] r.0[i]).len() == 2 * rad + 1
            &&& forall|i: int, j: int|
                0 <= i < r.0.len() && 0 <= j < r.0.len() ==> {
                    let c = #[trigger] r.0[i][j];
                    c.r <= intensity.r && c.g <= intensity.g && c.b <= intensity.b
                }
            &&& grid_view(r.0) == legacy_rows_fold_spec(
                *map,
                (pos_x - rad, pos_y - rad),
                2 * rad + 1,
                (rad * 1_000_000 + 500_000, rad * 1_000_000 + 500_000),
                direction_code_spec(direction_code as int) as i64,
                intensity,
                beam_sweep,
                legacy_zero_field_spec(2 * rad + 1),
                pos_y - rad,
                pos_y + rad,
                pos_x - rad,
                pos_x + rad,
            )
        }),
{
    let max_intensity: u64 = intensity.max_channel();

    // Radius at which the peak channel falls to the visibility floor,
    // found in milli-tiles and rounded to the nearest whole tile.
    proof {
        assert(max_intensity * 2_000_000 <= u64::MAX) by (nonlinear_arith)
            requires max_intensity <= CHANNEL_MAX;
    }
    let n: u64 = max_intensity * 2_000_000 / 7_843;
    let s: u64 = isqrt(n);
    assert(s <= 0x1_0000_0000) by (nonlinear_arith)
        requires s * s <= n && n <= u64::MAX;
    let rounded: u64 = (s + 500) / 1000;
    let int_light_radius: i64 = if rounded > 512 {
        512
    } else {
        rounded as i64
    };
    let ghost rad = int_light_radius as int;
    assert(rad == legacy_radius_spec(intensity.max_channel_spec()));

    let dim: usize = (2 * int_light_radius + 1) as usize;
    let ghost dimg = dim as int;
    let mut light_field: Vec<Vec<Rgb>> = make_zero_grid(dim);

    let map_offset_start: (i64, i64) = (pos_x - int_light_radius, pos_y - int_light_radius);
    let map_offset_end: (i64, i64) = (pos_x + int_light_radius, pos_y + int_light_radius);
    let ghost bs = (map_offset_start.0 as int, map_offset_start.1 as int);

    // The source sits at the centre of its tile, in field micro-tiles.
    let field_light_x: i64 = int_light_radius * 1_000_000 + 500_000;
    let field_light_y: i64 = int_light_radius * 1_000_000 + 500_000;
    let ghost flc = (field_light_x as int, field_light_y as int);

    let alpha_angle_modifier: i64 = if direction_code == 2 {
        90_000
    } else if direction_code == 3 {
        180_000
    } else if direction_code == 4 {
        270_000
    } else {
        0
    };
    assert(alpha_angle_modifier == direction_code_spec(direction_code as int));

    let ghost full = legacy_rows_fold_spec(
        *map, bs, dimg, flc, alpha_angle_modifier, intensity, beam_sweep,
        legacy_zero_field_spec(dimg), map_offset_start.1 as int, map_offset_end.1 as int,
        map_offset_start.0 as int, map_offset_end.0 as int,
    );

    let mut target_y: i64 = map_offset_start.1;
    while target_y < map_offset_end.1
        invariant
            map_offset_start.1 <= target_y,
            target_y <= map_offset_end.1 || target_y == map_offset_start.1,
            light_field@.len() == dim,
            forall|i: int| 0 <= i < dim ==> (#[trigger] light_field[i]).len() == dim,
            forall|i: int, j: int|
                0 <= i < dim && 0 <= j < dim ==> {
                    let c = #[trigger] light_field[i][j];
                    c.r <= intensity.r && c.g <= intensity.g && c.b <= intensity.b
                },
            full == legacy_rows_fold_spec(
                *map, bs, dimg, flc, alpha_angle_modifier, intensity, beam_sweep,
                grid_view(light_field), target_y as int, map_offset_end.1 as int,
                map_offset_start.0 as int, map_offset_end.0 as int,
            ),
        decreases map_offset_end.1 - target_y,
    {
        let mut target_x: i64 = map_offset_start.0;
        while target_x < map_offset_end.0
            invariant
                map_offset_start.0 <= target_x,
                target_x <= map_offset_end.0 || target_x == map_offset_start.0,
                map_offset_start.1 <= target_y < map_offset_end.1,
                light_field@.len() == dim,
                forall|i: int| 0 <= i < dim ==> (#[trigger] light_field[i]).len() == dim,
                forall|i: int, j: int|
                    0 <= i < dim && 0 <= j < dim ==> {
                        let c = #[trigger] light_field[i][j];
                        c.r <= intensity.r && c.g <= intensity.g && c.b <= intensity.b
                    },
                full == legacy_rows_fold_spec(
                    *map, bs, dimg, flc, alpha_angle_modifier, intensity, beam_sweep,
                    legacy_cols_fold_spec(
                        *map, bs, dimg, flc, alpha_angle_modifier, intensity, beam_sweep,
                        grid_view(light_field), target_y as int, target_x as int,
                        map_offset_end.0 as int,
                    ), target_y as int + 1, map_offset_end.1 as int, map_offset_start.0 as int,
                    map_offset_end.0 as int,
                ),
            decreases map_offset_end.0 - target_x,
        {
            legacy_cast_target(
                map,
                &mut light_field,
                map_offset_start,
                dim,
                field_light_x,
                field_light_y,
                alpha_angle_modifier,
                intensity,
                beam_sweep,
                target_x,
                target_y,
            );
            target_x += 1;
        }
        target_y += 1;
    }

    (light_field, map_offset_start, map_offset_end)
}

} // verus!
