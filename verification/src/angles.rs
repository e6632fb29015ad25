//! Angle arithmetic for the raycasting engine, in millidegrees: wrapping
//! into `[0°, 360°)`, quadrant-resolved target angles, mirror reflection of a
//! ray direction about a struck face, and classification of a sub-tile
//! collision point onto one of the four tile faces.

use vstd::prelude::*;
use crate::tables::{BrightnessTables, tan_lookup_spec};

verus! {

/// Map an angle in `[0°, 360°)` onto `[-180°, 180°)`.
pub open spec fn normalise_angle_spec(a: int) -> int {
    if a >= 180_000 {
        a - 360_000
    } else {
        a
    }
}

/// Map an angle in `[0°, 360°)` onto the signed range `[-180°, 180°)`.
pub fn normalise_angle(angle: i64) -> (r: i64)
    requires
        -360_000 < angle < 720_000,
    ensures
        r == normalise_angle_spec(angle as int),
{
    if angle >= 180_000 {
        angle - 360_000
    } else {
        angle
    }
}

/// Wrap an angle that has left `[0°, 360°)` by at most a full turn back into
/// it.
pub open spec fn de_normalise_angle_spec(a: int) -> int {
    if a < 0 {
        a + 360_000
    } else if a > 360_000 {
        a - 360_000
    } else {
        a
    }
}

/// Wrap an angle that drifted out of `[0°, 360°)` back into range.
pub fn de_normalise_angle(angle: i64) -> (r: i64)
    requires
        -360_000 <= angle <= 720_000,
    ensures
        r == de_normalise_angle_spec(angle as int),
{
    if angle < 0 {
        angle + 360_000
    } else if angle > 360_000 {
        angle - 360_000
    } else {
        angle
    }
}

/// Wrap an angle that has left `[0°, 360°)` by at most a full turn back
/// into it (the half-open variant the ray-angle computations use).
pub open spec fn wrap_angle_spec(a: int) -> int {
    if a < 0 {
        a + 360_000
    } else if a >= 360_000 {
        a - 360_000
    } else {
        a
    }
}

/// Wrap an angle back into the half-open range `[0°, 360°)`.
pub fn wrap_angle(angle: i64) -> (r: i64)
    requires
        -360_000 <= angle <= 720_000,
    ensures
        r == wrap_angle_spec(angle as int),
{
    if angle < 0 {
        angle + 360_000
    } else if angle >= 360_000 {
        angle - 360_000
    } else {
        angle
    }
}

/// The micro-unit ratio `dy / dx` handed to the tangent table, with the
/// table's clamping to `[-100, 100]` and vertical runs clamped by the sign
/// of `dy`.
pub open spec fn slope_ratio_spec(dx: int, dy: int) -> int {
    if dx == 0 {
        if dy >= 0 {
            100_000_000int
        } else {
            -100_000_000int
        }
    } else {
        let ax = if dx < 0 { -dx } else { dx };
        let ay = if dy < 0 { -dy } else { dy };
        let m = (ay * 1_000_000) / ax;
        if (dy < 0) != (dx < 0) {
            -m
        } else {
            m
        }
    }
}

/// The unsigned tangent-table angle for the slope of `(dx, dy)`.
pub open spec fn atan_abs_lookup_spec(dx: int, dy: int) -> int {
    let a = tan_lookup_spec(slope_ratio_spec(dx, dy));
    if a < 0 {
        -a
    } else {
        a
    }
}

/// The micro-unit slope ratio of a displacement, clamped as the tangent
/// table expects.
fn slope_ratio(dx: i64, dy: i64) -> (r: i64)
    requires
        -4_000_000_000 <= dx <= 4_000_000_000,
        -4_000_000_000 <= dy <= 4_000_000_000,
    ensures
        r == slope_ratio_spec(dx as int, dy as int),
{
    if dx == 0 {
        if dy >= 0 {
            100_000_000
        } else {
            -100_000_000
        }
    } else {
        let ax: i64 = if dx < 0 { -dx } else { dx };
        let ay: i64 = if dy < 0 { -dy } else { dy };
        let m: i64 = (ay * 1_000_000) / ax;
        if (dy < 0) != (dx < 0) {
            -m
        } else {
            m
        }
    }
}

/// The quadrant-resolved angle of the displacement `(dx, dy)` measured from
/// the positive x axis, via the tangent table.
pub open spec fn polar_angle_spec(dx: int, dy: int) -> int {
    let a = atan_abs_lookup_spec(dx, dy);
    if dx >= 0 && dy >= 0 {
        a
    } else if dx < 0 && dy >= 0 {
        180_000 - a
    } else if dx < 0 && dy < 0 {
        a + 180_000
    } else {
        360_000 - a
    }
}

/// The alpha angle of a target relative to a light source facing
/// `direction`: the polar angle of the displacement, less the facing,
/// wrapped into `[0°, 360°)`.
pub open spec fn alpha_angle_spec(dx: int, dy: int, direction: int) -> int {
    wrap_angle_spec(polar_angle_spec(dx, dy) - direction)
}

/// Determine the alpha angle from a light source to a target displaced by
/// `(dx, dy)` micro-tiles, for a source facing `direction`.
pub fn determine_alpha_angle(
    dist_comps: (i64, i64),
    direction: i64,
    brightness_tables: &BrightnessTables,
) -> (alpha: i64)
    requires
        brightness_tables.wf(),
        -4_000_000_000 <= dist_comps.0 <= 4_000_000_000,
        -4_000_000_000 <= dist_comps.1 <= 4_000_000_000,
        0 <= direction < 360_000,
    ensures
        alpha == alpha_angle_spec(dist_comps.0 as int, dist_comps.1 as int, direction as int),
        0 <= alpha < 360_000,
{
    let ratio = slope_ratio(dist_comps.0, dist_comps.1);
    let signed = brightness_tables.read_tangent_table(ratio);
    let atan_deg: i64 = if signed < 0 {
        -signed
    } else {
        signed
    };
    let polar: i64 = if dist_comps.0 >= 0 && dist_comps.1 >= 0 {
        atan_deg
    } else if dist_comps.0 < 0 && dist_comps.1 >= 0 {
        180_000 - atan_deg
    } else if dist_comps.0 < 0 && dist_comps.1 < 0 {
        atan_deg + 180_000
    } else {
        360_000 - atan_deg
    };
    let alpha = wrap_angle(polar - direction);
    assert(0 <= alpha < 360_000);
    alpha
}

/// The mirror image of a ray travelling along `(sx, sy)` about the outward
/// normal of the struck face, wrapped into `[0°, 360°)`.  The face is given
/// as its outward direction: 0°, 90°, 180° or 270°.
pub open spec fn reflect_direction_spec(face: int, sx: int, sy: int) -> int {
    let a = atan_abs_lookup_spec(sx, sy);
    let raw = if face == 0 {
        if sy > 0 {
            a
        } else {
            360_000 - a
        }
    } else if face == 90_000 {
        if sx >= 0 {
            a
        } else {
            180_000 - a
        }
    } else if face == 180_000 {
        if sy >= 0 {
            180_000 - a
        } else {
            180_000 + a
        }
    } else {
        if sx >= 0 {
            360_000 - a
        } else {
            180_000 + a
        }
    };
    wrap_angle_spec(raw)
}

/// Reflect a ray step direction about the outward normal of a struck face.
pub fn reflect_direction(
    collision_face: i64,
    field_dist_step_comps: (i64, i64),
    brightness_tables: &BrightnessTables,
) -> (r: i64)
    requires
        brightness_tables.wf(),
        collision_face == 0 || collision_face == 90_000 || collision_face == 180_000
            || collision_face == 270_000,
        -4_000_000_000 <= field_dist_step_comps.0 <= 4_000_000_000,
        -4_000_000_000 <= field_dist_step_comps.1 <= 4_000_000_000,
    ensures
        r == reflect_direction_spec(
            collision_face as int,
            field_dist_step_comps.0 as int,
            field_dist_step_comps.1 as int,
        ),
        0 <= r < 360_000,
{
    let sx = field_dist_step_comps.0;
    let sy = field_dist_step_comps.1;
    let ratio = slope_ratio(sx, sy);
    let signed = brightness_tables.read_tangent_table(ratio);
    let atan_deg: i64 = if signed < 0 {
        -signed
    } else {
        signed
    };
    let raw: i64 = if collision_face == 0 {
        if sy > 0 {
            atan_deg
        } else {
            360_000 - atan_deg
        }
    } else if collision_face == 90_000 {
        if sx >= 0 {
            atan_deg
        } else {
            180_000 - atan_deg
        }
    } else if collision_face == 180_000 {
        if sy >= 0 {
            180_000 - atan_deg
        } else {
            180_000 + atan_deg
        }
    } else {
        if sx >= 0 {
            360_000 - atan_deg
        } else {
            180_000 + atan_deg
        }
    };
    let r = wrap_angle(raw);
    assert(0 <= r < 360_000);
    r
}

/// The sub-tile position of a point in micro-tiles: the fractional part
/// left by truncation toward zero (negative for points left of the origin,
/// which then match no face).
pub open spec fn sub_tile_spec(c: int) -> int {
    if c >= 0 {
        c % 1_000_000
    } else {
        -((-c) % 1_000_000)
    }
}

/// Which face of its tile a collision point lies on: 0 for the +x face, 1
/// for +y, 2 for -x, 3 for -y.  Each face condition carves a band 0.1 tiles
/// deep along the corresponding edge, split along the tile diagonals; the
/// conditions are tested in order and the last match wins, with face 0 as
/// the default.
pub open spec fn collision_face_spec(fx: int, fy: int) -> int {
    let f0 = 900_000 <= fx < 1_000_000 && 0 <= fy < 1_000_000
        && ((fy < 500_000 && fy > 1_000_000 - fx) || (fy >= 500_000 && fx >= fy));
    let f1 = 0 <= fx < 1_000_000 && 900_000 <= fy < 1_000_000
        && ((fx < 500_000 && fy >= 1_000_000 - fx) || (fx >= 500_000 && fx < fy));
    let f2 = 0 <= fx < 100_000 && 0 <= fy < 1_000_000
        && ((fy >= 500_000 && fy < 1_000_000 - fx) || (fy < 500_000 && fx <= fy));
    let f3 = 0 <= fx < 1_000_000 && 0 <= fy < 100_000
        && ((fx < 500_000 && fx >= fy) || (fx >= 500_000 && fy < 1_000_000 - fx));
    if f3 {
        3
    } else if f2 {
        2
    } else if f1 {
        1
    } else if f0 {
        0
    } else {
        0
    }
}

/// Classify a collision point onto a tile face; returns the face index and
/// the outward direction of that face in millidegrees.
pub fn determine_collision_face(field_ray_coords: (i64, i64)) -> (r: (i64, i64))
    requires
        -4_000_000_000 <= field_ray_coords.0 <= 4_000_000_000,
        -4_000_000_000 <= field_ray_coords.1 <= 4_000_000_000,
    ensures
        r.0 == collision_face_spec(
            sub_tile_spec(field_ray_coords.0 as int),
            sub_tile_spec(field_ray_coords.1 as int),
        ),
        r.1 == r.0 * 90_000,
        0 <= r.0 < 4,
{
    let fx: i64 = if field_ray_coords.0 >= 0 {
        field_ray_coords.0 % 1_000_000
    } else {
        -((-field_ray_coords.0) % 1_000_000)
    };
    let fy: i64 = if field_ray_coords.1 >= 0 {
        field_ray_coords.1 % 1_000_000
    } else {
        -((-field_ray_coords.1) % 1_000_000)
    };
    let f0 = 900_000 <= fx && 0 <= fy
        && ((fy < 500_000 && fy > 1_000_000 - fx) || (fy >= 500_000 && fx >= fy));
    let f1 = 0 <= fx && 900_000 <= fy
        && ((fx < 500_000 && fy >= 1_000_000 - fx) || (fx >= 500_000 && fx < fy));
    let f2 = 0 <= fx && fx < 100_000 && 0 <= fy
        && ((fy >= 500_000 && fy < 1_000_000 - fx) || (fy < 500_000 && fx <= fy));
    let f3 = 0 <= fx && 0 <= fy && fy < 100_000
        && ((fx < 500_000 && fx >= fy) || (fx >= 500_000 && fy < 1_000_000 - fx));
    if f3 {
        (3, 270_000)
    } else if f2 {
        (2, 180_000)
    } else if f1 {
        (1, 90_000)
    } else if f0 {
        (0, 0)
    } else {
        (0, 0)
    }
}

} // verus!
