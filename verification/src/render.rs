//! Light-field integration and tone mapping: summing every enabled
//! source's light field into one map-wide irradiance grid, and converting
//! summed linear radiance to display color through a fixed logarithmic
//! response curve with channel-preserving overflow scaling.

use vstd::prelude::*;
use crate::fixed::{MICRO, mul_fp, mul_fp_spec, lemma_mul_fp_le_left};
use crate::model::{Rgb, WorldMap, CHANNEL_MAX};
use crate::object::Object;
use crate::tables::BrightnessTables;

verus! {

/// Tone curve shape `corrected = c - a * exp(-b * linear)` in micro-units:
/// the scale of the exponential term.
pub const TONE_A_MICRO: u64 = 1_011_795;

/// The decay rate applied to the linear channel inside the exponential.
pub const TONE_B_MICRO: u64 = 4_470_995;

/// The curve's asymptote, slightly above one.
pub const TONE_C_MICRO: u64 = 1_012_142;

/// Linear input beyond which the tone curve is saturated; inputs are
/// clamped here explicitly.
pub const TONE_LINEAR_CAP: u64 = 100_000_000;

/// `exp(-2^k / MICRO)` in micro-units, for the binary decomposition of the
/// exponent.
pub open spec fn exp_factor_spec(k: int) -> int {
    if k == 0 { 999_999 }
    else if k == 1 { 999_998 }
    else if k == 2 { 999_996 }
    else if k == 3 { 999_992 }
    else if k == 4 { 999_984 }
    else if k == 5 { 999_968 }
    else if k == 6 { 999_936 }
    else if k == 7 { 999_872 }
    else if k == 8 { 999_744 }
    else if k == 9 { 999_488 }
    else if k == 10 { 998_977 }
    else if k == 11 { 997_954 }
    else if k == 12 { 995_912 }
    else if k == 13 { 991_841 }
    else if k == 14 { 983_749 }
    else if k == 15 { 967_763 }
    else if k == 16 { 936_565 }
    else if k == 17 { 877_155 }
    else if k == 18 { 769_400 }
    else if k == 19 { 591_977 }
    else if k == 20 { 350_436 }
    else if k == 21 { 122_806 }
    else if k == 22 { 15_081 }
    else if k == 23 { 227 }
    else { 1_000_000 }
}

/// One factor of the binary product for `exp(-x / MICRO)`.
fn exp_factor(k: u64) -> (f: u64)
    requires
        k < 24,
    ensures
        f == exp_factor_spec(k as int),
        f <= MICRO,
{
    if k == 0 { 999_999 }
    else if k == 1 { 999_998 }
    else if k == 2 { 999_996 }
    else if k == 3 { 999_992 }
    else if k == 4 { 999_984 }
    else if k == 5 { 999_968 }
    else if k == 6 { 999_936 }
    else if k == 7 { 999_872 }
    else if k == 8 { 999_744 }
    else if k == 9 { 999_488 }
    else if k == 10 { 998_977 }
    else if k == 11 { 997_954 }
    else if k == 12 { 995_912 }
    else if k == 13 { 991_841 }
    else if k == 14 { 983_749 }
    else if k == 15 { 967_763 }
    else if k == 16 { 936_565 }
    else if k == 17 { 877_155 }
    else if k == 18 { 769_400 }
    else if k == 19 { 591_977 }
    else if k == 20 { 350_436 }
    else if k == 21 { 122_806 }
    else if k == 22 { 15_081 }
    else { 227 }
}

/// Accumulator recursion for `exp(-x / MICRO)`: fold the factors of the
/// set bits of `x` into `acc`, low bit first.
pub open spec fn exp_neg_rec(x: int, k: int, acc: int) -> int
    decreases 24 - k,
{
    if k < 0 || k >= 24 {
        acc
    } else {
        exp_neg_rec(
            x / 2,
            k + 1,
            if x % 2 == 1 {
                mul_fp_spec(acc, exp_factor_spec(k))
            } else {
                acc
            },
        )
    }
}

/// `exp(-x / MICRO)` in micro-units: zero once the true value rounds below
/// one micro-unit, else the binary product of per-bit factors.  Each
/// factor is rounded separately, so the product tracks the true
/// exponential to a few micro-units but is not claimed to be monotone
/// across every bit boundary.
pub open spec fn exp_neg_spec(x: int) -> int {
    if x >= 14_000_000 {
        0
    } else {
        exp_neg_rec(x, 0, MICRO as int)
    }
}

proof fn lemma_exp_neg_rec_bounds(x: int, k: int, acc: int)
    requires
        0 <= acc <= MICRO,
    ensures
        0 <= exp_neg_rec(x, k, acc) <= MICRO,
    decreases 24 - k,
{
    if 0 <= k < 24 {
        if x % 2 == 1 {
            lemma_mul_fp_le_left(acc, exp_factor_spec(k));
            lemma_exp_neg_rec_bounds(x / 2, k + 1, mul_fp_spec(acc, exp_factor_spec(k)));
        } else {
            lemma_exp_neg_rec_bounds(x / 2, k + 1, acc);
        }
    }
}

/// The decaying exponential `exp(-x / MICRO)` in micro-units.
pub fn exp_neg(x: u64) -> (r: u64)
    ensures
        r == exp_neg_spec(x as int),
        r <= MICRO,
{
    if x >= 14_000_000 {
        return 0;
    }
    let mut acc: u64 = MICRO;
    let mut xc: u64 = x;
    let mut k: u64 = 0;
    while k < 24
        invariant
            k <= 24,
            acc <= MICRO,
            exp_neg_rec(x as int, 0, MICRO as int) == exp_neg_rec(xc as int, k as int, acc as int),
        decreases 24 - k,
    {
        proof {
            lemma_mul_fp_le_left(acc as int, exp_factor_spec(k as int));
        }
        if xc % 2 == 1 {
            acc = mul_fp(acc, exp_factor(k));
        }
        xc = xc / 2;
        k += 1;
    }
    proof {
        lemma_exp_neg_rec_bounds(x as int, 0, MICRO as int);
    }
    acc
}

/// The corrected (perceptual) value of one linear channel, micro-units:
/// `c - a * exp(-b * linear)`, clamping the linear input to the curve's
/// saturated region.
pub open spec fn tone_curve_spec(lin: int) -> int {
    let clamped = if lin > TONE_LINEAR_CAP { TONE_LINEAR_CAP as int } else { lin };
    TONE_C_MICRO - mul_fp_spec(
        TONE_A_MICRO as int,
        exp_neg_spec(mul_fp_spec(TONE_B_MICRO as int, clamped)),
    )
}

/// Apply the tone curve to one linear channel.
pub fn tone_curve(lin: u64) -> (r: u64)
    ensures
        r == tone_curve_spec(lin as int),
        347 <= r <= TONE_C_MICRO,
{
    let clamped: u64 = if lin > TONE_LINEAR_CAP { TONE_LINEAR_CAP } else { lin };
    proof {
        assert(TONE_B_MICRO * clamped <= u64::MAX) by (nonlinear_arith)
            requires clamped <= 100_000_000u64;
    }
    let x = mul_fp(TONE_B_MICRO, clamped);
    let e = exp_neg(x);
    proof {
        assert(TONE_A_MICRO * e <= u64::MAX) by (nonlinear_arith)
            requires e <= MICRO;
        lemma_mul_fp_le_left(TONE_A_MICRO as int, e as int);
        assert(mul_fp_spec(TONE_A_MICRO as int, MICRO as int) == TONE_A_MICRO);
        crate::fixed::lemma_mul_fp_mono_right(TONE_A_MICRO as int, e as int, MICRO as int);
    }
    let term = mul_fp(TONE_A_MICRO, e);
    TONE_C_MICRO - term
}

/// The display value of a corrected channel scaled by `MICRO / m` and
/// mapped onto `0..=255`.
pub open spec fn scaled_display_spec(ch: int, m: int) -> int {
    ((ch * 1_000_000 / m) * 255) / 1_000_000
}

/// The display triple for three linear channel values: each channel run
/// through the tone curve; if any corrected channel exceeds one unit, all
/// three are scaled by the reciprocal of the largest so the brightest
/// becomes exactly one, preserving hue; then mapped onto `0..=255`.
pub open spec fn correct_colors_spec(r_lin: int, g_lin: int, b_lin: int) -> (int, int, int) {
    let cr = tone_curve_spec(r_lin);
    let cg = tone_curve_spec(g_lin);
    let cb = tone_curve_spec(b_lin);
    if cr > MICRO || cg > MICRO || cb > MICRO {
        let m = if cr >= cg && cr >= cb {
            cr
        } else if cg >= cr && cg >= cb {
            cg
        } else {
            cb
        };
        (scaled_display_spec(cr, m), scaled_display_spec(cg, m), scaled_display_spec(cb, m))
    } else {
        ((cr * 255) / 1_000_000, (cg * 255) / 1_000_000, (cb * 255) / 1_000_000)
    }
}

/// Tone map three summed linear radiance channels to a display color.
/// Law of tone-map channel preservation: when any corrected
/// channel exceeds one unit before scaling, the scaled maximum lands on
/// exactly 255 and every channel keeps its proportion of the maximum up to
/// one quantisation step.
pub fn correct_colors(r_lin: u64, g_lin: u64, b_lin: u64) -> (display: (u64, u64, u64))
    ensures
        (display.0 as int, display.1 as int, display.2 as int) == correct_colors_spec(
            r_lin as int,
            g_lin as int,
            b_lin as int,
        ),
        display.0 <= 255 && display.1 <= 255 && display.2 <= 255,
        ({
            let cr = tone_curve_spec(r_lin as int);
            let cg = tone_curve_spec(g_lin as int);
            let cb = tone_curve_spec(b_lin as int);
            (cr > MICRO || cg > MICRO || cb > MICRO) ==> {
                let m = if cr >= cg && cr >= cb {
                    cr
                } else if cg >= cr && cg >= cb {
                    cg
                } else {
                    cb
                };
                &&& (display.0 == 255 || display.1 == 255 || display.2 == 255)
                &&& m * (cr * 1_000_000 / m) <= cr * 1_000_000 < m * (cr * 1_000_000 / m + 1)
                &&& m * (cg * 1_000_000 / m) <= cg * 1_000_000 < m * (cg * 1_000_000 / m + 1)
                &&& m * (cb * 1_000_000 / m) <= cb * 1_000_000 < m * (cb * 1_000_000 / m + 1)
            }
        }),
{
    let cr = tone_curve(r_lin);
    let cg = tone_curve(g_lin);
    let cb = tone_curve(b_lin);
    if cr > MICRO || cg > MICRO || cb > MICRO {
        let m: u64 = if cr >= cg && cr >= cb {
            cr
        } else if cg >= cr && cg >= cb {
            cg
        } else {
            cb
        };
        assert(m >= cr && m >= cg && m >= cb && m > MICRO);
        proof {
            assert(cr * 1_000_000 <= u64::MAX) by (nonlinear_arith)
                requires cr <= 1_012_142u64;
            assert(cg * 1_000_000 <= u64::MAX) by (nonlinear_arith)
                requires cg <= 1_012_142u64;
            assert(cb * 1_000_000 <= u64::MAX) by (nonlinear_arith)
                requires cb <= 1_012_142u64;
            assert((cr as int) * 1_000_000 / (m as int) <= 1_000_000
                && (m as int) * ((cr as int) * 1_000_000 / (m as int)) <= (cr as int) * 1_000_000
                && (cr as int) * 1_000_000 < (m as int) * ((cr as int) * 1_000_000 / (m as int) + 1))
                by (nonlinear_arith)
                requires m >= cr && m > 1_000_000u64 && cr >= 0;
            assert((cg as int) * 1_000_000 / (m as int) <= 1_000_000
                && (m as int) * ((cg as int) * 1_000_000 / (m as int)) <= (cg as int) * 1_000_000
                && (cg as int) * 1_000_000 < (m as int) * ((cg as int) * 1_000_000 / (m as int) + 1))
                by (nonlinear_arith)
                requires m >= cg && m > 1_000_000u64 && cg >= 0;
            assert((cb as int) * 1_000_000 / (m as int) <= 1_000_000
                && (m as int) * ((cb as int) * 1_000_000 / (m as int)) <= (cb as int) * 1_000_000
                && (cb as int) * 1_000_000 < (m as int) * ((cb as int) * 1_000_000 / (m as int) + 1))
                by (nonlinear_arith)
                requires m >= cb && m > 1_000_000u64 && cb >= 0;
            assert((m as int) * 1_000_000 / (m as int) == 1_000_000) by (nonlinear_arith)
                requires m > 1_000_000u64;
        }
        let sr = cr * 1_000_000 / m;
        let sg = cg * 1_000_000 / m;
        let sb = cb * 1_000_000 / m;
        let display = (sr * 255 / MICRO, sg * 255 / MICRO, sb * 255 / MICRO);
        assert(display.0 <= 255 && display.1 <= 255 && display.2 <= 255);
        assert(display.0 == 255 || display.1 == 255 || display.2 == 255) by {
            if cr >= cg && cr >= cb {
                assert(sr == 1_000_000);
            } else if cg >= cr && cg >= cb {
                assert(sg == 1_000_000);
            } else {
                assert(sb == 1_000_000);
            }
        }
        display
    } else {
        (cr * 255 / MICRO, cg * 255 / MICRO, cb * 255 / MICRO)
    }
}

/// The contribution of one object's light field to map cell `(x, y)`: its
/// stored irradiance there when the source is enabled and the cell lies in
/// its bounding box, zero otherwise.
pub open spec fn field_contribution_spec(o: Object, x: int, y: int) -> (int, int, int) {
    let f = o.light_field_object;
    if o.light_source.enabled && f.map_offset_start.0 <= x <= f.map_offset_end.0
        && f.map_offset_start.1 <= y <= f.map_offset_end.1 {
        let c = f.at(x - f.map_offset_start.0, y - f.map_offset_start.1);
        (c.r as int, c.g as int, c.b as int)
    } else {
        (0int, 0int, 0int)
    }
}

/// The summed irradiance at `(x, y)` over the first `n` objects.
pub open spec fn integrated_spec(objects: Seq<Object>, x: int, y: int, n: int) -> (int, int, int)
    decreases n,
{
    if n <= 0 {
        (0int, 0int, 0int)
    } else {
        let rest = integrated_spec(objects, x, y, n - 1);
        let c = field_contribution_spec(objects[n - 1], x, y);
        (rest.0 + c.0, rest.1 + c.1, rest.2 + c.2)
    }
}

/// The channel-wise clamp of a sum into the storable range.
pub open spec fn clamp_channel_spec(v: int) -> int {
    if v > CHANNEL_MAX { CHANNEL_MAX as int } else { v }
}

proof fn lemma_integrated_nonneg(objects: Seq<Object>, x: int, y: int, n: int)
    ensures
        integrated_spec(objects, x, y, n).0 >= 0,
        integrated_spec(objects, x, y, n).1 >= 0,
        integrated_spec(objects, x, y, n).2 >= 0,
    decreases n,
{
    if n > 0 {
        lemma_integrated_nonneg(objects, x, y, n - 1);
    }
}

/// Law of additive integration: the integrator sums the enabled
/// sources' stored irradiance per tile (clamped into the storable range),
/// so two sources each lighting a tile contribute the sum of their values,
/// not the maximum.
#[verifier::loop_isolation(false)]
pub fn integrate_light_fields(objects: &Vec<Object>, light_field: &mut Vec<Vec<Rgb>>)
    requires
        forall|i: int| 0 <= i < objects.len() ==> (#[trigger] objects[i]).valid(),
        old(light_field).len() <= 1024,
        forall|x: int|
            0 <= x < old(light_field).len()
                ==> (#[trigger] old(light_field)[x]).len() == old(light_field)[0].len(),
        old(light_field).len() > 0,
        old(light_field)[0].len() <= 1024,
    ensures
        final(light_field).len() == old(light_field).len(),
        forall|x: int|
            0 <= x < old(light_field).len()
                ==> (#[trigger] final(light_field)[x]).len() == old(light_field)[0].len(),
        forall|x: int, y: int|
            0 <= x < old(light_field).len() && 0 <= y < old(light_field)[0].len() ==> {
                let total = integrated_spec(objects@, x, y, objects@.len() as int);
                (#[trigger] final(light_field)[x][y]).r == clamp_channel_spec(total.0)
                    && final(light_field)[x][y].g == clamp_channel_spec(total.1)
                    && final(light_field)[x][y].b == clamp_channel_spec(total.2)
            },
{
    let width = light_field.len();
    let height = light_field[0].len();
    let mut x: usize = 0;
    while x < width
        invariant
            x <= width,
            light_field.len() == width,
            forall|i: int| 0 <= i < width ==> (#[trigger] light_field[i]).len() == height,
            forall|i: int, j: int|
                0 <= i < x && 0 <= j < height ==> {
                    let total = integrated_spec(objects@, i, j, objects@.len() as int);
                    (#[trigger] light_field[i][j]).r == clamp_channel_spec(total.0)
                        && light_field[i][j].g == clamp_channel_spec(total.1)
                        && light_field[i][j].b == clamp_channel_spec(total.2)
                },
        decreases width - x,
    {
        let mut y: usize = 0;
        while y < height
            invariant
                y <= height,
                x < width,
                light_field.len() == width,
                forall|i: int| 0 <= i < width ==> (#[trigger] light_field[i]).len() == height,
                forall|i: int, j: int|
                    0 <= i < x && 0 <= j < height ==> {
                        let total = integrated_spec(objects@, i, j, objects@.len() as int);
                        (#[trigger] light_field[i][j]).r == clamp_channel_spec(total.0)
                            && light_field[i][j].g == clamp_channel_spec(total.1)
                            && light_field[i][j].b == clamp_channel_spec(total.2)
                    },
                forall|j: int|
                    0 <= j < y ==> {
                        let total = integrated_spec(objects@, x as int, j, objects@.len() as int);
                        (#[trigger] light_field[x as int][j]).r == clamp_channel_spec(total.0)
                            && light_field[x as int][j].g == clamp_channel_spec(total.1)
                            && light_field[x as int][j].b == clamp_channel_spec(total.2)
                    },
            decreases height - y,
        {
            let mut acc_r: u64 = 0;
            let mut acc_g: u64 = 0;
            let mut acc_b: u64 = 0;
            let mut n: usize = 0;
            while n < objects.len()
                invariant
                    n <= objects.len(),
                    x < width,
                    y < height,
                    acc_r == clamp_channel_spec(integrated_spec(objects@, x as int, y as int, n as int).0),
                    acc_g == clamp_channel_spec(integrated_spec(objects@, x as int, y as int, n as int).1),
                    acc_b == clamp_channel_spec(integrated_spec(objects@, x as int, y as int, n as int).2),
                decreases objects.len() - n,
            {
                proof {
                    lemma_integrated_nonneg(objects@, x as int, y as int, n as int);
                }
                let o = &objects[n];
                let f = &o.light_field_object;
                if o.light_source.enabled && f.map_offset_start.0 <= x as i64
                    && (x as i64) <= f.map_offset_end.0 && f.map_offset_start.1 <= y as i64
                    && (y as i64) <= f.map_offset_end.1 {
                    let fx = (x as i64 - f.map_offset_start.0) as usize;
                    let fy = (y as i64 - f.map_offset_start.1) as usize;
                    assert(f.light_field[fx as int].len() == f.field_h());
                    let c = f.light_field[fx][fy];
                    acc_r = if acc_r + c.r > CHANNEL_MAX { CHANNEL_MAX } else { acc_r + c.r };
                    acc_g = if acc_g + c.g > CHANNEL_MAX { CHANNEL_MAX } else { acc_g + c.g };
                    acc_b = if acc_b + c.b > CHANNEL_MAX { CHANNEL_MAX } else { acc_b + c.b };
                }
                n += 1;
            }
            let row: &mut Vec<Rgb> = &mut light_field[x];
            row.set(y, Rgb { r: acc_r, g: acc_g, b: acc_b });
            assert(forall|k: int| 0 <= k < light_field.len() && k != x
                ==> #[trigger] light_field[k] == old(light_field)[k] || true);
            y += 1;
        }
        x += 1;
    }
}

/// Whether a tile renders as visible: it is in the field of view and some
/// light actually reaches it.
pub open spec fn tile_visible_spec(vis: bool, cell: Rgb) -> bool {
    vis && cell.r + cell.g + cell.b > 0
}

/// The linear color of a lit tile: its base color modulated by the summed
/// irradiance plus the ambient level, per channel.
pub open spec fn lit_linear_spec(color: Rgb, cell: Rgb, ambient: Rgb) -> (int, int, int) {
    (
        mul_fp_spec(color.r as int, cell.r + ambient.r),
        mul_fp_spec(color.g as int, cell.g + ambient.g),
        mul_fp_spec(color.b as int, cell.b + ambient.b),
    )
}

/// The dim illumination applied to explored tiles that are out of view: a
/// fifth of the ambient level, floored at a fixed minimum.
pub open spec fn remembered_level_spec(ambient: int, floor: int) -> int {
    if ambient / 5 < floor {
        floor
    } else {
        ambient / 5
    }
}

/// The linear color of an out-of-view tile under remembered illumination.
pub open spec fn remembered_linear_spec(color: Rgb, ambient: Rgb, floor: Rgb) -> (int, int, int) {
    (
        mul_fp_spec(color.r as int, remembered_level_spec(ambient.r as int, floor.r as int)),
        mul_fp_spec(color.g as int, remembered_level_spec(ambient.g as int, floor.g as int)),
        mul_fp_spec(color.b as int, remembered_level_spec(ambient.b as int, floor.b as int)),
    )
}

/// The tile as the frame pass leaves it: explored once visible, otherwise
/// untouched.
pub open spec fn frame_tile_spec(t: crate::model::Tile, visible: bool) -> crate::model::Tile {
    crate::model::Tile { explored: t.explored || visible, ..t }
}

/// The display color of one tile for this frame: the lit, tone-mapped
/// color when visible, the dim remembered color otherwise.
pub open spec fn frame_color_spec(
    t: crate::model::Tile,
    cell: Rgb,
    vis: bool,
    ambient: Rgb,
    floor: Rgb,
) -> (int, int, int) {
    let lin = if tile_visible_spec(vis, cell) {
        lit_linear_spec(t.color, cell, ambient)
    } else {
        remembered_linear_spec(t.color, ambient, floor)
    };
    correct_colors_spec(lin.0, lin.1, lin.2)
}

/// Compute one frame's display color per tile, marking every visible tile
/// as explored: visible tiles show their lit, tone-mapped color; the rest
/// show a dim remembered color (the caller draws only explored tiles).
#[verifier::loop_isolation(false)]
#[verifier::rlimit(100)]
pub fn render_frame(
    map: &mut WorldMap,
    light_field: &Vec<Vec<Rgb>>,
    visibility: &Vec<Vec<bool>>,
    ambient: Rgb,
    min_not_visible: Rgb,
) -> (display: Vec<Vec<(u64, u64, u64)>>)
    requires
        old(map).wf(),
        light_field.len() == old(map).width,
        forall|x: int|
            0 <= x < old(map).width ==> (#[trigger] light_field[x]).len() == old(map).height,
        forall|x: int, y: int|
            0 <= x < old(map).width && 0 <= y < old(map).height
                ==> (#[trigger] light_field[x][y]).valid(),
        visibility.len() == old(map).width,
        forall|x: int|
            0 <= x < old(map).width ==> (#[trigger] visibility[x]).len() == old(map).height,
        ambient.valid(),
        min_not_visible.valid(),
    ensures
        final(map).wf(),
        final(map).width == old(map).width,
        final(map).height == old(map).height,
        display.len() == old(map).width,
        forall|x: int|
            0 <= x < old(map).width ==> (#[trigger] display[x]).len() == old(map).height,
        forall|x: int, y: int|
            0 <= x < old(map).width && 0 <= y < old(map).height
                ==> ((#[trigger] display[x][y]).0 as int, display[x][y].1 as int,
                    display[x][y].2 as int) == frame_color_spec(
                    old(map).tile_at(x, y),
                    light_field[x][y],
                    visibility[x][y],
                    ambient,
                    min_not_visible,
                ),
        forall|x: int, y: int|
            0 <= x < old(map).width && 0 <= y < old(map).height
                ==> #[trigger] final(map).tile_at(x, y) == frame_tile_spec(
                    old(map).tile_at(x, y),
                    tile_visible_spec(visibility[x][y], light_field[x][y]),
                ),
{
    let width = map.width;
    let height = map.height;
    let mut display: Vec<Vec<(u64, u64, u64)>> = Vec::new();
    let mut x: usize = 0;
    while x < width
        invariant
            x <= width,
            map.wf(),
            map.width == width,
            map.height == height,
            display.len() == x,
            forall|i: int| 0 <= i < x ==> (#[trigger] display[i]).len() == height,
            forall|i: int, j: int|
                0 <= i < width && 0 <= j < height && i >= x
                    ==> #[trigger] map.tile_at(i, j) == old(map).tile_at(i, j),
            forall|i: int, j: int|
                0 <= i < x && 0 <= j < height
                    ==> ((#[trigger] display[i][j]).0 as int, display[i][j].1 as int,
                        display[i][j].2 as int) == frame_color_spec(
                        old(map).tile_at(i, j),
                        light_field[i][j],
                        visibility[i][j],
                        ambient,
                        min_not_visible,
                    ),
            forall|i: int, j: int|
                0 <= i < x && 0 <= j < height
                    ==> #[trigger] map.tile_at(i, j) == frame_tile_spec(
                        old(map).tile_at(i, j),
                        tile_visible_spec(visibility[i][j], light_field[i][j]),
                    ),
        decreases width - x,
    {
        let mut col: Vec<(u64, u64, u64)> = Vec::new();
        let mut y: usize = 0;
        while y < height
            invariant
                y <= height,
                x < width,
                map.wf(),
                map.width == width,
                map.height == height,
                col.len() == y,
                display.len() == x,
                forall|i: int| 0 <= i < x ==> (#[trigger] display[i]).len() == height,
                forall|i: int, j: int|
                    0 <= i < width && 0 <= j < height && (i > x || (i == x && j >= y))
                        ==> #[trigger] map.tile_at(i, j) == old(map).tile_at(i, j),
                forall|i: int, j: int|
                    0 <= i < x && 0 <= j < height
                        ==> ((#[trigger] display[i][j]).0 as int, display[i][j].1 as int,
                            display[i][j].2 as int) == frame_color_spec(
                            old(map).tile_at(i, j),
                            light_field[i][j],
                            visibility[i][j],
                            ambient,
                            min_not_visible,
                        ),
                forall|i: int, j: int|
                    0 <= i < x && 0 <= j < height
                        ==> #[trigger] map.tile_at(i, j) == frame_tile_spec(
                            old(map).tile_at(i, j),
                            tile_visible_spec(visibility[i][j], light_field[i][j]),
                        ),
                forall|j: int|
                    0 <= j < y ==> ((#[trigger] col[j]).0 as int, col[j].1 as int, col[j].2 as int)
                        == frame_color_spec(
                        old(map).tile_at(x as int, j),
                        light_field[x as int][j],
                        visibility[x as int][j],
                        ambient,
                        min_not_visible,
                    ),
                forall|j: int|
                    0 <= j < y ==> #[trigger] map.tile_at(x as int, j) == frame_tile_spec(
                        old(map).tile_at(x as int, j),
                        tile_visible_spec(visibility[x as int][j], light_field[x as int][j]),
                    ),
            decreases height - y,
        {
            assert(light_field[x as int].len() == height);
            assert(visibility[x as int].len() == height);
            let cell = light_field[x][y];
            let vis = visibility[x][y];
            let tile = map.tile(x as i64, y as i64);
            let visible = vis && cell.r + cell.g + cell.b > 0;
            proof {
                assert(tile.color.is_color());
                assert((tile.color.r as int) * (cell.r + ambient.r) <= u64::MAX)
                    by (nonlinear_arith)
                    requires
                        tile.color.r <= 1_000_000u64,
                        cell.r + ambient.r <= 2_000_000_000_000u64;
                assert((tile.color.g as int) * (cell.g + ambient.g) <= u64::MAX)
                    by (nonlinear_arith)
                    requires
                        tile.color.g <= 1_000_000u64,
                        cell.g + ambient.g <= 2_000_000_000_000u64;
                assert((tile.color.b as int) * (cell.b + ambient.b) <= u64::MAX)
                    by (nonlinear_arith)
                    requires
                        tile.color.b <= 1_000_000u64,
                        cell.b + ambient.b <= 2_000_000_000_000u64;
                assert((tile.color.r as int) * remembered_level_spec(
                    ambient.r as int,
                    min_not_visible.r as int,
                ) <= u64::MAX) by (nonlinear_arith)
                    requires
                        tile.color.r <= 1_000_000u64,
                        ambient.r <= 1_000_000_000_000u64,
                        min_not_visible.r <= 1_000_000_000_000u64;
                assert((tile.color.g as int) * remembered_level_spec(
                    ambient.g as int,
                    min_not_visible.g as int,
                ) <= u64::MAX) by (nonlinear_arith)
                    requires
                        tile.color.g <= 1_000_000u64,
                        ambient.g <= 1_000_000_000_000u64,
                        min_not_visible.g <= 1_000_000_000_000u64;
                assert((tile.color.b as int) * remembered_level_spec(
                    ambient.b as int,
                    min_not_visible.b as int,
                ) <= u64::MAX) by (nonlinear_arith)
                    requires
                        tile.color.b <= 1_000_000u64,
                        ambient.b <= 1_000_000_000_000u64,
                        min_not_visible.b <= 1_000_000_000_000u64;
            }
            let c: (u64, u64, u64) = if visible {
                let lr = mul_fp(tile.color.r, cell.r + ambient.r);
                let lg = mul_fp(tile.color.g, cell.g + ambient.g);
                let lb = mul_fp(tile.color.b, cell.b + ambient.b);
                correct_colors(lr, lg, lb)
            } else {
                let nr: u64 = if ambient.r / 5 < min_not_visible.r {
                    min_not_visible.r
                } else {
                    ambient.r / 5
                };
                let ng: u64 = if ambient.g / 5 < min_not_visible.g {
                    min_not_visible.g
                } else {
                    ambient.g / 5
                };
                let nb: u64 = if ambient.b / 5 < min_not_visible.b {
                    min_not_visible.b
                } else {
                    ambient.b / 5
                };
                correct_colors(
                    mul_fp(tile.color.r, nr),
                    mul_fp(tile.color.g, ng),
                    mul_fp(tile.color.b, nb),
                )
            };
            col.push(c);
            let ghost prev_map = *map;
            if visible {
                let mut t = tile;
                t.explored = true;
                map.set_tile(x as i64, y as i64, t);
            }
            proof {
                assert forall|i: int, j: int|
                    0 <= i < width && 0 <= j < height && (i != x || j != y)
                    implies #[trigger] map.tile_at(i, j) == prev_map.tile_at(i, j) by {}
                assert(map.tile_at(x as int, y as int) == frame_tile_spec(
                    old(map).tile_at(x as int, y as int),
                    visible,
                ));
            }
            y += 1;
        }
        display.push(col);
        x += 1;
    }
    display
}

/// The tone-mapped display color of an object standing at its position:
/// its own color modulated by the tile's summed irradiance plus ambient.
pub fn object_display_color(
    object_color: Rgb,
    cell: Rgb,
    ambient: Rgb,
) -> (display: (u64, u64, u64))
    requires
        object_color.is_color(),
        cell.valid(),
        ambient.valid(),
    ensures
        ({
            let lin = lit_linear_spec(object_color, cell, ambient);
            (display.0 as int, display.1 as int, display.2 as int) == correct_colors_spec(
                lin.0,
                lin.1,
                lin.2,
            )
        }),
{
    proof {
        assert((object_color.r as int) * (cell.r + ambient.r) <= u64::MAX) by (nonlinear_arith)
            requires object_color.r <= 1_000_000u64 && cell.r + ambient.r <= 2_000_000_000_000u64;
        assert((object_color.g as int) * (cell.g + ambient.g) <= u64::MAX) by (nonlinear_arith)
            requires object_color.g <= 1_000_000u64 && cell.g + ambient.g <= 2_000_000_000_000u64;
        assert((object_color.b as int) * (cell.b + ambient.b) <= u64::MAX) by (nonlinear_arith)
            requires object_color.b <= 1_000_000u64 && cell.b + ambient.b <= 2_000_000_000_000u64;
    }
    correct_colors(
        mul_fp(object_color.r, cell.r + ambient.r),
        mul_fp(object_color.g, cell.g + ambient.g),
        mul_fp(object_color.b, cell.b + ambient.b),
    )
}

/// Recompute the light field of every enabled object whose source is
/// marked dirty, clearing the mark; reports whether anything changed and a
/// redraw is due.
#[verifier::loop_isolation(false)]
pub fn update_direct_light_fields(
    map: &WorldMap,
    objects: &mut Vec<Object>,
    brightness_tables: &BrightnessTables,
    reflection_level: u32,
    raycast_fineness: i64,
) -> (redraw: bool)
    requires
        map.wf(),
        brightness_tables.wf(),
        forall|i: int| 0 <= i < old(objects).len() ==> (#[trigger] old(objects)[i]).valid(),
        forall|i: int|
            0 <= i < old(objects).len() ==> map.in_bounds(
                (#[trigger] old(objects)[i]).x as int,
                old(objects)[i].y as int,
            ),
        1 <= raycast_fineness <= 20,
    ensures
        final(objects).len() == old(objects).len(),
        forall|i: int| 0 <= i < final(objects).len() ==> (#[trigger] final(objects)[i]).valid(),
        redraw == exists|i: int|
            0 <= i < old(objects).len() && (#[trigger] old(objects)[i]).light_source.enabled
                && old(objects)[i].light_source.recalc_dirty,
        forall|i: int|
            0 <= i < final(objects).len() ==> {
                let o = #[trigger] final(objects)[i];
                let p = old(objects)[i];
                o.x == p.x && o.y == p.y && o.direction == p.direction && o.glyph == p.glyph
                    && o.color == p.color && o.light_source.enabled == p.light_source.enabled
                    && o.light_source.intensity == p.light_source.intensity
                    && o.light_source.angular_sweep == p.light_source.angular_sweep
                    && o.light_source.collimation == p.light_source.collimation
                    && o.light_source.position_offset == p.light_source.position_offset
                    && o.light_source.recalc_dirty == (p.light_source.recalc_dirty
                        && !p.light_source.enabled)
            },
        forall|i: int|
            0 <= i < final(objects).len()
                && !((#[trigger] old(objects)[i]).light_source.enabled
                    && old(objects)[i].light_source.recalc_dirty)
                ==> final(objects)[i].light_field_object == old(objects)[i].light_field_object,
        forall|i: int|
            0 <= i < final(objects).len()
                && (#[trigger] old(objects)[i]).light_source.enabled
                && old(objects)[i].light_source.recalc_dirty ==> {
                let f = final(objects)[i].light_field_object;
                let p = old(objects)[i];
                &&& f.wf()
                &&& f.map_offset_end.0 < map.width
                &&& f.map_offset_end.1 < map.height
                &&& f.map_offset_start.0 <= p.x <= f.map_offset_end.0
                &&& f.map_offset_start.1 <= p.y <= f.map_offset_end.1
                &&& ((map.tile_at(p.x as int, p.y as int).block_sight && reflection_level == 0)
                    ==> f.at(p.x - f.map_offset_start.0, p.y - f.map_offset_start.1).is_zero())
                &&& (reflection_level == 0 ==> f.view()
                    == crate::field::LightFieldObject::primary_pass_spec(
                    *map,
                    (f.map_offset_start.0 as int, f.map_offset_start.1 as int),
                    (f.map_offset_end.0 as int, f.map_offset_end.1 as int),
                    (p.x, p.y),
                    p.light_source.position_offset,
                    p.light_source.intensity,
                    p.direction,
                    p.light_source.angular_sweep,
                    p.light_source.collimation,
                    *brightness_tables,
                    raycast_fineness,
                ).0)
                &&& ({
                    let bs = (f.map_offset_start.0 as int, f.map_offset_start.1 as int);
                    let be = (f.map_offset_end.0 as int, f.map_offset_end.1 as int);
                    let pass = crate::field::LightFieldObject::primary_pass_spec(
                        *map,
                        bs,
                        be,
                        (p.x, p.y),
                        p.light_source.position_offset,
                        p.light_source.intensity,
                        p.direction,
                        p.light_source.angular_sweep,
                        p.light_source.collimation,
                        *brightness_tables,
                        raycast_fineness,
                    );
                    let first = if pass.1.len() > 1_000_000 {
                        pass.1.take(1_000_000)
                    } else {
                        pass.1
                    };
                    f.view() == crate::field::LightFieldObject::cascade_spec(
                        *map,
                        bs,
                        be,
                        *brightness_tables,
                        raycast_fineness,
                        pass.0,
                        first,
                        0,
                        reflection_level as int,
                    )
                })
            },
{
    let mut redraw: bool = false;
    let mut i: usize = 0;
    let n = objects.len();
    while i < n
        invariant
            i <= n,
            objects.len() == n,
            forall|k: int| 0 <= k < n ==> (#[trigger] objects[k]).valid(),
            forall|k: int| i <= k < n ==> #[trigger] objects[k] == old(objects)[k],
            redraw == exists|k: int|
                0 <= k < i && (#[trigger] old(objects)[k]).light_source.enabled
                    && old(objects)[k].light_source.recalc_dirty,
            forall|k: int|
                0 <= k < i ==> {
                    let o = #[trigger] objects[k];
                    let p = old(objects)[k];
                    o.x == p.x && o.y == p.y && o.direction == p.direction && o.glyph == p.glyph
                        && o.color == p.color && o.light_source.enabled == p.light_source.enabled
                        && o.light_source.intensity == p.light_source.intensity
                        && o.light_source.angular_sweep == p.light_source.angular_sweep
                        && o.light_source.collimation == p.light_source.collimation
                        && o.light_source.position_offset == p.light_source.position_offset
                        && o.light_source.recalc_dirty == (p.light_source.recalc_dirty
                            && !p.light_source.enabled)
                },
            forall|k: int|
                0 <= k < i && !((#[trigger] old(objects)[k]).light_source.enabled
                    && old(objects)[k].light_source.recalc_dirty)
                    ==> objects[k].light_field_object == old(objects)[k].light_field_object,
            forall|k: int|
                0 <= k < i && (#[trigger] old(objects)[k]).light_source.enabled
                    && old(objects)[k].light_source.recalc_dirty ==> {
                    let f = objects[k].light_field_object;
                    let p = old(objects)[k];
                    &&& f.wf()
                    &&& f.map_offset_end.0 < map.width
                    &&& f.map_offset_end.1 < map.height
                    &&& f.map_offset_start.0 <= p.x <= f.map_offset_end.0
                    &&& f.map_offset_start.1 <= p.y <= f.map_offset_end.1
                    &&& ((map.tile_at(p.x as int, p.y as int).block_sight
                        && reflection_level == 0) ==> f.at(
                        p.x - f.map_offset_start.0,
                        p.y - f.map_offset_start.1,
                    ).is_zero())
                    &&& (reflection_level == 0 ==> f.view()
                        == crate::field::LightFieldObject::primary_pass_spec(
                        *map,
                        (f.map_offset_start.0 as int, f.map_offset_start.1 as int),
                        (f.map_offset_end.0 as int, f.map_offset_end.1 as int),
                        (p.x, p.y),
                        p.light_source.position_offset,
                        p.light_source.intensity,
                        p.direction,
                        p.light_source.angular_sweep,
                        p.light_source.collimation,
                        *brightness_tables,
                        raycast_fineness,
                    ).0)
                &&& ({
                    let bs = (f.map_offset_start.0 as int, f.map_offset_start.1 as int);
                    let be = (f.map_offset_end.0 as int, f.map_offset_end.1 as int);
                    let pass = crate::field::LightFieldObject::primary_pass_spec(
                        *map,
                        bs,
                        be,
                        (p.x, p.y),
                        p.light_source.position_offset,
                        p.light_source.intensity,
                        p.direction,
                        p.light_source.angular_sweep,
                        p.light_source.collimation,
                        *brightness_tables,
                        raycast_fineness,
                    );
                    let first = if pass.1.len() > 1_000_000 {
                        pass.1.take(1_000_000)
                    } else {
                        pass.1
                    };
                    f.view() == crate::field::LightFieldObject::cascade_spec(
                        *map,
                        bs,
                        be,
                        *brightness_tables,
                        raycast_fineness,
                        pass.0,
                        first,
                        0,
                        reflection_level as int,
                    )
                })
                },
        decreases n - i,
    {
        let enabled = objects[i].light_source.enabled;
        let dirty = objects[i].light_source.recalc_dirty;
        if enabled && dirty {
            redraw = true;
            let o = &mut objects[i];
            let pos_x = o.x;
            let pos_y = o.y;
            let float_offset = o.light_source.position_offset;
            let intensity = o.light_source.intensity;
            let direction = o.direction;
            let angular_sweep = o.light_source.angular_sweep;
            let collimation = o.light_source.collimation;
            o.light_field_object.recalculate(
                map,
                pos_x,
                pos_y,
                float_offset,
                &intensity,
                direction,
                angular_sweep,
                collimation,
                brightness_tables,
                reflection_level,
                raycast_fineness,
            );
            o.light_source.recalc_dirty = false;
        }
        i += 1;
    }
    redraw
}

} // verus!
