//! Integer trigonometry in millidegrees and micro-units.
//!
//! The inverse tangent uses the quadratic approximation
//! `atan(x) ~ 45°·x + 15.642°·x·(1 − x)` on ratios up to one (exact at ratio
//! zero and one), extended to larger ratios through the complement identity;
//! sine and cosine use the classical rational approximation
//! `sin(a) = 4a(180 − a) / (40500 − a(180 − a))` (exact at 0°, 30°, 90°).
//! Every function is proved equal to its spec mirror.
//!
//! These are approximations, and the contracts are exact about the
//! approximation, not about the transcendental functions: the inverse
//! tangent deviates from the true arctangent by up to about a quarter of a
//! degree (worst near ratio one half), and the sine by up to about two
//! parts in a thousand.  Angles derived through them — alpha angles,
//! reflection directions, circular means — carry that tolerance.

use vstd::prelude::*;
use crate::fixed::MICRO;

verus! {

/// Largest tangent ratio the engine distinguishes: 100.0 in micro-units.
pub const MAX_RATIO_MICRO: i64 = 100_000_000;

/// Inverse tangent in millidegrees of a ratio in `[0, MICRO]`.
pub open spec fn atan_unit_spec(x: int) -> int {
    (45000 * x + 15642 * ((x * (1000000 - x)) / 1000000)) / 1000000
}

/// Inverse tangent in millidegrees of a ratio in `[0, MAX_RATIO_MICRO]`.
pub open spec fn atan_abs_spec(x: int) -> int {
    if x <= MICRO {
        atan_unit_spec(x)
    } else {
        90000 - atan_unit_spec(1_000_000_000_000int / x)
    }
}

/// Signed inverse tangent in millidegrees; ratios beyond +/-100.0 are clamped,
/// as the tangent lookup table only spans that range.
pub open spec fn atan_ratio_spec(ratio: int) -> int {
    let m = if ratio < 0 { -ratio } else { ratio };
    let c = if m > MAX_RATIO_MICRO { MAX_RATIO_MICRO as int } else { m };
    if ratio < 0 {
        -atan_abs_spec(c)
    } else {
        atan_abs_spec(c)
    }
}

pub proof fn lemma_atan_unit_bounds(x: int)
    requires
        0 <= x <= MICRO,
    ensures
        0 <= atan_unit_spec(x) <= 48911,
{
    assert(x * (1000000 - x) <= 250000 * 1000000) by (nonlinear_arith)
        requires 0 <= x <= 1000000;
    assert(x * (1000000 - x) >= 0) by (nonlinear_arith)
        requires 0 <= x <= 1000000;
    assert(45000 * x <= 45000 * 1000000) by (nonlinear_arith)
        requires x <= 1000000;
    assert((x * (1000000 - x)) / 1000000 <= 250000);
    assert(15642 * ((x * (1000000 - x)) / 1000000) <= 15642 * 250000) by (nonlinear_arith)
        requires (x * (1000000 - x)) / 1000000 <= 250000;
}

pub proof fn lemma_atan_abs_bounds(x: int)
    requires
        0 <= x <= MAX_RATIO_MICRO,
    ensures
        0 <= atan_abs_spec(x) <= 90000,
{
    if x <= MICRO {
        lemma_atan_unit_bounds(x);
    } else {
        assert(0 <= 1_000_000_000_000int / x <= MICRO) by (nonlinear_arith)
            requires MICRO < x;
        lemma_atan_unit_bounds(1_000_000_000_000int / x);
    }
}

/// Inverse tangent of a ratio in `[0, MICRO]` (at most one whole unit).
fn atan_unit_mdeg(x: u64) -> (r: u64)
    requires
        x <= MICRO,
    ensures
        r == atan_unit_spec(x as int),
        r <= 48911,
{
    proof {
        lemma_atan_unit_bounds(x as int);
        assert(x * (1000000 - x) <= 250000 * 1000000) by (nonlinear_arith)
            requires 0 <= x <= 1000000;
        assert(45000 * x <= 45000 * 1000000) by (nonlinear_arith)
            requires x <= 1000000;
    }
    let quad: u64 = (x * (MICRO - x)) / MICRO;
    (45000 * x + 15642 * quad) / MICRO
}

/// Signed inverse tangent of a micro-unit ratio, in millidegrees.
pub fn atan_ratio_mdeg(ratio_micro: i64) -> (r: i64)
    ensures
        r == atan_ratio_spec(ratio_micro as int),
        -90000 <= r <= 90000,
{
    let mag: i64 = if ratio_micro < 0 {
        if ratio_micro < -MAX_RATIO_MICRO {
            MAX_RATIO_MICRO
        } else {
            -ratio_micro
        }
    } else {
        if ratio_micro > MAX_RATIO_MICRO {
            MAX_RATIO_MICRO
        } else {
            ratio_micro
        }
    };
    let abs_val: u64 = if mag <= MICRO as i64 {
        atan_unit_mdeg(mag as u64)
    } else {
        let inv: u64 = 1_000_000_000_000u64 / (mag as u64);
        assert(inv <= MICRO) by (nonlinear_arith)
            requires
                MICRO < mag as u64 <= 100_000_000,
                inv == 1_000_000_000_000u64 as int / (mag as u64 as int);
        90000 - atan_unit_mdeg(inv)
    };
    proof {
        lemma_atan_abs_bounds(mag as int);
    }
    if ratio_micro < 0 {
        -(abs_val as i64)
    } else {
        abs_val as i64
    }
}

/// Sine in micro-units of an angle in `[0°, 180°]` (millidegrees).
pub open spec fn sin_half_spec(a: int) -> int {
    (4 * (a * (180000 - a)) * 1000000) / (40500000000 - a * (180000 - a))
}

/// Sine in micro-units of an angle in `[0°, 360°)`.
pub open spec fn sin_mdeg_spec(a: int) -> int {
    if a <= 180000 {
        sin_half_spec(a)
    } else {
        -sin_half_spec(a - 180000)
    }
}

/// Cosine in micro-units of an angle in `[0°, 360°)`, as the sine shifted by
/// a quarter turn.
pub open spec fn cos_mdeg_spec(a: int) -> int {
    if a < 270000 {
        sin_mdeg_spec(a + 90000)
    } else {
        sin_mdeg_spec(a - 270000)
    }
}

pub proof fn lemma_sin_half_bounds(a: int)
    requires
        0 <= a <= 180000,
    ensures
        0 <= sin_half_spec(a) <= MICRO,
{
    let p = a * (180000 - a);
    assert(a * (180000 - a) == 8100000000int - (a - 90000) * (a - 90000)) by (nonlinear_arith);
    assert((a - 90000) * (a - 90000) >= 0) by (nonlinear_arith);
    assert(a * (180000 - a) >= 0) by (nonlinear_arith)
        requires 0 <= a <= 180000;
    assert(0 <= p <= 8100000000int);
    assert(4 * p * 1000000 >= 0);
    assert(40500000000 - p >= 32400000000int);
    assert(4 * p * 1000000 <= (40500000000 - p) * 1000000) by (nonlinear_arith)
        requires 0 <= p <= 8100000000int;
    vstd::arithmetic::div_mod::lemma_div_is_ordered(
        4 * p * 1000000,
        (40500000000 - p) * 1000000,
        40500000000 - p,
    );
    assert(((40500000000 - p) * 1000000) / (40500000000 - p) == 1000000) by (nonlinear_arith)
        requires 32400000000int <= 40500000000 - p;
}

/// Sine of an angle in `[0°, 180°]`.
fn sin_half_mdeg(a: i64) -> (r: i64)
    requires
        0 <= a <= 180000,
    ensures
        r == sin_half_spec(a as int),
        0 <= r <= MICRO,
{
    proof {
        lemma_sin_half_bounds(a as int);
        assert(a * (180000 - a) <= 8100000000int) by (nonlinear_arith)
            requires 0 <= a <= 180000;
        assert(a * (180000 - a) >= 0) by (nonlinear_arith)
            requires 0 <= a <= 180000;
    }
    let p: i64 = a * (180000 - a);
    (4 * p * 1000000) / (40500000000 - p)
}

/// Sine in micro-units of an angle in `[0°, 360°)` millidegrees.
pub fn sin_mdeg(a: i64) -> (r: i64)
    requires
        0 <= a < 360000,
    ensures
        r == sin_mdeg_spec(a as int),
        -MICRO <= r <= MICRO,
{
    if a <= 180000 {
        sin_half_mdeg(a)
    } else {
        -sin_half_mdeg(a - 180000)
    }
}

/// Cosine in micro-units of an angle in `[0°, 360°)` millidegrees.
pub fn cos_mdeg(a: i64) -> (r: i64)
    requires
        0 <= a < 360000,
    ensures
        r == cos_mdeg_spec(a as int),
        -MICRO <= r <= MICRO,
{
    if a < 270000 {
        sin_mdeg(a + 90000)
    } else {
        sin_mdeg(a - 270000)
    }
}

} // verus!
