//! Precomputed lookup tables for the lighting engine, built once at startup:
//!
//! * `brightness_tables[c][d]`: the fraction of its initial intensity a ray
//!   retains after travelling distance `1.0 + d * 0.05` tiles when emitted
//!   with collimation `c * 0.5` degrees.  The falloff is the inverse power
//!   law `(1/distance)^(collimation/45)`, realised in fixed point as the
//!   `c`-th fixed-point power of a 90th root of the inverse distance.
//! * `distance_tables[c][b]`: the first tabulated distance at which an
//!   initial brightness of `b / 1000` units, attenuated by the falloff
//!   table, drops to the visibility cutoff; it sizes light-field radii.
//!   A brightness that never drops within the table reads as the last
//!   index (201 tiles, beyond any map this engine accepts), and one
//!   already at or under the cutoff reads as zero.
//! * `tangent_tables[i]`: the inverse tangent, in millidegrees, of the ratio
//!   `(i - 1_000_000) / 10_000`.
//!
//! The well-formedness predicate `wf` pins every entry down exactly, and the
//! falloff monotonicity and radius/brightness inverse laws are proved below.

use vstd::prelude::*;
use vstd::arithmetic::div_mod::{lemma_div_is_ordered, lemma_div_is_ordered_by_denominator};
use crate::fixed::{MICRO, mul_fp, mul_fp_spec, pow_fp, pow_fp_spec};
use crate::fixed::{lemma_mul_fp_le_left, lemma_mul_fp_mono_right, lemma_pow_fp_bounds,
    lemma_pow_fp_mono_base, lemma_pow_fp_unit};
use crate::trig::{atan_ratio_mdeg, atan_ratio_spec};

verus! {

/// Number of tabulated distances: `1.0 + d * 0.05` tiles for `d` in `0..4001`.
pub const DIST_STEPS: usize = 4001;

/// Number of tabulated collimations: `c * 0.5` degrees for `c` in `0..181`.
pub const COLL_STEPS: usize = 181;

/// Number of tabulated initial brightnesses: `b / 1000` for `b` in `0..1001`.
pub const BRIGHT_STEPS: usize = 1001;

/// Number of tabulated tangent ratios: `1e-4` steps over `[-100, 100]`.
pub const TAN_STEPS: usize = 2_000_001;

/// Brightness (micro-units) below which light no longer registers; rays
/// whose attenuated brightness falls under this bound the radius table
/// treats as extinguished.
pub const VISIBILITY_CUTOFF: u64 = 2_000;

/// The reciprocal, in micro-units, of the distance tabulated at index `d`.
pub open spec fn inv_distance_micro(d: int) -> int {
    20_000_000int / (20 + d)
}

/// `b` is the greatest micro-unit value whose 90th fixed-point power does
/// not exceed the inverse distance at index `d`: the per-half-degree falloff
/// factor for that distance.
pub open spec fn base_ok(b: int, d: int) -> bool {
    &&& 0 <= b <= MICRO
    &&& pow_fp_spec(b, 90) <= inv_distance_micro(d)
    &&& (b == MICRO || pow_fp_spec(b + 1, 90) > inv_distance_micro(d))
}

pub struct BrightnessTables {
    pub brightness_tables: Vec<Vec<u64>>,
    pub falloff_bases: Vec<u64>,
    pub distance_tables: Vec<Vec<u64>>,
    pub tangent_tables: Vec<i64>,
}

impl BrightnessTables {
    /// Falloff factor at collimation index `c`, distance index `d`.
    pub open spec fn brightness_at(self, c: int, d: int) -> int {
        self.brightness_tables[c][d] as int
    }

    /// Initial brightness `b / 1000` attenuated by the falloff at `(c, d)`.
    pub open spec fn attenuated_at(self, c: int, b: int, d: int) -> int {
        mul_fp_spec(b * 1000, self.brightness_at(c, d))
    }

    /// Table-derived maximum lit distance index for `(c, b)`.
    pub open spec fn radius_at(self, c: int, b: int) -> int {
        self.distance_tables[c][b] as int
    }

    pub open spec fn wf(self) -> bool {
        &&& self.falloff_bases.len() == DIST_STEPS
        &&& forall|d: int|
            0 <= d < DIST_STEPS ==> base_ok(#[trigger] self.falloff_bases[d] as int, d)
        &&& self.brightness_tables.len() == COLL_STEPS
        &&& forall|c: int|
            0 <= c < COLL_STEPS ==> (#[trigger] self.brightness_tables[c]).len() == DIST_STEPS
        &&& forall|c: int, d: int|
            0 <= c < COLL_STEPS && 0 <= d < DIST_STEPS
                ==> #[trigger] self.brightness_tables[c][d]
                    == pow_fp_spec(self.falloff_bases[d] as int, c as nat)
        &&& self.distance_tables.len() == COLL_STEPS
        &&& forall|c: int|
            0 <= c < COLL_STEPS ==> (#[trigger] self.distance_tables[c]).len() == BRIGHT_STEPS
        &&& forall|c: int, b: int|
            0 <= c < COLL_STEPS && 0 <= b < BRIGHT_STEPS ==> {
                let v = #[trigger] self.distance_tables[c][b] as int;
                &&& 0 <= v < DIST_STEPS
                &&& (v == DIST_STEPS - 1 || self.attenuated_at(c, b, v) <= VISIBILITY_CUTOFF)
                &&& (v == 0 || self.attenuated_at(c, b, v - 1) > VISIBILITY_CUTOFF)
            }
        &&& self.tangent_tables.len() == TAN_STEPS
        &&& forall|i: int|
            0 <= i < TAN_STEPS
                ==> #[trigger] self.tangent_tables[i] == atan_ratio_spec((i - 1_000_000) * 100)
    }

    /// Every falloff entry is a fraction of one unit.
    pub proof fn lemma_brightness_bounded(self, c: int, d: int)
        requires
            self.wf(),
            0 <= c < COLL_STEPS,
            0 <= d < DIST_STEPS,
        ensures
            0 <= self.brightness_at(c, d) <= MICRO,
    {
        assert(base_ok(self.falloff_bases[d] as int, d));
        lemma_pow_fp_bounds(self.falloff_bases[d] as int, c as nat);
    }
}

/// Deeper tabulated distances have smaller inverse distances, hence smaller
/// falloff bases.
proof fn lemma_bases_antimono(bases: Seq<u64>, d1: int, d2: int)
    requires
        bases.len() == DIST_STEPS,
        forall|d: int| 0 <= d < DIST_STEPS ==> base_ok(#[trigger] bases[d] as int, d),
        0 <= d1 <= d2 < DIST_STEPS,
    ensures
        bases[d2] <= bases[d1],
{
    let b1 = bases[d1] as int;
    let b2 = bases[d2] as int;
    assert(base_ok(b1, d1));
    assert(base_ok(b2, d2));
    lemma_div_is_ordered_by_denominator(20_000_000int, 20 + d1, 20 + d2);
    if b1 < b2 {
        assert(b1 != MICRO);
        assert(pow_fp_spec(b1 + 1, 90) > inv_distance_micro(d1));
        lemma_pow_fp_mono_base(b1 + 1, b2, 90);
        assert(false);
    }
}

/// Law of monotonic falloff: for a fixed collimation, the tabulated
/// brightness at a farther distance never exceeds the brightness at a nearer
/// one.
pub proof fn lemma_brightness_monotonic_falloff(t: BrightnessTables, c: int, d1: int, d2: int)
    requires
        t.wf(),
        0 <= c < COLL_STEPS,
        0 <= d1 <= d2 < DIST_STEPS,
    ensures
        t.brightness_at(c, d2) <= t.brightness_at(c, d1),
{
    lemma_bases_antimono(t.falloff_bases@, d1, d2);
    assert(base_ok(t.falloff_bases[d1] as int, d1));
    assert(base_ok(t.falloff_bases[d2] as int, d2));
    lemma_pow_fp_mono_base(t.falloff_bases[d2] as int, t.falloff_bases[d1] as int, c as nat);
}

/// Law of radius/brightness inverse consistency: the table-derived
/// radius for an initial brightness `b / 1000` and collimation `c` is the
/// exact crossover distance: at the radius the attenuated brightness has
/// fallen to the visibility cutoff (unless the table ran out), and one step
/// inside it is still above the cutoff.
pub proof fn lemma_radius_brightness_inverse(t: BrightnessTables, c: int, b: int)
    requires
        t.wf(),
        0 <= c < COLL_STEPS,
        0 <= b < BRIGHT_STEPS,
    ensures
        0 <= t.radius_at(c, b) < DIST_STEPS,
        t.radius_at(c, b) < DIST_STEPS - 1
            ==> t.attenuated_at(c, b, t.radius_at(c, b)) <= VISIBILITY_CUTOFF,
        t.radius_at(c, b) > 0
            ==> t.attenuated_at(c, b, t.radius_at(c, b) - 1) > VISIBILITY_CUTOFF,
{
}

/// The greatest micro-unit base whose 90th fixed-point power stays within
/// `frac`.
fn root90(frac: u64) -> (r: u64)
    requires
        frac <= MICRO,
    ensures
        r <= MICRO,
        pow_fp_spec(r as int, 90) <= frac,
        r == MICRO || pow_fp_spec(r as int + 1, 90) > frac,
{
    let top = pow_fp(MICRO, 90);
    proof {
        lemma_pow_fp_unit(90);
    }
    if top <= frac {
        return MICRO;
    }
    let mut lo: u64 = 0;
    let mut hi: u64 = MICRO;
    proof {
        crate::fixed::lemma_pow_fp_zero(90);
    }
    while lo + 1 < hi
        invariant
            lo < hi <= MICRO,
            frac <= MICRO,
            pow_fp_spec(lo as int, 90) <= frac,
            pow_fp_spec(hi as int, 90) > frac,
        decreases hi - lo,
    {
        let mid: u64 = lo + (hi - lo) / 2;
        if pow_fp(mid, 90) <= frac {
            lo = mid;
        } else {
            hi = mid;
        }
    }
    lo
}

/// Least tabulated distance index at which `b / 1000` units attenuated by
/// this falloff row drop to the visibility cutoff; the last index when they
/// never do.
fn radius_search(row: &Vec<u64>, b: u64) -> (v: u64)
    requires
        row.len() == DIST_STEPS,
        b < BRIGHT_STEPS,
        forall|d: int| 0 <= d < DIST_STEPS ==> #[trigger] row[d] <= MICRO,
        forall|d1: int, d2: int|
            #![trigger row[d1], row[d2]]
            0 <= d1 <= d2 < DIST_STEPS ==> row[d2] <= row[d1],
    ensures
        v < DIST_STEPS,
        v == DIST_STEPS - 1 || mul_fp_spec(b * 1000, row[v as int] as int) <= VISIBILITY_CUTOFF,
        v == 0 || mul_fp_spec(b * 1000, row[v as int - 1] as int) > VISIBILITY_CUTOFF,
{
    let bm: u64 = b * 1000;
    assert(bm <= MICRO);
    assert(bm * row[0] <= u64::MAX) by (nonlinear_arith)
        requires bm <= MICRO && row[0int] <= MICRO;
    if mul_fp(bm, row[0]) <= VISIBILITY_CUTOFF {
        return 0;
    }
    assert(bm * row[DIST_STEPS - 1] <= u64::MAX) by (nonlinear_arith)
        requires bm <= MICRO && row[DIST_STEPS as int - 1] <= MICRO;
    if mul_fp(bm, row[DIST_STEPS - 1]) > VISIBILITY_CUTOFF {
        proof {
            lemma_mul_fp_mono_right(
                bm as int,
                row[DIST_STEPS as int - 1] as int,
                row[DIST_STEPS as int - 2] as int,
            );
        }
        return (DIST_STEPS - 1) as u64;
    }
    let mut lo: u64 = 0;
    let mut hi: u64 = (DIST_STEPS - 1) as u64;
    while lo + 1 < hi
        invariant
            lo < hi < DIST_STEPS,
            bm == b * 1000,
            bm <= MICRO,
            row.len() == DIST_STEPS,
            forall|d: int| 0 <= d < DIST_STEPS ==> #[trigger] row[d] <= MICRO,
            mul_fp_spec(bm as int, row[lo as int] as int) > VISIBILITY_CUTOFF,
            mul_fp_spec(bm as int, row[hi as int] as int) <= VISIBILITY_CUTOFF,
        decreases hi - lo,
    {
        let mid: u64 = lo + (hi - lo) / 2;
        assert(bm * row[mid as int] <= u64::MAX) by (nonlinear_arith)
            requires bm <= MICRO && row[mid as int] <= MICRO;
        if mul_fp(bm, row[mid as usize]) <= VISIBILITY_CUTOFF {
            hi = mid;
        } else {
            lo = mid;
        }
    }
    hi
}

impl BrightnessTables {
    /// Build all three tables.
    pub fn new() -> (t: BrightnessTables)
        ensures
            t.wf(),
    {
        // Falloff bases: one 90th root of the inverse distance per distance.
        let mut falloff_bases: Vec<u64> = Vec::new();
        let mut d: usize = 0;
        while d < DIST_STEPS
            invariant
                d <= DIST_STEPS,
                falloff_bases.len() == d,
                forall|j: int| 0 <= j < d ==> base_ok(#[trigger] falloff_bases[j] as int, j),
            decreases DIST_STEPS - d,
        {
            let frac: u64 = 20_000_000u64 / (20 + d as u64);
            proof {
                lemma_div_is_ordered_by_denominator(20_000_000int, 20, 20 + d as int);
            }
            let base = root90(frac);
            falloff_bases.push(base);
            d += 1;
        }

        // Brightness rows: row `c` is row `c - 1` dimmed once more by the
        // per-distance falloff base.
        let mut brightness_tables: Vec<Vec<u64>> = Vec::new();
        let mut row0: Vec<u64> = Vec::new();
        let mut d0: usize = 0;
        while d0 < DIST_STEPS
            invariant
                d0 <= DIST_STEPS,
                row0.len() == d0,
                forall|j: int| 0 <= j < d0 ==> #[trigger] row0[j] == MICRO,
            decreases DIST_STEPS - d0,
        {
            row0.push(MICRO);
            d0 += 1;
        }
        brightness_tables.push(row0);
        let mut c: usize = 1;
        while c < COLL_STEPS
            invariant
                1 <= c <= COLL_STEPS,
                falloff_bases.len() == DIST_STEPS,
                forall|j: int| 0 <= j < DIST_STEPS ==> base_ok(#[trigger] falloff_bases[j] as int, j),
                brightness_tables.len() == c,
                forall|i: int|
                    0 <= i < c ==> (#[trigger] brightness_tables[i]).len() == DIST_STEPS,
                forall|i: int, j: int|
                    0 <= i < c && 0 <= j < DIST_STEPS
                        ==> #[trigger] brightness_tables[i][j]
                            == pow_fp_spec(falloff_bases[j] as int, i as nat),
            decreases COLL_STEPS - c,
        {
            let mut row: Vec<u64> = Vec::new();
            let mut dd: usize = 0;
            while dd < DIST_STEPS
                invariant
                    dd <= DIST_STEPS,
                    1 <= c,
                    falloff_bases.len() == DIST_STEPS,
                    forall|j: int|
                        0 <= j < DIST_STEPS ==> base_ok(#[trigger] falloff_bases[j] as int, j),
                    brightness_tables.len() == c,
                    forall|i: int|
                        0 <= i < c ==> (#[trigger] brightness_tables[i]).len() == DIST_STEPS,
                    forall|i: int, j: int|
                        0 <= i < c && 0 <= j < DIST_STEPS
                            ==> #[trigger] brightness_tables[i][j]
                                == pow_fp_spec(falloff_bases[j] as int, i as nat),
                    row.len() == dd,
                    forall|j: int|
                        0 <= j < dd ==> #[trigger] row[j]
                            == pow_fp_spec(falloff_bases[j] as int, c as nat),
                decreases DIST_STEPS - dd,
            {
                let prev: u64 = brightness_tables[c - 1][dd];
                let base: u64 = falloff_bases[dd];
                proof {
                    assert(base_ok(base as int, dd as int));
                    lemma_pow_fp_bounds(base as int, (c - 1) as nat);
                    assert(prev * base <= u64::MAX) by (nonlinear_arith)
                        requires prev <= MICRO && base <= MICRO;
                }
                let v = mul_fp(prev, base);
                row.push(v);
                dd += 1;
            }
            brightness_tables.push(row);
            c += 1;
        }

        // Radius rows, one per collimation.
        let mut distance_tables: Vec<Vec<u64>> = Vec::new();
        let mut c2: usize = 0;
        while c2 < COLL_STEPS
            invariant
                c2 <= COLL_STEPS,
                falloff_bases.len() == DIST_STEPS,
                forall|j: int| 0 <= j < DIST_STEPS ==> base_ok(#[trigger] falloff_bases[j] as int, j),
                brightness_tables.len() == COLL_STEPS,
                forall|i: int|
                    0 <= i < COLL_STEPS ==> (#[trigger] brightness_tables[i]).len() == DIST_STEPS,
                forall|i: int, j: int|
                    0 <= i < COLL_STEPS && 0 <= j < DIST_STEPS
                        ==> #[trigger] brightness_tables[i][j]
                            == pow_fp_spec(falloff_bases[j] as int, i as nat),
                distance_tables.len() == c2,
                forall|i: int|
                    0 <= i < c2 ==> (#[trigger] distance_tables[i]).len() == BRIGHT_STEPS,
                forall|i: int, b: int|
                    0 <= i < c2 && 0 <= b < BRIGHT_STEPS ==> {
                        let v = #[trigger] distance_tables[i][b] as int;
                        &&& 0 <= v < DIST_STEPS
                        &&& (v == DIST_STEPS - 1
                            || mul_fp_spec(b * 1000, brightness_tables[i][v] as int)
                                <= VISIBILITY_CUTOFF)
                        &&& (v == 0
                            || mul_fp_spec(b * 1000, brightness_tables[i][v - 1] as int)
                                > VISIBILITY_CUTOFF)
                    },
            decreases COLL_STEPS - c2,
        {
            proof {
                assert forall|d1: int, d2: int|
                    #![trigger brightness_tables[c2 as int][d1], brightness_tables[c2 as int][d2]]
                    0 <= d1 <= d2 < DIST_STEPS
                    implies brightness_tables[c2 as int][d2] <= brightness_tables[c2 as int][d1] by {
                    lemma_bases_antimono(falloff_bases@, d1, d2);
                    assert(base_ok(falloff_bases[d1] as int, d1));
                    assert(base_ok(falloff_bases[d2] as int, d2));
                    lemma_pow_fp_mono_base(
                        falloff_bases[d2] as int,
                        falloff_bases[d1] as int,
                        c2 as nat,
                    );
                }
                assert forall|d1: int| 0 <= d1 < DIST_STEPS
                    implies #[trigger] brightness_tables[c2 as int][d1] <= MICRO by {
                    assert(base_ok(falloff_bases[d1] as int, d1));
                    lemma_pow_fp_bounds(falloff_bases[d1] as int, c2 as nat);
                }
            }
            let mut drow: Vec<u64> = Vec::new();
            let mut b: usize = 0;
            while b < BRIGHT_STEPS
                invariant
                    b <= BRIGHT_STEPS,
                    c2 < COLL_STEPS,
                    brightness_tables.len() == COLL_STEPS,
                    forall|i: int|
                        0 <= i < COLL_STEPS
                            ==> (#[trigger] brightness_tables[i]).len() == DIST_STEPS,
                    forall|d1: int| 0 <= d1 < DIST_STEPS
                        ==> #[trigger] brightness_tables[c2 as int][d1] <= MICRO,
                    forall|d1: int, d2: int|
                        #![trigger brightness_tables[c2 as int][d1],
                            brightness_tables[c2 as int][d2]]
                        0 <= d1 <= d2 < DIST_STEPS
                            ==> brightness_tables[c2 as int][d2]
                                <= brightness_tables[c2 as int][d1],
                    drow.len() == b,
                    forall|bb: int|
                        0 <= bb < b ==> {
                            let v = #[trigger] drow[bb] as int;
                            &&& 0 <= v < DIST_STEPS
                            &&& (v == DIST_STEPS - 1
                                || mul_fp_spec(bb * 1000, brightness_tables[c2 as int][v] as int)
                                    <= VISIBILITY_CUTOFF)
                            &&& (v == 0
                                || mul_fp_spec(
                                    bb * 1000,
                                    brightness_tables[c2 as int][v - 1] as int,
                                ) > VISIBILITY_CUTOFF)
                        },
                decreases BRIGHT_STEPS - b,
            {
                let v = radius_search(&brightness_tables[c2], b as u64);
                drow.push(v);
                b += 1;
            }
            distance_tables.push(drow);
            c2 += 1;
        }

        // Tangent table over the clamped ratio range.
        let mut tangent_tables: Vec<i64> = Vec::new();
        let mut i: usize = 0;
        while i < TAN_STEPS
            invariant
                i <= TAN_STEPS,
                tangent_tables.len() == i,
                forall|j: int|
                    0 <= j < i ==> #[trigger] tangent_tables[j]
                        == atan_ratio_spec((j - 1_000_000) * 100),
            decreases TAN_STEPS - i,
        {
            let ratio: i64 = (i as i64 - 1_000_000) * 100;
            let a = atan_ratio_mdeg(ratio);
            tangent_tables.push(a);
            i += 1;
        }

        BrightnessTables { brightness_tables, falloff_bases, distance_tables, tangent_tables }
    }
}

/// Collimation in millidegrees to a clamped half-degree table index.
pub open spec fn coll_index_spec(c: int) -> int {
    let i = if c < 0 { 0 } else { c / 500 };
    if i > COLL_STEPS - 1 { COLL_STEPS as int - 1 } else { i }
}

/// Distance in twentieth-of-a-tile steps to a clamped table index (the table
/// starts at one full tile, twenty steps).
pub open spec fn dist_index_spec(ds: int) -> int {
    let i = if ds < 20 { 0 } else { ds - 20 };
    if i > DIST_STEPS - 1 { DIST_STEPS as int - 1 } else { i }
}

/// Brightness in micro-units to a clamped milli-unit table index.
pub open spec fn bright_index_spec(bm: int) -> int {
    let i = bm / 1000;
    if i > BRIGHT_STEPS - 1 { BRIGHT_STEPS as int - 1 } else { i }
}

/// The millidegree angle the tangent table returns for a micro-unit ratio:
/// the inverse tangent of the ratio quantised to `1e-4` steps and clamped to
/// `[-100, 100]`.
pub open spec fn tan_lookup_spec(ratio: int) -> int {
    let q = if ratio < 0 {
        -((-ratio) / 100)
    } else {
        ratio / 100
    };
    let w = if q < -1_000_000 {
        -1_000_000int
    } else if q > 1_000_000 {
        1_000_000int
    } else {
        q
    };
    atan_ratio_spec(w * 100)
}

impl BrightnessTables {
    /// Falloff factor for a ray that has travelled `distance_steps`
    /// twentieths of a tile since emission at `collimation_mdeg`; inputs
    /// beyond the table are clamped to its edges.
    pub fn read_brightness_table(&self, distance_steps: u64, collimation_mdeg: i64) -> (r: u64)
        requires
            self.wf(),
            collimation_mdeg >= 0,
        ensures
            r == self.brightness_at(
                coll_index_spec(collimation_mdeg as int),
                dist_index_spec(distance_steps as int),
            ),
            r <= MICRO,
    {
        let ci: usize = {
            let i = (collimation_mdeg / 500) as u64;
            if i > (COLL_STEPS - 1) as u64 {
                COLL_STEPS - 1
            } else {
                i as usize
            }
        };
        let di: usize = {
            let i = if distance_steps < 20 { 0 } else { distance_steps - 20 };
            if i > (DIST_STEPS - 1) as u64 {
                DIST_STEPS - 1
            } else {
                i as usize
            }
        };
        proof {
            self.lemma_brightness_bounded(ci as int, di as int);
        }
        self.brightness_tables[ci][di]
    }

    /// Table-derived maximum lit distance (as a distance index) for an
    /// initial per-channel brightness and collimation; inputs beyond the
    /// table are clamped to its edges.
    pub fn read_distance_table(&self, brightness_micro: u64, collimation_mdeg: i64) -> (r: u64)
        requires
            self.wf(),
            collimation_mdeg >= 0,
        ensures
            r == self.radius_at(
                coll_index_spec(collimation_mdeg as int),
                bright_index_spec(brightness_micro as int),
            ),
            r < DIST_STEPS,
    {
        let ci: usize = {
            let i = (collimation_mdeg / 500) as u64;
            if i > (COLL_STEPS - 1) as u64 {
                COLL_STEPS - 1
            } else {
                i as usize
            }
        };
        let bi: usize = {
            let i = brightness_micro / 1000;
            if i > (BRIGHT_STEPS - 1) as u64 {
                BRIGHT_STEPS - 1
            } else {
                i as usize
            }
        };
        self.distance_tables[ci][bi]
    }

    /// Inverse tangent, in millidegrees, of a micro-unit ratio quantised to
    /// the table's `1e-4` ratio steps; ratios beyond `[-100, 100]` are
    /// clamped to the table's edges.
    pub fn read_tangent_table(&self, ratio_micro: i64) -> (r: i64)
        requires
            self.wf(),
        ensures
            r == tan_lookup_spec(ratio_micro as int),
            -90_000 <= r <= 90_000,
    {
        let q: i64 = if ratio_micro < 0 {
            if ratio_micro == i64::MIN {
                -1_000_001
            } else {
                -((-ratio_micro) / 100)
            }
        } else {
            ratio_micro / 100
        };
        let w: i64 = if q < -1_000_000 {
            -1_000_000
        } else if q > 1_000_000 {
            1_000_000
        } else {
            q
        };
        let idx: usize = (w + 1_000_000) as usize;
        let r = self.tangent_tables[idx];
        proof {
            crate::trig::lemma_atan_abs_bounds(
                ({
                    let m = if (idx - 1_000_000) * 100 < 0 {
                        -((idx - 1_000_000) * 100)
                    } else {
                        (idx - 1_000_000) * 100
                    };
                    if m > 100_000_000 { 100_000_000int } else { m }
                }),
            );
        }
        r
    }
}

} // verus!
