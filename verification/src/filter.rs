//! Deduplication and averaging of candidate reflections.
//!
//! A raycast pass proposes many near-identical child reflections: every ray
//! striking the same face of the same tile proposes one.  Before the next
//! reflection level is cast, the candidates are grouped — diffuse ones by
//! `(x, y, face, direction)`, specular ones by `(x, y, face)` — and each
//! group collapses to a single reflection whose intensity is the arithmetic
//! mean of the group's, keeping reflection counts from growing with the
//! perimeter sampling density.  Specular leaving directions are combined as
//! a circular mean (the angle of the averaged direction vector), which is
//! well defined across the wrap at 0°.

use vstd::prelude::*;
use crate::model::{Rgb, CHANNEL_MAX};
use crate::tables::BrightnessTables;
use crate::trig::{sin_mdeg, cos_mdeg, sin_mdeg_spec, cos_mdeg_spec};
use crate::angles::{determine_alpha_angle, alpha_angle_spec};
use crate::fixed::{sdiv, sdiv_spec};
use crate::field::ChildReflection;

verus! {

/// A diffuse candidate at the given location, face and leaving direction.
pub open spec fn d_matches(c: ChildReflection, x: int, y: int, face: int, dir: int) -> bool {
    c.diffuse && c.x == x && c.y == y && c.face == face && c.direction == dir
}

/// A specular candidate at the given location and face.
pub open spec fn s_matches(c: ChildReflection, x: int, y: int, face: int) -> bool {
    !c.diffuse && c.x == x && c.y == y && c.face == face
}

/// How many of the first `n` candidates are diffuse matches for the key.
pub open spec fn d_count(s: Seq<ChildReflection>, x: int, y: int, face: int, dir: int, n: int) -> int
    decreases n,
{
    if n <= 0 {
        0
    } else {
        d_count(s, x, y, face, dir, n - 1) + if d_matches(s[n - 1], x, y, face, dir) {
            1int
        } else {
            0int
        }
    }
}

/// Channel sums over the diffuse matches among the first `n` candidates.
pub open spec fn d_sum(s: Seq<ChildReflection>, x: int, y: int, face: int, dir: int, n: int) -> (
    int,
    int,
    int,
)
    decreases n,
{
    if n <= 0 {
        (0int, 0int, 0int)
    } else {
        let rest = d_sum(s, x, y, face, dir, n - 1);
        if d_matches(s[n - 1], x, y, face, dir) {
            (
                rest.0 + s[n - 1].intensity_profile.r,
                rest.1 + s[n - 1].intensity_profile.g,
                rest.2 + s[n - 1].intensity_profile.b,
            )
        } else {
            rest
        }
    }
}

/// How many of the first `n` candidates are specular matches for the key.
pub open spec fn s_count(s: Seq<ChildReflection>, x: int, y: int, face: int, n: int) -> int
    decreases n,
{
    if n <= 0 {
        0
    } else {
        s_count(s, x, y, face, n - 1) + if s_matches(s[n - 1], x, y, face) {
            1int
        } else {
            0int
        }
    }
}

/// Channel sums over the specular matches among the first `n` candidates.
pub open spec fn s_sum(s: Seq<ChildReflection>, x: int, y: int, face: int, n: int) -> (int, int, int)
    decreases n,
{
    if n <= 0 {
        (0int, 0int, 0int)
    } else {
        let rest = s_sum(s, x, y, face, n - 1);
        if s_matches(s[n - 1], x, y, face) {
            (
                rest.0 + s[n - 1].intensity_profile.r,
                rest.1 + s[n - 1].intensity_profile.g,
                rest.2 + s[n - 1].intensity_profile.b,
            )
        } else {
            rest
        }
    }
}

/// Sums of the direction sines and cosines over the specular matches among
/// the first `n` candidates: the vector whose angle is the circular mean.
pub open spec fn s_dir_sum(s: Seq<ChildReflection>, x: int, y: int, face: int, n: int) -> (int, int)
    decreases n,
{
    if n <= 0 {
        (0int, 0int)
    } else {
        let rest = s_dir_sum(s, x, y, face, n - 1);
        if s_matches(s[n - 1], x, y, face) {
            (
                rest.0 + cos_mdeg_spec(s[n - 1].direction as int),
                rest.1 + sin_mdeg_spec(s[n - 1].direction as int),
            )
        } else {
            rest
        }
    }
}

/// The sweep and collimation of the last specular match among the first `n`
/// candidates (zero when there is none).
pub open spec fn s_last_shape(s: Seq<ChildReflection>, x: int, y: int, face: int, n: int) -> (
    int,
    int,
)
    decreases n,
{
    if n <= 0 {
        (0int, 0int)
    } else if s_matches(s[n - 1], x, y, face) {
        (s[n - 1].angular_sweep as int, s[n - 1].collimation as int)
    } else {
        s_last_shape(s, x, y, face, n - 1)
    }
}

/// The sub-tile emission offset of a filtered specular reflection: half a
/// tile outward along the normal of the face it leaves.
pub open spec fn face_offset_spec(face: int) -> (int, int) {
    if face == 0 {
        (500_000int, 0int)
    } else if face == 1 {
        (0int, 500_000int)
    } else if face == 2 {
        (-500_000int, 0int)
    } else {
        (0int, -500_000int)
    }
}

/// Law of reflection dedup: what the filter guarantees of every
/// diffuse entry in its output, namely that it stands for a non-empty group
/// of input candidates sharing its `(x, y, face, direction)` key and
/// carries the arithmetic mean of the group's channel intensities.
pub open spec fn filtered_diffuse_ok(out: ChildReflection, s: Seq<ChildReflection>) -> bool {
    let cnt = d_count(s, out.x as int, out.y as int, out.face as int, out.direction as int, s.len() as int);
    let sums = d_sum(s, out.x as int, out.y as int, out.face as int, out.direction as int, s.len() as int);
    &&& cnt > 0
    &&& out.intensity_profile.r == sums.0 / cnt
    &&& out.intensity_profile.g == sums.1 / cnt
    &&& out.intensity_profile.b == sums.2 / cnt
    &&& out.position_offset.0 == 500_000
    &&& out.position_offset.1 == 0
    &&& out.angular_sweep == 90_000
    &&& out.collimation == 90_000
}

/// What the filter guarantees of every specular entry in its output: a
/// non-empty group of specular candidates at its `(x, y, face)` key, mean
/// channel intensities, the circular-mean leaving direction, the shape of
/// the group's last member, and the emission offset of the struck face.
pub open spec fn filtered_specular_ok(out: ChildReflection, s: Seq<ChildReflection>) -> bool {
    let cnt = s_count(s, out.x as int, out.y as int, out.face as int, s.len() as int);
    let sums = s_sum(s, out.x as int, out.y as int, out.face as int, s.len() as int);
    let dirs = s_dir_sum(s, out.x as int, out.y as int, out.face as int, s.len() as int);
    let shape = s_last_shape(s, out.x as int, out.y as int, out.face as int, s.len() as int);
    &&& cnt > 0
    &&& out.intensity_profile.r == sums.0 / cnt
    &&& out.intensity_profile.g == sums.1 / cnt
    &&& out.intensity_profile.b == sums.2 / cnt
    &&& out.direction == alpha_angle_spec(sdiv_spec(dirs.0, cnt), sdiv_spec(dirs.1, cnt), 0)
    &&& out.angular_sweep == shape.0
    &&& out.collimation == shape.1
    &&& out.position_offset.0 == face_offset_spec(out.face as int).0
    &&& out.position_offset.1 == face_offset_spec(out.face as int).1
}

/// The distinct diffuse keys among the first `n` candidates, in order of
/// first appearance.
pub open spec fn d_keys_spec(s: Seq<ChildReflection>, n: int) -> Seq<(i64, i64, i64, i64)>
    decreases n,
{
    if n <= 0 {
        Seq::empty()
    } else {
        let prev = d_keys_spec(s, n - 1);
        let c = s[n - 1];
        if c.diffuse && !prev.contains((c.x, c.y, c.face, c.direction)) {
            prev.push((c.x, c.y, c.face, c.direction))
        } else {
            prev
        }
    }
}

/// The distinct specular keys among the first `n` candidates, in order of
/// first appearance.
pub open spec fn s_keys_spec(s: Seq<ChildReflection>, n: int) -> Seq<(i64, i64, i64)>
    decreases n,
{
    if n <= 0 {
        Seq::empty()
    } else {
        let prev = s_keys_spec(s, n - 1);
        let c = s[n - 1];
        if !c.diffuse && !prev.contains((c.x, c.y, c.face)) {
            prev.push((c.x, c.y, c.face))
        } else {
            prev
        }
    }
}

/// The one filtered reflection standing for a diffuse group.
pub open spec fn diffuse_out_spec(s: Seq<ChildReflection>, key: (i64, i64, i64, i64)) -> ChildReflection {
    let n = s.len() as int;
    let cnt = d_count(s, key.0 as int, key.1 as int, key.2 as int, key.3 as int, n);
    let sums = d_sum(s, key.0 as int, key.1 as int, key.2 as int, key.3 as int, n);
    ChildReflection {
        diffuse: true,
        x: key.0,
        y: key.1,
        position_offset: (500_000int as i64, 0),
        face: key.2,
        direction: key.3,
        intensity_profile: Rgb {
            r: (sums.0 / cnt) as u64,
            g: (sums.1 / cnt) as u64,
            b: (sums.2 / cnt) as u64,
        },
        angular_sweep: 90_000,
        collimation: 90_000,
    }
}

/// The one filtered reflection standing for a specular group.
pub open spec fn specular_out_spec(
    s: Seq<ChildReflection>,
    t: BrightnessTables,
    key: (i64, i64, i64),
) -> ChildReflection {
    let n = s.len() as int;
    let cnt = s_count(s, key.0 as int, key.1 as int, key.2 as int, n);
    let sums = s_sum(s, key.0 as int, key.1 as int, key.2 as int, n);
    let dirs = s_dir_sum(s, key.0 as int, key.1 as int, key.2 as int, n);
    let shape = s_last_shape(s, key.0 as int, key.1 as int, key.2 as int, n);
    ChildReflection {
        diffuse: false,
        x: key.0,
        y: key.1,
        position_offset: (
            face_offset_spec(key.2 as int).0 as i64,
            face_offset_spec(key.2 as int).1 as i64,
        ),
        face: key.2,
        direction: alpha_angle_spec(
            sdiv_spec(dirs.0, cnt),
            sdiv_spec(dirs.1, cnt),
            0,
        ) as i64,
        intensity_profile: Rgb {
            r: (sums.0 / cnt) as u64,
            g: (sums.1 / cnt) as u64,
            b: (sums.2 / cnt) as u64,
        },
        angular_sweep: shape.0 as i64,
        collimation: shape.1 as i64,
    }
}

/// The filter's entire output: one reflection per distinct diffuse key, in
/// order of first appearance, then one per distinct specular key.
pub open spec fn filter_output_spec(s: Seq<ChildReflection>, t: BrightnessTables) -> Seq<
    ChildReflection,
> {
    let dk = d_keys_spec(s, s.len() as int);
    let sk = s_keys_spec(s, s.len() as int);
    Seq::new(dk.len(), |k: int| diffuse_out_spec(s, dk[k])) + Seq::new(
        sk.len(),
        |k: int| specular_out_spec(s, t, sk[k]),
    )
}

/// Counts of matching candidates are never negative.
proof fn lemma_d_count_nonneg(s: Seq<ChildReflection>, x: int, y: int, face: int, dir: int, n: int)
    ensures
        d_count(s, x, y, face, dir, n) >= 0,
    decreases n,
{
    if n > 0 {
        lemma_d_count_nonneg(s, x, y, face, dir, n - 1);
    }
}

proof fn lemma_s_count_nonneg(s: Seq<ChildReflection>, x: int, y: int, face: int, n: int)
    ensures
        s_count(s, x, y, face, n) >= 0,
    decreases n,
{
    if n > 0 {
        lemma_s_count_nonneg(s, x, y, face, n - 1);
    }
}

/// Matching candidates among a longer prefix are no fewer.
proof fn lemma_d_count_mono(s: Seq<ChildReflection>, x: int, y: int, face: int, dir: int, n1: int, n2: int)
    requires
        0 <= n1 <= n2,
    ensures
        d_count(s, x, y, face, dir, n1) <= d_count(s, x, y, face, dir, n2),
    decreases n2,
{
    if n1 < n2 {
        lemma_d_count_mono(s, x, y, face, dir, n1, n2 - 1);
    }
}

proof fn lemma_s_count_mono(s: Seq<ChildReflection>, x: int, y: int, face: int, n1: int, n2: int)
    requires
        0 <= n1 <= n2,
    ensures
        s_count(s, x, y, face, n1) <= s_count(s, x, y, face, n2),
    decreases n2,
{
    if n1 < n2 {
        lemma_s_count_mono(s, x, y, face, n1, n2 - 1);
    }
}

/// Whether a diffuse key is already listed.
fn contains_d_key(keys: &Vec<(i64, i64, i64, i64)>, key: (i64, i64, i64, i64)) -> (b: bool)
    ensures
        b == exists|i: int| 0 <= i < keys.len() && #[trigger] keys[i] == key,
{
    let mut i: usize = 0;
    while i < keys.len()
        invariant
            i <= keys.len(),
            forall|j: int| 0 <= j < i ==> #[trigger] keys[j] != key,
        decreases keys.len() - i,
    {
        let k = keys[i];
        if k.0 == key.0 && k.1 == key.1 && k.2 == key.2 && k.3 == key.3 {
            assert(keys[i as int] == key);
            return true;
        }
        i += 1;
    }
    false
}

/// Whether a specular key is already listed.
fn contains_s_key(keys: &Vec<(i64, i64, i64)>, key: (i64, i64, i64)) -> (b: bool)
    ensures
        b == exists|i: int| 0 <= i < keys.len() && #[trigger] keys[i] == key,
{
    let mut i: usize = 0;
    while i < keys.len()
        invariant
            i <= keys.len(),
            forall|j: int| 0 <= j < i ==> #[trigger] keys[j] != key,
        decreases keys.len() - i,
    {
        let k = keys[i];
        if k.0 == key.0 && k.1 == key.1 && k.2 == key.2 {
            assert(keys[i as int] == key);
            return true;
        }
        i += 1;
    }
    false
}

/// Collapse candidate reflections into one reflection per distinct group:
/// diffuse candidates grouped by location, face and direction, specular
/// candidates by location and face, each group averaged.
#[verifier::loop_isolation(false)]
#[verifier::rlimit(100)]
pub fn filter_candidate_reflections(
    candidate_reflections: &Vec<ChildReflection>,
    brightness_tables: &BrightnessTables,
) -> (out: Vec<ChildReflection>)
    requires
        brightness_tables.wf(),
        candidate_reflections.len() <= 1_000_000,
        forall|n: int|
            0 <= n < candidate_reflections.len()
                ==> (#[trigger] candidate_reflections[n]).valid(),
    ensures
        forall|k: int| 0 <= k < out.len() ==> (#[trigger] out[k]).valid(),
        forall|k: int|
            0 <= k < out.len() && (#[trigger] out[k]).diffuse
                ==> filtered_diffuse_ok(out[k], candidate_reflections@),
        forall|k: int|
            0 <= k < out.len() && !(#[trigger] out[k]).diffuse
                ==> filtered_specular_ok(out[k], candidate_reflections@),
        forall|k1: int, k2: int|
            0 <= k1 < k2 < out.len() ==> !(#[trigger] out[k1]).diffuse || !(#[trigger] out[k2]).diffuse
                || out[k1].x != out[k2].x || out[k1].y != out[k2].y || out[k1].face != out[k2].face
                || out[k1].direction != out[k2].direction,
        forall|k1: int, k2: int|
            0 <= k1 < k2 < out.len() ==> (#[trigger] out[k1]).diffuse || (#[trigger] out[k2]).diffuse
                || out[k1].x != out[k2].x || out[k1].y != out[k2].y || out[k1].face != out[k2].face,
        forall|n: int|
            0 <= n < candidate_reflections.len() && (#[trigger] candidate_reflections[n]).diffuse
                ==> exists|k: int|
                    0 <= k < out.len() && (#[trigger] out[k]).diffuse
                        && out[k].x == candidate_reflections[n].x
                        && out[k].y == candidate_reflections[n].y
                        && out[k].face == candidate_reflections[n].face
                        && out[k].direction == candidate_reflections[n].direction,
        forall|n: int|
            0 <= n < candidate_reflections.len() && !(#[trigger] candidate_reflections[n]).diffuse
                ==> exists|k: int|
                    0 <= k < out.len() && !(#[trigger] out[k]).diffuse
                        && out[k].x == candidate_reflections[n].x
                        && out[k].y == candidate_reflections[n].y
                        && out[k].face == candidate_reflections[n].face,
        out@ == filter_output_spec(candidate_reflections@, *brightness_tables),
{
    let ghost s = candidate_reflections@;
    let ghost full: int = candidate_reflections@.len() as int;
    // Collect the distinct keys, in order of first appearance.
    let mut d_keys: Vec<(i64, i64, i64, i64)> = Vec::new();
    let mut s_keys: Vec<(i64, i64, i64)> = Vec::new();
    let mut n: usize = 0;
    while n < candidate_reflections.len()
        invariant
            n <= candidate_reflections.len(),
            forall|i: int|
                0 <= i < d_keys.len() ==> d_count(
                    s,
                    (#[trigger] d_keys[i]).0 as int,
                    d_keys[i].1 as int,
                    d_keys[i].2 as int,
                    d_keys[i].3 as int,
                    n as int,
                ) > 0,
            forall|i: int|
                0 <= i < s_keys.len() ==> s_count(
                    s,
                    (#[trigger] s_keys[i]).0 as int,
                    s_keys[i].1 as int,
                    s_keys[i].2 as int,
                    n as int,
                ) > 0,
            forall|i1: int, i2: int|
                0 <= i1 < i2 < d_keys.len() ==> #[trigger] d_keys[i1] != #[trigger] d_keys[i2],
            forall|i1: int, i2: int|
                0 <= i1 < i2 < s_keys.len() ==> #[trigger] s_keys[i1] != #[trigger] s_keys[i2],
            forall|i: int|
                0 <= i < d_keys.len() ==> 0 <= (#[trigger] d_keys[i]).0 < 1024
                    && 0 <= d_keys[i].1 < 1024 && 0 <= d_keys[i].2 < 4
                    && 0 <= d_keys[i].3 < 360_000,
            forall|i: int|
                0 <= i < s_keys.len() ==> 0 <= (#[trigger] s_keys[i]).0 < 1024
                    && 0 <= s_keys[i].1 < 1024 && 0 <= s_keys[i].2 < 4,
            d_keys@ == d_keys_spec(s, n as int),
            s_keys@ == s_keys_spec(s, n as int),
            forall|m: int|
                0 <= m < n && (#[trigger] s[m]).diffuse ==> exists|i: int|
                    0 <= i < d_keys.len() && #[trigger] d_keys[i]
                        == (s[m].x, s[m].y, s[m].face, s[m].direction),
            forall|m: int|
                0 <= m < n && !(#[trigger] s[m]).diffuse ==> exists|i: int|
                    0 <= i < s_keys.len() && #[trigger] s_keys[i] == (s[m].x, s[m].y, s[m].face),
        decreases candidate_reflections.len() - n,
    {
        let c = candidate_reflections[n];
        let ghost old_d = d_keys@;
        let ghost old_s = s_keys@;
        if c.diffuse {
            let key = (c.x, c.y, c.face, c.direction);
            let present = contains_d_key(&d_keys, key);
            proof {
                assert(present == d_keys@.contains(key));
            }
            if !present {
                d_keys.push(key);
                proof {
                    assert(d_matches(
                        s[n as int],
                        key.0 as int,
                        key.1 as int,
                        key.2 as int,
                        key.3 as int,
                    ));
                    lemma_d_count_nonneg(
                        s,
                        key.0 as int,
                        key.1 as int,
                        key.2 as int,
                        key.3 as int,
                        n as int,
                    );
                    assert(d_count(
                        s,
                        key.0 as int,
                        key.1 as int,
                        key.2 as int,
                        key.3 as int,
                        n + 1,
                    ) > 0);
                }
            }
            proof {
                if !present {
                    assert(d_keys[d_keys.len() - 1] == key);
                }
                assert(exists|i: int|
                    0 <= i < d_keys.len() && #[trigger] d_keys[i]
                        == (c.x, c.y, c.face, c.direction));
            }
        } else {
            let key = (c.x, c.y, c.face);
            let present = contains_s_key(&s_keys, key);
            proof {
                assert(present == s_keys@.contains(key));
            }
            if !present {
                s_keys.push(key);
                proof {
                    assert(s_matches(s[n as int], key.0 as int, key.1 as int, key.2 as int));
                    lemma_s_count_nonneg(s, key.0 as int, key.1 as int, key.2 as int, n as int);
                    assert(s_count(s, key.0 as int, key.1 as int, key.2 as int, n + 1) > 0);
                }
            }
            proof {
                if !present {
                    assert(s_keys[s_keys.len() - 1] == key);
                }
                assert(exists|i: int|
                    0 <= i < s_keys.len() && #[trigger] s_keys[i] == (c.x, c.y, c.face));
            }
        }
        proof {
            assert forall|i: int| 0 <= i < d_keys.len() implies d_count(
                s,
                (#[trigger] d_keys[i]).0 as int,
                d_keys[i].1 as int,
                d_keys[i].2 as int,
                d_keys[i].3 as int,
                n + 1,
            ) > 0 by {
                lemma_d_count_mono(
                    s,
                    d_keys[i].0 as int,
                    d_keys[i].1 as int,
                    d_keys[i].2 as int,
                    d_keys[i].3 as int,
                    n as int,
                    n + 1,
                );
                if i < old_d.len() {
                    assert(d_keys[i] == old_d[i]);
                    assert(d_count(
                        s,
                        d_keys[i].0 as int,
                        d_keys[i].1 as int,
                        d_keys[i].2 as int,
                        d_keys[i].3 as int,
                        n as int,
                    ) > 0);
                }
            }
            assert forall|i: int| 0 <= i < s_keys.len() implies s_count(
                s,
                (#[trigger] s_keys[i]).0 as int,
                s_keys[i].1 as int,
                s_keys[i].2 as int,
                n + 1,
            ) > 0 by {
                lemma_s_count_mono(
                    s,
                    s_keys[i].0 as int,
                    s_keys[i].1 as int,
                    s_keys[i].2 as int,
                    n as int,
                    n + 1,
                );
                if i < old_s.len() {
                    assert(s_keys[i] == old_s[i]);
                    assert(s_count(
                        s,
                        s_keys[i].0 as int,
                        s_keys[i].1 as int,
                        s_keys[i].2 as int,
                        n as int,
                    ) > 0);
                }
            }
            assert forall|m: int| 0 <= m < n + 1 && (#[trigger] s[m]).diffuse
                implies exists|i: int|
                    0 <= i < d_keys.len() && #[trigger] d_keys[i]
                        == (s[m].x, s[m].y, s[m].face, s[m].direction) by {
                if m < n {
                    let i = choose|i: int|
                        0 <= i < old_d.len() && #[trigger] old_d[i]
                            == (s[m].x, s[m].y, s[m].face, s[m].direction);
                    assert(d_keys[i] == (s[m].x, s[m].y, s[m].face, s[m].direction));
                }
            }
            assert forall|m: int| 0 <= m < n + 1 && !(#[trigger] s[m]).diffuse
                implies exists|i: int|
                    0 <= i < s_keys.len() && #[trigger] s_keys[i] == (s[m].x, s[m].y, s[m].face)
                by {
                if m < n {
                    let i = choose|i: int|
                        0 <= i < old_s.len() && #[trigger] old_s[i] == (s[m].x, s[m].y, s[m].face);
                    assert(s_keys[i] == (s[m].x, s[m].y, s[m].face));
                }
            }
        }
        n += 1;
    }

    let mut out: Vec<ChildReflection> = Vec::new();

    // One averaged diffuse reflection per diffuse key.
    let mut kk: usize = 0;
    while kk < d_keys.len()
        invariant
            kk <= d_keys.len(),
            out.len() == kk,
            forall|k: int| 0 <= k < kk ==> (#[trigger] out[k]).diffuse,
            forall|k: int|
                0 <= k < kk ==> ((#[trigger] out[k]).x, out[k].y, out[k].face, out[k].direction)
                    == d_keys[k],
            forall|k: int| 0 <= k < kk ==> filtered_diffuse_ok(#[trigger] out[k], s),
            forall|k: int| 0 <= k < kk ==> (#[trigger] out[k]).valid(),
            forall|k: int| 0 <= k < kk ==> #[trigger] out[k] == diffuse_out_spec(s, d_keys@[k]),
        decreases d_keys.len() - kk,
    {
        let key = d_keys[kk];
        let mut cnt: u64 = 0;
        let mut sum_r: u64 = 0;
        let mut sum_g: u64 = 0;
        let mut sum_b: u64 = 0;
        let mut m: usize = 0;
        while m < candidate_reflections.len()
            invariant
                m <= candidate_reflections.len(),
                cnt == d_count(s, key.0 as int, key.1 as int, key.2 as int, key.3 as int, m as int),
                cnt <= m,
                sum_r == d_sum(s, key.0 as int, key.1 as int, key.2 as int, key.3 as int, m as int).0,
                sum_g == d_sum(s, key.0 as int, key.1 as int, key.2 as int, key.3 as int, m as int).1,
                sum_b == d_sum(s, key.0 as int, key.1 as int, key.2 as int, key.3 as int, m as int).2,
                sum_r <= cnt * 1_000_000_000_000,
                sum_g <= cnt * 1_000_000_000_000,
                sum_b <= cnt * 1_000_000_000_000,
            decreases candidate_reflections.len() - m,
        {
            let c = candidate_reflections[m];
            if c.diffuse && c.x == key.0 && c.y == key.1 && c.face == key.2 && c.direction == key.3 {
                cnt = cnt + 1;
                sum_r = sum_r + c.intensity_profile.r;
                sum_g = sum_g + c.intensity_profile.g;
                sum_b = sum_b + c.intensity_profile.b;
            }
            m += 1;
        }
        assert(cnt > 0) by {
            assert(d_count(s, key.0 as int, key.1 as int, key.2 as int, key.3 as int, full) > 0);
        }
        let avg = Rgb { r: sum_r / cnt, g: sum_g / cnt, b: sum_b / cnt };
        proof {
            assert(sum_r / cnt <= CHANNEL_MAX) by (nonlinear_arith)
                requires sum_r <= cnt * 1_000_000_000_000 && cnt >= 1;
            assert(sum_g / cnt <= CHANNEL_MAX) by (nonlinear_arith)
                requires sum_g <= cnt * 1_000_000_000_000 && cnt >= 1;
            assert(sum_b / cnt <= CHANNEL_MAX) by (nonlinear_arith)
                requires sum_b <= cnt * 1_000_000_000_000 && cnt >= 1;
        }
        out.push(ChildReflection::new(
            true,
            key.0,
            key.1,
            (500_000, 0),
            key.2,
            key.3,
            avg,
            90_000,
            90_000,
        ));
        kk += 1;
    }
    let ghost n_diffuse: int = out.len() as int;

    // One averaged specular reflection per specular key.
    let mut jj: usize = 0;
    while jj < s_keys.len()
        invariant
            jj <= s_keys.len(),
            out.len() == n_diffuse + jj,
            n_diffuse == d_keys.len(),
            forall|k: int| 0 <= k < n_diffuse ==> (#[trigger] out[k]).diffuse,
            forall|k: int|
                0 <= k < n_diffuse ==> ((#[trigger] out[k]).x, out[k].y, out[k].face,
                    out[k].direction) == d_keys[k],
            forall|k: int| 0 <= k < n_diffuse ==> filtered_diffuse_ok(#[trigger] out[k], s),
            forall|k: int| n_diffuse <= k < out.len() ==> !(#[trigger] out[k]).diffuse,
            forall|k: int|
                n_diffuse <= k < out.len() ==> ((#[trigger] out[k]).x, out[k].y, out[k].face)
                    == s_keys[k - n_diffuse],
            forall|k: int|
                n_diffuse <= k < out.len() ==> filtered_specular_ok(#[trigger] out[k], s),
            forall|k: int| 0 <= k < out.len() ==> (#[trigger] out[k]).valid(),
            forall|k: int|
                0 <= k < n_diffuse ==> #[trigger] out[k] == diffuse_out_spec(s, d_keys@[k]),
            forall|k: int|
                n_diffuse <= k < out.len() ==> #[trigger] out[k] == specular_out_spec(
                    s,
                    *brightness_tables,
                    s_keys@[k - n_diffuse],
                ),
        decreases s_keys.len() - jj,
    {
        let key = s_keys[jj];
        let mut cnt: u64 = 0;
        let mut sum_r: u64 = 0;
        let mut sum_g: u64 = 0;
        let mut sum_b: u64 = 0;
        let mut sum_sin: i64 = 0;
        let mut sum_cos: i64 = 0;
        let mut last_sweep: i64 = 0;
        let mut last_coll: i64 = 0;
        let mut m: usize = 0;
        while m < candidate_reflections.len()
            invariant
                m <= candidate_reflections.len(),
                cnt == s_count(s, key.0 as int, key.1 as int, key.2 as int, m as int),
                cnt <= m,
                sum_r == s_sum(s, key.0 as int, key.1 as int, key.2 as int, m as int).0,
                sum_g == s_sum(s, key.0 as int, key.1 as int, key.2 as int, m as int).1,
                sum_b == s_sum(s, key.0 as int, key.1 as int, key.2 as int, m as int).2,
                sum_cos == s_dir_sum(s, key.0 as int, key.1 as int, key.2 as int, m as int).0,
                sum_sin == s_dir_sum(s, key.0 as int, key.1 as int, key.2 as int, m as int).1,
                last_sweep == s_last_shape(s, key.0 as int, key.1 as int, key.2 as int, m as int).0,
                last_coll == s_last_shape(s, key.0 as int, key.1 as int, key.2 as int, m as int).1,
                sum_r <= cnt * 1_000_000_000_000,
                sum_g <= cnt * 1_000_000_000_000,
                sum_b <= cnt * 1_000_000_000_000,
                -(cnt as int) * 1_000_000 <= sum_cos <= (cnt as int) * 1_000_000,
                -(cnt as int) * 1_000_000 <= sum_sin <= (cnt as int) * 1_000_000,
                0 <= last_sweep <= 360_000,
                0 <= last_coll <= 90_000,
            decreases candidate_reflections.len() - m,
        {
            let c = candidate_reflections[m];
            if !c.diffuse && c.x == key.0 && c.y == key.1 && c.face == key.2 {
                cnt = cnt + 1;
                sum_r = sum_r + c.intensity_profile.r;
                sum_g = sum_g + c.intensity_profile.g;
                sum_b = sum_b + c.intensity_profile.b;
                sum_cos = sum_cos + cos_mdeg(c.direction);
                sum_sin = sum_sin + sin_mdeg(c.direction);
                last_sweep = c.angular_sweep;
                last_coll = c.collimation;
            }
            m += 1;
        }
        assert(cnt > 0) by {
            assert(s_count(s, key.0 as int, key.1 as int, key.2 as int, full) > 0);
        }
        let avg = Rgb { r: sum_r / cnt, g: sum_g / cnt, b: sum_b / cnt };
        proof {
            assert(sum_r / cnt <= CHANNEL_MAX) by (nonlinear_arith)
                requires sum_r <= cnt * 1_000_000_000_000 && cnt >= 1;
            assert(sum_g / cnt <= CHANNEL_MAX) by (nonlinear_arith)
                requires sum_g <= cnt * 1_000_000_000_000 && cnt >= 1;
            assert(sum_b / cnt <= CHANNEL_MAX) by (nonlinear_arith)
                requires sum_b <= cnt * 1_000_000_000_000 && cnt >= 1;
            assert(-1_000_000 <= sdiv_spec(sum_cos as int, cnt as int) <= 1_000_000)
                by (nonlinear_arith)
                requires
                    cnt >= 1,
                    -(cnt as int) * 1_000_000 <= sum_cos <= (cnt as int) * 1_000_000;
            assert(-1_000_000 <= sdiv_spec(sum_sin as int, cnt as int) <= 1_000_000)
                by (nonlinear_arith)
                requires
                    cnt >= 1,
                    -(cnt as int) * 1_000_000 <= sum_sin <= (cnt as int) * 1_000_000;
        }
        let avg_cos = sdiv(sum_cos, cnt as i64);
        let avg_sin = sdiv(sum_sin, cnt as i64);
        let direction = determine_alpha_angle((avg_cos, avg_sin), 0, brightness_tables);
        let pos_offset: (i64, i64) = if key.2 == 0 {
            (500_000, 0)
        } else if key.2 == 1 {
            (0, 500_000)
        } else if key.2 == 2 {
            (-500_000, 0)
        } else {
            (0, -500_000)
        };
        out.push(ChildReflection::new(
            false,
            key.0,
            key.1,
            pos_offset,
            key.2,
            direction,
            avg,
            last_sweep,
            last_coll,
        ));
        jj += 1;
    }

    proof {
        assert forall|k1: int, k2: int| 0 <= k1 < k2 < out.len()
            implies !(#[trigger] out[k1]).diffuse || !(#[trigger] out[k2]).diffuse || out[k1].x
                != out[k2].x || out[k1].y != out[k2].y || out[k1].face != out[k2].face
                || out[k1].direction != out[k2].direction by {
            if out[k1].diffuse && out[k2].diffuse {
                assert(k1 < n_diffuse && k2 < n_diffuse);
                assert(d_keys[k1] != d_keys[k2]);
            }
        }
        assert forall|k1: int, k2: int| 0 <= k1 < k2 < out.len()
            implies (#[trigger] out[k1]).diffuse || (#[trigger] out[k2]).diffuse || out[k1].x
                != out[k2].x || out[k1].y != out[k2].y || out[k1].face != out[k2].face by {
            if !out[k1].diffuse && !out[k2].diffuse {
                assert(n_diffuse <= k1 && n_diffuse <= k2);
                assert(s_keys[k1 - n_diffuse] != s_keys[k2 - n_diffuse]);
            }
        }
        assert forall|q: int|
            0 <= q < candidate_reflections.len() && (#[trigger] candidate_reflections[q]).diffuse
            implies exists|k: int|
                0 <= k < out.len() && (#[trigger] out[k]).diffuse && out[k].x
                    == candidate_reflections[q].x && out[k].y == candidate_reflections[q].y
                    && out[k].face == candidate_reflections[q].face && out[k].direction
                    == candidate_reflections[q].direction by {
            let i = choose|i: int|
                0 <= i < d_keys.len() && #[trigger] d_keys[i] == (s[q].x, s[q].y, s[q].face, s[q].direction);
            assert(out[i].diffuse && ((out[i].x, out[i].y, out[i].face, out[i].direction))
                == d_keys[i]);
        }
        assert forall|q: int|
            0 <= q < candidate_reflections.len() && !(#[trigger] candidate_reflections[q]).diffuse
            implies exists|k: int|
                0 <= k < out.len() && !(#[trigger] out[k]).diffuse && out[k].x
                    == candidate_reflections[q].x && out[k].y == candidate_reflections[q].y
                    && out[k].face == candidate_reflections[q].face by {
            let i = choose|i: int|
                0 <= i < s_keys.len() && #[trigger] s_keys[i] == (s[q].x, s[q].y, s[q].face);
            assert(!out[n_diffuse + i].diffuse && ((out[n_diffuse + i].x, out[n_diffuse + i].y,
                out[n_diffuse + i].face)) == s_keys[i]);
        }
        assert(out@ =~= filter_output_spec(s, *brightness_tables));
    }
    out
}

} // verus!
