//! Narrow-phase collision resolution: detecting that two disks overlap and
//! splitting the overlap into a mass-weighted pair of positional corrections.
//!
//! Mass is proportional to the disk area, so the weights are the squared
//! radii (the common factor pi cancels out of every ratio). The corrections
//! move the two centers apart along their connecting line until they just
//! touch; the lighter body moves proportionally more.

use vstd::prelude::*;

use crate::fixed::{
    abs64, abs_spec, isqrt, lemma_sqrt_floor_bounds, sqrt_floor, COORD_LIMIT, RADIUS_LIMIT,
};
use crate::object::{body_wf, shifted, VerletObject};
use crate::vec2::Vec2;

verus! {

/// The collision-relevant slice of a body: its center and radius.
#[derive(Clone, Copy, PartialEq, Eq, Structural, Debug)]
pub struct Ball {
    pub center: Vec2,
    pub radius: i64,
}

impl Ball {
    /// Center in the coordinate band, radius positive and bounded.
    pub open spec fn ok(self) -> bool {
        &&& self.center.in_band()
        &&& 0 < self.radius <= RADIUS_LIMIT
    }
}

impl From<VerletObject> for Ball {
    fn from(value: VerletObject) -> (r: Ball) {
        Ball { center: value.position, radius: value.radius }
    }
}

impl vstd::std_specs::convert::FromSpecImpl<VerletObject> for Ball {
    open spec fn obeys_from_spec() -> bool {
        true
    }

    open spec fn from_spec(v: VerletObject) -> Ball {
        Ball { center: v.position, radius: v.radius }
    }
}

/// The pair of positional corrections that resolves an overlap of the two
/// disks, or `None` when the disks do not overlap strictly or share their
/// center (a shared center leaves no direction to separate along, and is
/// deliberately treated as a degenerate non-collision).
///
/// In the overlap case, with `dist` the rounded-down center distance,
/// `ov = r0 + r1 - dist` the overlap, and `w = radius^2` the mass weights,
/// the first body moves by `-(w1/(w0+w1)) * ov` along the center line and
/// the second by `+(w0/(w0+w1)) * ov`, each component truncated toward zero.
pub open spec fn pair_adjustments(b0: Ball, b1: Ball) -> Option<(Vec2, Vec2)> {
    let dx = b1.center.x - b0.center.x;
    let dy = b1.center.y - b0.center.y;
    let d2 = dx * dx + dy * dy;
    let rsum = b0.radius + b1.radius;
    if d2 >= rsum * rsum || d2 == 0 {
        None
    } else {
        let dist = sqrt_floor(d2 as nat) as int;
        let ov = rsum - dist;
        let w0 = b0.radius * b0.radius;
        let w1 = b1.radius * b1.radius;
        let denom = dist * (w0 + w1);
        let m0x = abs_spec(dx) * ov * w1 / denom;
        let m0y = abs_spec(dy) * ov * w1 / denom;
        let m1x = abs_spec(dx) * ov * w0 / denom;
        let m1y = abs_spec(dy) * ov * w0 / denom;
        Some(
            (
                Vec2 {
                    x: (if dx >= 0 {
                        -m0x
                    } else {
                        m0x
                    }) as i64,
                    y: (if dy >= 0 {
                        -m0y
                    } else {
                        m0y
                    }) as i64,
                },
                Vec2 {
                    x: (if dx >= 0 {
                        m1x
                    } else {
                        -m1x
                    }) as i64,
                    y: (if dy >= 0 {
                        m1y
                    } else {
                        -m1y
                    }) as i64,
                },
            ),
        )
    }
}

/// A component magnitude never exceeds the rounded center distance.
proof fn lemma_abs_le_sqrt(d: int, d2: nat)
    requires
        d * d <= d2,
    ensures
        abs_spec(d) <= sqrt_floor(d2),
{
    lemma_sqrt_floor_bounds(d2);
    let s = sqrt_floor(d2);
    if abs_spec(d) > s {
        assert((s + 1) * (s + 1) <= abs_spec(d) * abs_spec(d) && abs_spec(d) * abs_spec(d) == d
            * d) by (nonlinear_arith)
            requires
                s + 1 <= abs_spec(d),
        ;
    }
}

/// Every correction component is bounded by the overlap, hence by the sum of
/// the two radii. This keeps each correction a valid shift vector.
pub proof fn lemma_adjustment_magnitudes(b0: Ball, b1: Ball)
    requires
        b0.ok(),
        b1.ok(),
    ensures
        match pair_adjustments(b0, b1) {
            Some((v0, v1)) => {
                &&& abs_spec(v0.x as int) <= 2 * RADIUS_LIMIT
                &&& abs_spec(v0.y as int) <= 2 * RADIUS_LIMIT
                &&& abs_spec(v1.x as int) <= 2 * RADIUS_LIMIT
                &&& abs_spec(v1.y as int) <= 2 * RADIUS_LIMIT
            },
            None => true,
        },
{
    let dx = b1.center.x - b0.center.x;
    let dy = b1.center.y - b0.center.y;
    let d2 = dx * dx + dy * dy;
    let rsum = b0.radius + b1.radius;
    if d2 < rsum * rsum && d2 != 0 {
        assert(dx * dx >= 0 && dy * dy >= 0) by (nonlinear_arith);
        let dist = sqrt_floor(d2 as nat) as int;
        let ov = rsum - dist;
        let w0 = b0.radius * b0.radius;
        let w1 = b1.radius * b1.radius;
        let denom = dist * (w0 + w1);
        lemma_sqrt_floor_bounds(d2 as nat);
        assert(dist < rsum) by (nonlinear_arith)
            requires
                dist * dist <= d2,
                d2 < rsum * rsum,
                0 <= dist,
                0 < rsum,
        ;
        assert(0 < b0.radius * b0.radius && 0 < b1.radius * b1.radius) by (nonlinear_arith)
            requires
                0 < b0.radius && 0 < b1.radius,
        ;
        assert(1 <= dist) by (nonlinear_arith)
            requires
                (dist + 1) * (dist + 1) > d2,
                d2 >= 1,
                0 <= dist,
        ;
        assert(0 < dist * (w0 + w1)) by (nonlinear_arith)
            requires
                1 <= dist,
                0 < w0 + w1,
        ;
        lemma_abs_le_sqrt(dx, d2 as nat);
        lemma_abs_le_sqrt(dy, d2 as nat);
        lemma_component_bound(abs_spec(dx), ov, w1, dist, w0 + w1);
        lemma_component_bound(abs_spec(dy), ov, w1, dist, w0 + w1);
        lemma_component_bound(abs_spec(dx), ov, w0, dist, w0 + w1);
        lemma_component_bound(abs_spec(dy), ov, w0, dist, w0 + w1);
    }
}

/// `(m * ov * w) / (dist * wsum) <= ov` whenever `m <= dist` and `w <= wsum`.
proof fn lemma_component_bound(m: int, ov: int, w: int, dist: int, wsum: int)
    requires
        0 <= m <= dist,
        0 <= ov,
        0 < w <= wsum,
        1 <= dist,
    ensures
        0 <= m * ov * w / (dist * wsum) <= ov,
{
    assert(0 <= m * ov * w && m * ov * w <= (dist * wsum) * ov && 0 < dist
        * wsum) by (nonlinear_arith)
        requires
            0 <= m <= dist,
            0 <= ov,
            0 < w <= wsum,
            1 <= dist,
    ;
    vstd::arithmetic::div_mod::lemma_div_is_ordered(m * ov * w, (dist * wsum) * ov, dist * wsum);
    vstd::arithmetic::div_mod::lemma_div_multiples_vanish(ov, dist * wsum);
    vstd::arithmetic::div_mod::lemma_div_pos_is_pos(m * ov * w, dist * wsum);
}

/// Computes the mass-weighted pair of corrections for two overlapping disks,
/// or `None` when they do not overlap strictly or share their center.
pub fn get_adjustments(b0: Ball, b1: Ball) -> (r: Option<(Vec2, Vec2)>)
    requires
        b0.ok(),
        b1.ok(),
    ensures
        r == pair_adjustments(b0, b1),
{
    proof {
        lemma_adjustment_magnitudes(b0, b1);
    }
    let dx = b1.center.x - b0.center.x;
    let dy = b1.center.y - b0.center.y;
    let mdx = abs64(dx) as u128;
    let mdy = abs64(dy) as u128;
    proof {
        assert(mdx * mdx == dx * dx && mdy * mdy == dy * dy && mdx * mdx + mdy * mdy
            <= u128::MAX) by (nonlinear_arith)
            requires
                mdx == abs_spec(dx as int),
                mdy == abs_spec(dy as int),
                0 <= mdx <= 2 * COORD_LIMIT,
                0 <= mdy <= 2 * COORD_LIMIT,
        ;
    }
    let d2 = mdx * mdx + mdy * mdy;
    let rsum = b0.radius + b1.radius;
    let rsum_w = rsum as u128;
    proof {
        assert(rsum_w * rsum_w <= u128::MAX) by (nonlinear_arith)
            requires
                0 <= rsum_w <= 2 * RADIUS_LIMIT,
        ;
    }
    if d2 >= rsum_w * rsum_w || d2 == 0 {
        None
    } else {
        let dist = isqrt(d2) as u128;
        proof {
            lemma_sqrt_floor_bounds(d2 as nat);
            assert(1 <= dist && dist < rsum_w) by (nonlinear_arith)
                requires
                    dist == sqrt_floor(d2 as nat),
                    dist * dist <= d2,
                    d2 < (dist + 1) * (dist + 1),
                    d2 < rsum_w * rsum_w,
                    1 <= d2,
                    0 < rsum_w,
            ;
            lemma_abs_le_sqrt(dx as int, d2 as nat);
            lemma_abs_le_sqrt(dy as int, d2 as nat);
        }
        let ov = rsum_w - dist;
        proof {
            assert((b0.radius as int) * (b0.radius as int) <= RADIUS_LIMIT * RADIUS_LIMIT && 0
                < (b0.radius as int) * (b0.radius as int)) by (nonlinear_arith)
                requires
                    0 < b0.radius <= RADIUS_LIMIT,
            ;
            assert((b1.radius as int) * (b1.radius as int) <= RADIUS_LIMIT * RADIUS_LIMIT && 0
                < (b1.radius as int) * (b1.radius as int)) by (nonlinear_arith)
                requires
                    0 < b1.radius <= RADIUS_LIMIT,
            ;
        }
        let w0 = (b0.radius as u128) * (b0.radius as u128);
        let w1 = (b1.radius as u128) * (b1.radius as u128);
        proof {
            assert(1 <= dist * (w0 + w1) && dist * (w0 + w1) <= u128::MAX && mdx * ov <= u128::MAX
                && mdy * ov <= u128::MAX && mdx * ov * w1 <= u128::MAX && mdy * ov * w1
                <= u128::MAX && mdx * ov * w0 <= u128::MAX && mdy * ov * w0
                <= u128::MAX) by (nonlinear_arith)
                requires
                    0 <= mdx <= dist,
                    0 <= mdy <= dist,
                    1 <= dist < rsum_w,
                    0 <= ov <= rsum_w,
                    0 < rsum_w <= 2 * RADIUS_LIMIT,
                    0 < w0 <= RADIUS_LIMIT * RADIUS_LIMIT,
                    0 < w1 <= RADIUS_LIMIT * RADIUS_LIMIT,
            ;
        }
        let denom = dist * (w0 + w1);
        proof {
            lemma_component_bound(mdx as int, ov as int, w1 as int, dist as int, (w0 + w1) as int);
            lemma_component_bound(mdy as int, ov as int, w1 as int, dist as int, (w0 + w1) as int);
            lemma_component_bound(mdx as int, ov as int, w0 as int, dist as int, (w0 + w1) as int);
            lemma_component_bound(mdy as int, ov as int, w0 as int, dist as int, (w0 + w1) as int);
        }
        let m0x = mdx * ov * w1 / denom;
        let m0y = mdy * ov * w1 / denom;
        let m1x = mdx * ov * w0 / denom;
        let m1y = mdy * ov * w0 / denom;
        let v0 = Vec2 {
            x: if dx >= 0 {
                -(m0x as i64)
            } else {
                m0x as i64
            },
            y: if dy >= 0 {
                -(m0y as i64)
            } else {
                m0y as i64
            },
        };
        let v1 = Vec2 {
            x: if dx >= 0 {
                m1x as i64
            } else {
                -(m1x as i64)
            },
            y: if dy >= 0 {
                m1y as i64
            } else {
                -(m1y as i64)
            },
        };
        Some((v0, v1))
    }
}

} // verus!

verus! {

/// The collision-relevant slice of a body, as a spec value.
pub open spec fn ball_of(b: VerletObject) -> Ball {
    Ball { center: b.position, radius: b.radius }
}

/// Every body in the sequence is well-formed.
pub open spec fn bodies_ok(s: Seq<VerletObject>) -> bool {
    forall|k: int| 0 <= k < s.len() ==> body_wf(#[trigger] s[k])
}

/// The fields a positional correction never touches.
pub open spec fn same_frame(a: VerletObject, b: VerletObject) -> bool {
    &&& a.previous_position == b.previous_position
    &&& a.radius == b.radius
    &&& a.acceleration == b.acceleration
    &&& a.color == b.color
}

/// The sequence after resolving the single pair `(a, b)`: if the two disks
/// overlap, both bodies are shifted by their corrections; otherwise nothing
/// changes.
pub open spec fn step_pair(s: Seq<VerletObject>, a: int, b: int) -> Seq<VerletObject> {
    match pair_adjustments(ball_of(s[a]), ball_of(s[b])) {
        None => s,
        Some((v0, v1)) => s.update(a, shifted(s[a], v0)).update(b, shifted(s[b], v1)),
    }
}

/// The sequence after resolving, in order, every pair `(idxs[i], idxs[j])`
/// with `i < j`, starting from the pair `(i, j)`. Corrections compound: each
/// pair is resolved against the then-current positions.
pub open spec fn solve_from(
    s: Seq<VerletObject>,
    idxs: Seq<usize>,
    i: nat,
    j: nat,
) -> Seq<VerletObject>
    decreases idxs.len() - i, idxs.len() - j,
{
    if i + 1 >= idxs.len() {
        s
    } else if j >= idxs.len() {
        solve_from(s, idxs, i + 1, i + 2)
    } else {
        solve_from(step_pair(s, idxs[i as int] as int, idxs[j as int] as int), idxs, i, j + 1)
    }
}

/// The sequence after one full pass over all unordered pairs of `idxs`.
pub open spec fn solved_at(s: Seq<VerletObject>, idxs: Seq<usize>) -> Seq<VerletObject> {
    solve_from(s, idxs, 0, 1)
}

/// The identity index sequence `0, 1, ..., n-1`.
pub open spec fn all_indexes(n: nat) -> Seq<usize> {
    Seq::new(n, |k: int| k as usize)
}

/// The sequence after one full all-pairs pass.
pub open spec fn solved_all(s: Seq<VerletObject>) -> Seq<VerletObject> {
    solved_at(s, all_indexes(s.len()))
}

/// The indexes are all in range and pairwise distinct.
pub open spec fn indexes_ok(idxs: Seq<usize>, n: nat) -> bool {
    &&& forall|k: int| 0 <= k < idxs.len() ==> (#[trigger] idxs[k]) < n
    &&& forall|k: int, l: int| 0 <= k < l < idxs.len() ==> idxs[k] != idxs[l]
}

/// Whether some entry of `idxs` equals `k`.
pub open spec fn in_indexes(k: int, idxs: Seq<usize>) -> bool {
    exists|t: int| 0 <= t < idxs.len() && idxs[t] == k
}

/// Resolving one pair keeps the length, well-formedness and every
/// non-positional field, and touches no body outside the pair.
proof fn lemma_step_pair_props(s: Seq<VerletObject>, a: int, b: int)
    requires
        0 <= a < s.len(),
        0 <= b < s.len(),
        a != b,
        bodies_ok(s),
    ensures
        step_pair(s, a, b).len() == s.len(),
        bodies_ok(step_pair(s, a, b)),
        forall|k: int|
            0 <= k < s.len() && k != a && k != b ==> step_pair(s, a, b)[k] == s[k],
        forall|k: int|
            0 <= k < s.len() ==> same_frame(s[k], #[trigger] step_pair(s, a, b)[k]),
        !crate::object::overlapping(s[a], s[b]) ==> step_pair(s, a, b) == s,
{
    match pair_adjustments(ball_of(s[a]), ball_of(s[b])) {
        None => {},
        Some((v0, v1)) => {},
    }
}

/// A full pass keeps the length, well-formedness and every non-positional
/// field, and touches no body whose index is outside `idxs`.
pub proof fn lemma_solve_from_props(s: Seq<VerletObject>, idxs: Seq<usize>, i: nat, j: nat)
    requires
        bodies_ok(s),
        indexes_ok(idxs, s.len()),
        i < j,
    ensures
        solve_from(s, idxs, i, j).len() == s.len(),
        bodies_ok(solve_from(s, idxs, i, j)),
        forall|k: int|
            0 <= k < s.len() ==> same_frame(s[k], #[trigger] solve_from(s, idxs, i, j)[k]),
        forall|k: int|
            0 <= k < s.len() && !in_indexes(k, idxs) ==> #[trigger] solve_from(s, idxs, i, j)[k]
                == s[k],
    decreases idxs.len() - i, idxs.len() - j,
{
    if i + 1 >= idxs.len() {
    } else if j >= idxs.len() {
        lemma_solve_from_props(s, idxs, (i + 1) as nat, (i + 2) as nat);
    } else {
        let a = idxs[i as int] as int;
        let b = idxs[j as int] as int;
        lemma_step_pair_props(s, a, b);
        let s1 = step_pair(s, a, b);
        lemma_solve_from_props(s1, idxs, i, (j + 1) as nat);
        assert forall|k: int| 0 <= k < s.len() && !in_indexes(k, idxs) implies #[trigger] solve_from(
            s,
            idxs,
            i,
            j,
        )[k] == s[k] by {
            assert(k != a && k != b);
        }
    }
}

/// If no two of the indexed bodies overlap, a full pass is the identity.
pub proof fn lemma_solve_from_no_overlap(s: Seq<VerletObject>, idxs: Seq<usize>, i: nat, j: nat)
    requires
        bodies_ok(s),
        indexes_ok(idxs, s.len()),
        i < j,
        forall|a: int, b: int|
            0 <= a < idxs.len() && 0 <= b < idxs.len() && a != b ==> !crate::object::overlapping(
                s[idxs[a] as int],
                s[idxs[b] as int],
            ),
    ensures
        solve_from(s, idxs, i, j) == s,
    decreases idxs.len() - i, idxs.len() - j,
{
    if i + 1 >= idxs.len() {
    } else if j >= idxs.len() {
        lemma_solve_from_no_overlap(s, idxs, (i + 1) as nat, (i + 2) as nat);
    } else {
        let a = idxs[i as int] as int;
        let b = idxs[j as int] as int;
        lemma_step_pair_props(s, a, b);
        assert(!crate::object::overlapping(s[a], s[b]));
        assert(step_pair(s, a, b) == s);
        lemma_solve_from_no_overlap(s, idxs, i, (j + 1) as nat);
    }
}

/// Resolves every unordered pair of the candidate set `indexes`, compounding
/// the corrections within the pass.
pub fn solve_at(objects: &mut Vec<VerletObject>, indexes: &Vec<usize>)
    requires
        bodies_ok(old(objects)@),
        indexes_ok(indexes@, old(objects)@.len()),
    ensures
        final(objects)@ == solved_at(old(objects)@, indexes@),
        final(objects)@.len() == old(objects)@.len(),
        bodies_ok(final(objects)@),
{
    let ghost orig = objects@;
    let n = indexes.len();
    let mut i: usize = 0;
    while i < n
        invariant
            n == indexes@.len(),
            0 <= i <= n,
            objects@.len() == orig.len(),
            bodies_ok(objects@),
            indexes_ok(indexes@, orig.len()),
            solve_from(objects@, indexes@, i as nat, (i + 1) as nat) == solved_at(orig, indexes@),
        decreases n - i,
    {
        let mut j: usize = i + 1;
        while j < n
            invariant
                n == indexes@.len(),
                0 <= i < n,
                i + 1 <= j <= n,
                objects@.len() == orig.len(),
                bodies_ok(objects@),
                indexes_ok(indexes@, orig.len()),
                solve_from(objects@, indexes@, i as nat, j as nat) == solved_at(orig, indexes@),
            decreases n - j,
        {
            let idx0 = indexes[i];
            let idx1 = indexes[j];
            let o0 = objects[idx0];
            let o1 = objects[idx1];
            let ghost before = objects@;
            proof {
                lemma_adjustment_magnitudes(ball_of(o0), ball_of(o1));
                assert(idx0 != idx1);
            }
            if let Some((v0, v1)) = get_adjustments(Ball::from(o0), Ball::from(o1)) {
                let mut t0 = objects[idx0];
                t0.shift(v0);
                objects[idx0] = t0;
                let mut t1 = objects[idx1];
                t1.shift(v1);
                objects[idx1] = t1;
            }
            proof {
                assert(objects@ == step_pair(before, idx0 as int, idx1 as int));
                lemma_step_pair_props(before, idx0 as int, idx1 as int);
                assert(solve_from(before, indexes@, i as nat, j as nat) == solve_from(
                    objects@,
                    indexes@,
                    i as nat,
                    (j + 1) as nat,
                ));
            }
            j = j + 1;
        }
        proof {
            assert(solve_from(objects@, indexes@, i as nat, n as nat) == if i + 1 >= n {
                objects@
            } else {
                solve_from(objects@, indexes@, (i + 1) as nat, (i + 2) as nat)
            });
        }
        i = i + 1;
    }
    proof {
        assert(solve_from(objects@, indexes@, n as nat, (n + 1) as nat) == objects@);
    }
}

/// Resolves every unordered pair of the whole population: the brute-force
/// quadratic fallback.
pub fn solve(objects: &mut Vec<VerletObject>)
    requires
        bodies_ok(old(objects)@),
    ensures
        final(objects)@ == solved_all(old(objects)@),
        final(objects)@.len() == old(objects)@.len(),
        bodies_ok(final(objects)@),
        forall|k: int|
            0 <= k < old(objects)@.len() ==> same_frame(
                old(objects)@[k],
                #[trigger] final(objects)@[k],
            ),
{
    let n = objects.len();
    let mut indexes: Vec<usize> = Vec::new();
    let mut k: usize = 0;
    while k < n
        invariant
            0 <= k <= n,
            indexes@.len() == k,
            forall|t: int| 0 <= t < k ==> (#[trigger] indexes@[t]) == t as usize,
        decreases n - k,
    {
        indexes.push(k);
        k = k + 1;
    }
    proof {
        assert(indexes@ =~= all_indexes(objects@.len()));
    }
    solve_at(objects, &indexes);
    proof {
        lemma_solve_from_props(old(objects)@, all_indexes(old(objects)@.len()), 0, 1);
    }
}

} // verus!

verus! {

/// If no two bodies of the population overlap, the all-pairs pass changes
/// nothing: collision resolution is idempotent on separated populations.
pub proof fn lemma_solved_all_no_overlap(s: Seq<VerletObject>)
    requires
        bodies_ok(s),
        s.len() <= usize::MAX,
        forall|a: int, b: int|
            0 <= a < s.len() && 0 <= b < s.len() && a != b ==> !crate::object::overlapping(
                s[a],
                s[b],
            ),
    ensures
        solved_all(s) == s,
{
    let idxs = all_indexes(s.len());
    assert forall|k: int| 0 <= k < idxs.len() implies (#[trigger] idxs[k]) < s.len() by {
        assert(idxs[k] == k as usize);
    }
    assert forall|k: int, l: int| 0 <= k < l < idxs.len() implies idxs[k] != idxs[l] by {
        assert(idxs[k] == k as usize && idxs[l] == l as usize);
    }
    assert(indexes_ok(idxs, s.len()));
    if s.len() >= 2 {
        lemma_solve_from_no_overlap(s, idxs, 0, 1);
    }
}

/// The heavier of two overlapping bodies receives the smaller correction:
/// each component of its adjustment is bounded by the matching component of
/// the lighter body's adjustment.
pub proof fn lemma_mass_weighting(b0: Ball, b1: Ball)
    requires
        b0.ok(),
        b1.ok(),
        b0.radius <= b1.radius,
    ensures
        match pair_adjustments(b0, b1) {
            Some((v0, v1)) => {
                &&& abs_spec(v1.x as int) <= abs_spec(v0.x as int)
                &&& abs_spec(v1.y as int) <= abs_spec(v0.y as int)
            },
            None => true,
        },
{
    let dx = b1.center.x - b0.center.x;
    let dy = b1.center.y - b0.center.y;
    let d2 = dx * dx + dy * dy;
    let rsum = b0.radius + b1.radius;
    if d2 < rsum * rsum && d2 != 0 {
        assert(dx * dx >= 0 && dy * dy >= 0) by (nonlinear_arith);
        let dist = sqrt_floor(d2 as nat) as int;
        let ov = rsum - dist;
        let w0 = b0.radius * b0.radius;
        let w1 = b1.radius * b1.radius;
        let denom = dist * (w0 + w1);
        lemma_sqrt_floor_bounds(d2 as nat);
        assert(dist < rsum) by (nonlinear_arith)
            requires
                dist * dist <= d2,
                d2 < rsum * rsum,
                0 <= dist,
                0 < rsum,
        ;
        assert(1 <= dist) by (nonlinear_arith)
            requires
                (dist + 1) * (dist + 1) > d2,
                d2 >= 1,
                0 <= dist,
        ;
        assert(0 < b0.radius * b0.radius && b0.radius * b0.radius <= b1.radius
            * b1.radius) by (nonlinear_arith)
            requires
                0 < b0.radius <= b1.radius,
        ;
        assert(0 < dist * (w0 + w1)) by (nonlinear_arith)
            requires
                1 <= dist,
                0 < w0 + w1,
        ;
        lemma_abs_le_sqrt(dx, d2 as nat);
        lemma_abs_le_sqrt(dy, d2 as nat);
        lemma_component_bound(abs_spec(dx), ov, w1, dist, w0 + w1);
        lemma_component_bound(abs_spec(dy), ov, w1, dist, w0 + w1);
        lemma_component_bound(abs_spec(dx), ov, w0, dist, w0 + w1);
        lemma_component_bound(abs_spec(dy), ov, w0, dist, w0 + w1);
        assert(abs_spec(dx) * ov * w0 <= abs_spec(dx) * ov * w1 && abs_spec(dy) * ov * w0
            <= abs_spec(dy) * ov * w1) by (nonlinear_arith)
            requires
                0 <= abs_spec(dx),
                0 <= abs_spec(dy),
                0 <= ov,
                0 < w0 <= w1,
        ;
        vstd::arithmetic::div_mod::lemma_div_is_ordered(
            abs_spec(dx) * ov * w0,
            abs_spec(dx) * ov * w1,
            denom,
        );
        vstd::arithmetic::div_mod::lemma_div_is_ordered(
            abs_spec(dy) * ov * w0,
            abs_spec(dy) * ov * w1,
            denom,
        );
    }
}

} // verus!
