//! The per-point warp. Each point's correction is a proximity-weighted blend of
//! the pose-graph node deltas, using **both** spatial distance (so neighboring
//! points get near-identical corrections — the map stays locally space-preserving
//! and does not fold over itself) **and** observation-time distance (so at a loop
//! seam, where the drifted trajectory crosses back over itself, a point stays
//! bound to the segment it was actually seen on instead of averaging the two).
//! The per-point loop runs in parallel.

use crate::graph::{Blend, BlendDeltas, Correction, GraphDelta3D};
use crate::math::{Quat, Vec3};
use crate::parallel::map_slots;
use crate::point_cloud::{Cloud, PointCloud2};
use crate::scalar::{Arith, Scalar};
use crate::sequence::{highest_slot, lowest_slot};
use vstd::prelude::*;
use vstd::slice::slice_to_vec;

verus! {

/// The position of the greatest weight, or the first where none can be compared.
pub open spec fn leader<A: Arith>(weights: Seq<A>) -> int {
    match crate::sequence::highest(weights) {
        Some(k) => k as int,
        None => 0,
    }
}

/// The position of the least spread, or the leader where none can be compared. It
/// still tells the members apart where all their weights have vanished.
pub open spec fn closest<A: Arith>(spreads: Seq<A>, weights: Seq<A>) -> int {
    match crate::sequence::lowest(spreads) {
        Some(k) => k as int,
        None => leader(weights),
    }
}

/// The share of the total weight that member `i` has.
pub open spec fn share<A: Arith>(weights: Seq<A>, i: int) -> A {
    weights[i].over(crate::sequence::total(weights))
}

/// The share of member `i`, negated where its rotation lies on the far side of
/// the leader's (both signs of a quaternion are one rotation).
pub open spec fn signed_share<A: Arith>(
    rotations: Seq<Quat<A>>,
    weights: Seq<A>,
    i: int,
) -> A {
    if rotations[i].inner(rotations[leader(weights)]).below(A::of_count(0)) {
        share(weights, i).negated()
    } else {
        share(weights, i)
    }
}

/// The weighted sum of the sign-aligned rotations.
pub open spec fn mixed_rotation<A: Arith>(
    rotations: Seq<Quat<A>>,
    weights: Seq<A>,
) -> Quat<A> {
    let n = weights.len();
    Quat {
        x: crate::sequence::total(
            Seq::new(n, |i: int| signed_share(rotations, weights, i).times(rotations[i].x)),
        ),
        y: crate::sequence::total(
            Seq::new(n, |i: int| signed_share(rotations, weights, i).times(rotations[i].y)),
        ),
        z: crate::sequence::total(
            Seq::new(n, |i: int| signed_share(rotations, weights, i).times(rotations[i].z)),
        ),
        w: crate::sequence::total(
            Seq::new(n, |i: int| signed_share(rotations, weights, i).times(rotations[i].w)),
        ),
    }
}

/// The weighted mean of the translations.
pub open spec fn mixed_translation<A: Arith>(
    translations: Seq<Vec3<A>>,
    weights: Seq<A>,
) -> Vec3<A> {
    let n = weights.len();
    Vec3 {
        x: crate::sequence::total(
            Seq::new(n, |i: int| share(weights, i).times(translations[i].x)),
        ),
        y: crate::sequence::total(
            Seq::new(n, |i: int| share(weights, i).times(translations[i].y)),
        ),
        z: crate::sequence::total(
            Seq::new(n, |i: int| share(weights, i).times(translations[i].z)),
        ),
    }
}

/// The blend of some deltas at given spreads from them and under the weights that
/// belong to these: a partition of unity, or the closest delta as it is where the
/// weights have all but vanished.
pub open spec fn mixed<A: Arith>(
    rotations: Seq<Quat<A>>,
    translations: Seq<Vec3<A>>,
    spreads: Seq<A>,
    weights: Seq<A>,
) -> (Quat<A>, Vec3<A>) {
    if A::of_ratio(1, 1_000_000_000_000).below(crate::sequence::total(weights)) {
        (
            mixed_rotation(rotations, weights).unit_or_no_turn(),
            mixed_translation(translations, weights),
        )
    } else {
        (rotations[closest(spreads, weights)], translations[closest(spreads, weights)])
    }
}

/// The weights that belong to some spreads: the exponentials of their opposites.
pub open spec fn gaussians<S: Scalar>(spreads: Seq<S>) -> Seq<S> {
    spreads.map_values(|spread: S| spread.negated().exponential())
}

/// `1 / (2 sigma^2)`.
pub open spec fn falloff<A: Arith>(sigma: A) -> A {
    A::of_count(1).over(A::of_count(2).times(sigma).times(sigma))
}

impl<A: Arith> Blend<A> {
    /// How far `point` is from node `i`, in units of the bandwidths:
    /// `d^2 / 2 sigma^2`, and with a time also `dt^2 / 2 time_sigma^2`.
    pub open spec fn spread(self, point: Vec3<A>, time: Option<A>, i: int) -> A {
        let spatial = point.gap_squared(self.positions[i]).times(falloff(self.sigma));
        match time {
            Some(observed_at) => {
                let dt = observed_at.minus(self.times[i]);
                spatial.plus(dt.times(dt).times(falloff(self.time_sigma)))
            },
            None => spatial,
        }
    }

    pub open spec fn spreads(self, point: Vec3<A>, time: Option<A>) -> Seq<A> {
        Seq::new(self.positions.len(), |i: int| self.spread(point, time, i))
    }

    /// The correction at `point` under given weights. A lone node moves everything by
    /// its delta.
    pub open spec fn under(self, point: Vec3<A>, time: Option<A>, weights: Seq<A>) -> (
        Quat<A>,
        Vec3<A>,
    ) {
        if self.positions.len() == 1 {
            (self.rotations[0], self.translations[0])
        } else {
            mixed(self.rotations, self.translations, self.spreads(point, time), weights)
        }
    }
}

impl<S: Scalar> Blend<S> {
    /// Every anchor has a delta, and a time where times are asked for.
    pub open spec fn covers(self, timed: bool) -> bool {
        &&& self.positions.len() <= self.rotations.len()
        &&& self.positions.len() <= self.translations.len()
        &&& timed && self.positions.len() > 1 ==> self.positions.len() <= self.times.len()
    }

    /// The weight of every node at `point`: `exp(-d^2 / 2 sigma^2)`, and with a time
    /// also `exp(-dt^2 / 2 time_sigma^2)`.
    pub open spec fn weights(self, point: Vec3<S>, time: Option<S>) -> Seq<S> {
        gaussians(self.spreads(point, time))
    }

    /// The correction at `point`.
    pub open spec fn at(self, point: Vec3<S>, time: Option<S>) -> (Quat<S>, Vec3<S>) {
        self.under(point, time, self.weights(point, time))
    }

    /// Where a stored point goes.
    pub open spec fn warped(self, point: [S::Narrow; 3], time: Option<S>) -> [S::Narrow; 3] {
        let position = Vec3 {
            x: S::widened(point[0]),
            y: S::widened(point[1]),
            z: S::widened(point[2]),
        };
        let (rotation, translation) = self.at(position, time);
        let moved = rotation.turned(position).plus(translation);
        [moved.x.narrowed(), moved.y.narrowed(), moved.z.narrowed()]
    }

    /// Where a sequence of points goes, each by itself. Nothing moves where there
    /// is no node.
    pub open spec fn warped_all(
        self,
        points: Seq<[S::Narrow; 3]>,
        times: Option<Seq<S>>,
    ) -> Seq<[S::Narrow; 3]> {
        if self.positions.len() == 0 {
            points
        } else {
            Seq::new(points.len(), |i: int| self.warped(points[i], time_of(times, i)))
        }
    }

    /// What a warp of `count` points needs: a delta for every node and a time for
    /// every point, where there are any.
    pub open spec fn fits(self, count: nat, times: Option<Seq<S>>) -> bool {
        count > 0 && self.positions.len() > 0 ==> {
            &&& self.covers(times is Some)
            &&& times matches Some(t) ==> count <= t.len()
        }
    }

    /// A whole cloud, warped; all but the positions stays.
    pub open spec fn warped_cloud(self, cloud: Cloud<S>) -> Cloud<S> {
        cloud.at(self.warped_all(cloud.points, cloud.timestamps))
    }
}

/// The time at which point `i` was observed.
pub open spec fn time_of<S>(times: Option<Seq<S>>, i: int) -> Option<S> {
    match times {
        Some(t) => Some(t[i]),
        None => None,
    }
}

/// What an optional slice holds.
pub open spec fn slice_contents<S>(times: Option<&[S]>) -> Option<Seq<S>> {
    match times {
        Some(t) => Some(t@),
        None => None,
    }
}

/// How far every node is from (`point`, `time`), in units of the bandwidths.
fn spreads_at<S: Scalar>(deltas: &BlendDeltas<S>, point: Vec3<S>, time: Option<S>) -> (r: Vec<S>)
    requires
        time is Some ==> deltas@.positions.len() <= deltas@.times.len(),
    ensures
        r@ == deltas@.spreads(point, time),
{
    let one = S::from_count(1);
    let two = S::from_count(2);
    let inverse_two_sigma_squared = one.div(two.mul(deltas.sigma).mul(deltas.sigma));
    let inverse_two_time_sigma_squared = one.div(
        two.mul(deltas.time_sigma).mul(deltas.time_sigma),
    );
    let mut spreads: Vec<S> = Vec::new();
    for index in 0..deltas.positions.len()
        invariant
            time is Some ==> deltas@.positions.len() <= deltas@.times.len(),
            inverse_two_sigma_squared == falloff(deltas.sigma),
            inverse_two_time_sigma_squared == falloff(deltas.time_sigma),
            spreads@ == deltas@.spreads(point, time).take(index as int),
    {
        let dx = point.x.sub(deltas.positions[index].x);
        let dy = point.y.sub(deltas.positions[index].y);
        let dz = point.z.sub(deltas.positions[index].z);
        let distance_squared = dx.mul(dx).add(dy.mul(dy)).add(dz.mul(dz));
        let mut exponent = distance_squared.mul(inverse_two_sigma_squared);
        if let Some(observed_at) = time {
            let dt = observed_at.sub(deltas.times[index]);
            exponent = exponent.add(dt.mul(dt).mul(inverse_two_time_sigma_squared));
        }
        spreads.push(exponent);
        assert(spreads@ == deltas@.spreads(point, time).take(index + 1));
    }
    assert(spreads@ == deltas@.spreads(point, time));
    spreads
}

/// The weights that belong to some spreads.
pub fn weigh<S: Scalar>(spreads: &[S]) -> (r: Vec<S>)
    ensures
        r@ == gaussians(spreads@),
{
    let mut weights: Vec<S> = Vec::new();
    for index in 0..spreads.len()
        invariant
            weights@ == gaussians(spreads@).take(index as int),
    {
        weights.push(spreads[index].neg().exp());
        assert(weights@ == gaussians(spreads@).take(index + 1));
    }
    assert(weights@ == gaussians(spreads@));
    weights
}

/// Blend deltas under given weights: the weighted average of the translations and
/// of the quaternions (nlerp-style), with the double-cover sign of each quaternion
/// aligned to the highest-weight one before summing. Far from every node the
/// weights underflow to ~0; then the delta of the closest node, the one with the
/// least spread, is taken as it is.
pub fn mix<S: Scalar>(
    rotations: &[Quat<S>],
    translations: &[Vec3<S>],
    spreads: &[S],
    weights: &[S],
) -> (r: (Quat<S>, Vec3<S>))
    requires
        0 < weights@.len() <= rotations@.len(),
        weights@.len() <= translations@.len(),
        spreads@.len() == weights@.len(),
    ensures
        r == mixed(rotations@, translations@, spreads@, weights@),
{
    let count = weights.len();
    let leading = match highest_slot(weights) {
        Some(slot) => slot,
        None => 0,
    };
    let weight_sum = crate::sequence::sum(weights);
    if !S::from_ratio(1, 1_000_000_000_000).lt(weight_sum) {
        let closest = match lowest_slot(spreads) {
            Some(slot) => slot,
            None => leading,
        };
        return (rotations[closest], translations[closest]);
    }
    let reference = rotations[leading];
    let mut sum = Quat {
        x: S::from_count(0),
        y: S::from_count(0),
        z: S::from_count(0),
        w: S::from_count(0),
    };
    let mut translation: Vec3<S> = Vec3::zero();
    let ghost n = count as nat;
    let ghost turn_x = Seq::new(
        n,
        |i: int| signed_share(rotations@, weights@, i).times(rotations@[i].x),
    );
    let ghost turn_y = Seq::new(
        n,
        |i: int| signed_share(rotations@, weights@, i).times(rotations@[i].y),
    );
    let ghost turn_z = Seq::new(
        n,
        |i: int| signed_share(rotations@, weights@, i).times(rotations@[i].z),
    );
    let ghost turn_w = Seq::new(
        n,
        |i: int| signed_share(rotations@, weights@, i).times(rotations@[i].w),
    );
    let ghost shift_x = Seq::new(n, |i: int| share(weights@, i).times(translations@[i].x));
    let ghost shift_y = Seq::new(n, |i: int| share(weights@, i).times(translations@[i].y));
    let ghost shift_z = Seq::new(n, |i: int| share(weights@, i).times(translations@[i].z));
    for index in 0..count
        invariant
            count == n == weights@.len(),
            count <= rotations@.len(),
            count <= translations@.len(),
            weight_sum == crate::sequence::total(weights@),
            reference == rotations@[leader(weights@)],
            turn_x == Seq::new(
                n,
                |i: int| signed_share(rotations@, weights@, i).times(rotations@[i].x),
            ),
            turn_y == Seq::new(
                n,
                |i: int| signed_share(rotations@, weights@, i).times(rotations@[i].y),
            ),
            turn_z == Seq::new(
                n,
                |i: int| signed_share(rotations@, weights@, i).times(rotations@[i].z),
            ),
            turn_w == Seq::new(
                n,
                |i: int| signed_share(rotations@, weights@, i).times(rotations@[i].w),
            ),
            shift_x == Seq::new(n, |i: int| share(weights@, i).times(translations@[i].x)),
            shift_y == Seq::new(n, |i: int| share(weights@, i).times(translations@[i].y)),
            shift_z == Seq::new(n, |i: int| share(weights@, i).times(translations@[i].z)),
            sum.x == crate::sequence::total(turn_x.take(index as int)),
            sum.y == crate::sequence::total(turn_y.take(index as int)),
            sum.z == crate::sequence::total(turn_z.take(index as int)),
            sum.w == crate::sequence::total(turn_w.take(index as int)),
            translation.x == crate::sequence::total(shift_x.take(index as int)),
            translation.y == crate::sequence::total(shift_y.take(index as int)),
            translation.z == crate::sequence::total(shift_z.take(index as int)),
    {
        let weight = weights[index].div(weight_sum);
        let rotation = rotations[index];
        let signed = if rotation.dot(reference).lt(S::from_count(0)) {
            weight.neg()
        } else {
            weight
        };
        let shift = translations[index];
        sum = Quat {
            x: sum.x.add(signed.mul(rotation.x)),
            y: sum.y.add(signed.mul(rotation.y)),
            z: sum.z.add(signed.mul(rotation.z)),
            w: sum.w.add(signed.mul(rotation.w)),
        };
        translation = Vec3 {
            x: translation.x.add(weight.mul(shift.x)),
            y: translation.y.add(weight.mul(shift.y)),
            z: translation.z.add(weight.mul(shift.z)),
        };
        proof {
            let next = index + 1;
            assert(turn_x.take(next).drop_last() == turn_x.take(index as int));
            assert(turn_y.take(next).drop_last() == turn_y.take(index as int));
            assert(turn_z.take(next).drop_last() == turn_z.take(index as int));
            assert(turn_w.take(next).drop_last() == turn_w.take(index as int));
            assert(shift_x.take(next).drop_last() == shift_x.take(index as int));
            assert(shift_y.take(next).drop_last() == shift_y.take(index as int));
            assert(shift_z.take(next).drop_last() == shift_z.take(index as int));
        }
    }
    proof {
        let all = count as int;
        assert(turn_x.take(all) == turn_x);
        assert(turn_y.take(all) == turn_y);
        assert(turn_z.take(all) == turn_z);
        assert(turn_w.take(all) == turn_w);
        assert(shift_x.take(all) == shift_x);
        assert(shift_y.take(all) == shift_y);
        assert(shift_z.take(all) == shift_z);
    }
    (sum.normalized_or_identity(), translation)
}

/// The blended (rotation, translation) correction for a point at `point` observed
/// at `time`: a partition-of-unity of the node deltas weighted by
/// `exp(-d^2 / 2 sigma^2) * exp(-dt^2 / 2 time_sigma^2)`. `time = None` drops the
/// time term (spatial blend only).
pub fn blend_at<S: Scalar>(deltas: &BlendDeltas<S>, point: Vec3<S>, time: Option<S>) -> (r: (
    Quat<S>,
    Vec3<S>,
))
    requires
        deltas@.positions.len() > 0,
        deltas@.covers(time is Some),
    ensures
        r == deltas@.at(point, time),
{
    if deltas.len() == 1 {
        return (deltas.rotations[0], deltas.translations[0]);
    }
    let spreads = spreads_at(deltas, point, time);
    let weights = weigh(spreads.as_slice());
    mix(
        deltas.rotations.as_slice(),
        deltas.translations.as_slice(),
        spreads.as_slice(),
        weights.as_slice(),
    )
}

/// Warp one stored point by the correction blended at its own location and time.
pub fn warp_one<S: Scalar>(
    point: [S::Narrow; 3],
    time: Option<S>,
    deltas: &BlendDeltas<S>,
) -> (r: [S::Narrow; 3])
    requires
        deltas@.positions.len() > 0,
        deltas@.covers(time is Some),
    ensures
        r == deltas@.warped(point, time),
{
    let position = Vec3 { x: S::widen(point[0]), y: S::widen(point[1]), z: S::widen(point[2]) };
    let (rotation, translation) = blend_at(deltas, position, time);
    let rotated = rotation.rotate(position);
    [
        rotated.x.add(translation.x).narrow(),
        rotated.y.add(translation.y).narrow(),
        rotated.z.add(translation.z).narrow(),
    ]
}

/// Warp every position by the correction blended at its own location and time.
/// `point_times`, when present, must align with `points`.
pub fn warp_positions<S: Scalar>(
    points: &[[S::Narrow; 3]],
    point_times: Option<&[S]>,
    deltas: &BlendDeltas<S>,
) -> (r: Vec<[S::Narrow; 3]>)
    requires
        deltas@.fits(points@.len(), slice_contents(point_times)),
    ensures
        r@ == deltas@.warped_all(points@, slice_contents(point_times)),
{
    if points.len() == 0 || deltas.is_empty() {
        return slice_to_vec(points);
    }
    let ghost times = slice_contents(point_times);
    let warp_index = |index: usize| -> (p: [S::Narrow; 3])
        requires
            index < points@.len(),
            deltas@.positions.len() > 0,
            deltas@.fits(points@.len(), slice_contents(point_times)),
        ensures
            p == deltas@.warped(
                points@[index as int],
                time_of(slice_contents(point_times), index as int),
            ),
        {
            let time = match point_times {
                Some(observed) => Some(observed[index]),
                None => None,
            };
            warp_one(points[index], time, deltas)
        };
    let warped = map_slots(points, warp_index);
    assert(warped@ =~= deltas@.warped_all(points@, times)) by {
        assert forall|i: int| 0 <= i < points@.len() implies #[trigger] warped@[i]
            == deltas@.warped(points@[i], time_of(times, i)) by {
            assert(call_ensures(warp_index, (i as usize,), warped@[i]));
        }
    }
    warped
}

impl<S: Scalar> Correction<S> {
    /// What the warp of `cloud` needs: a delta for every node and a time for every
    /// point, where there are any.
    pub open spec fn fits(self, cloud: Cloud<S>) -> bool {
        cloud.points.len() > 0 && self.nodes.len() > 0 ==> {
            &&& self.aligned()
            &&& cloud.timestamps matches Some(t) ==> cloud.points.len() <= t.len()
        }
    }
}

/// Warp a whole cloud by a pose-graph correction. Pass-through when the correction
/// has no nodes or the cloud is empty. Per-point timestamps (when present) keep
/// points bound to the trajectory segment they were observed on.
pub fn apply_closure_to_cloud<S: Scalar>(
    cloud: &PointCloud2<S>,
    graph_delta: &GraphDelta3D<S>,
) -> (r: PointCloud2<S>)
    requires
        graph_delta@.fits(cloud@),
    ensures
        r@ == graph_delta@.blend().warped_cloud(cloud@),
        cloud@.points.len() == 0 || graph_delta@.nodes.len() == 0 ==> r@ == cloud@,
{
    if graph_delta.is_empty() || cloud.is_empty() {
        assert(graph_delta@.blend().warped_all(cloud@.points, cloud@.timestamps) =~= cloud@.points);
        return cloud.duplicate();
    }
    let deltas = graph_delta.to_blend_arrays();
    warp_cloud(cloud, &deltas)
}

/// Warp a whole cloud against pre-built arrays.
pub(crate) fn warp_cloud<S: Scalar>(cloud: &PointCloud2<S>, deltas: &BlendDeltas<S>) -> (r:
    PointCloud2<S>)
    requires
        deltas@.fits(cloud@.points.len(), cloud@.timestamps),
    ensures
        r@ == deltas@.warped_cloud(cloud@),
{
    let point_times = match &cloud.timestamps {
        Some(times) => Some(times.as_slice()),
        None => None,
    };
    let warped = warp_positions(cloud.points.as_slice(), point_times, deltas);
    cloud.with_points(warped)
}

/// Warp a whole cloud by a pose-graph correction: each point by the graph state at
/// the moment it was observed.
pub fn reform<S: Scalar>(cloud: &PointCloud2<S>, graph_delta: &GraphDelta3D<S>) -> (r: PointCloud2<
    S,
>)
    requires
        graph_delta@.fits(cloud@),
    ensures
        r@ == graph_delta@.blend().warped_cloud(cloud@),
        cloud@.points.len() == 0 || graph_delta@.nodes.len() == 0 ==> r@ == cloud@,
{
    apply_closure_to_cloud(cloud, graph_delta)
}

} // verus!
