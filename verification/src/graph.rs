//! The pose-graph correction (`GraphDelta3D`) plus the sorted, ready-to-blend form the
//! warp consumes. A `GraphDelta3D` pairs each keyframe node (with its timestamp) with
//! the SE(3) delta that graph optimization applied to it (`post = delta * pre`).

use crate::math::{distance, lerp_vec3, nlerp, Quat, Vec3};
use crate::order::{arrange, sort_indices};
use crate::scalar::{Arith, Scalar};
use vstd::prelude::*;
use vstd::slice::slice_to_vec;

verus! {

/// The SE(3) correction applied to one keyframe. Left-multiplied world-frame delta.
#[derive(Clone, Copy, Debug, PartialEq)]
pub struct Transform<S> {
    pub translation: Vec3<S>,
    pub rotation: Quat<S>,
}

impl<A: Arith> Transform<A> {
    /// The transform that moves nothing.
    pub open spec fn stay() -> Self {
        Transform { translation: Vec3::origin(), rotation: Quat::no_turn() }
    }

    /// The transform `amount` of the way from the identity to `self`.
    pub open spec fn partly(self, amount: A) -> Self {
        Transform {
            translation: Vec3::origin().toward(self.translation, amount),
            rotation: Quat::no_turn().toward(self.rotation, amount),
        }
    }

    /// Where the transform sends `point`.
    pub open spec fn moved(self, point: Vec3<A>) -> Vec3<A> {
        self.rotation.turned(point).plus(self.translation)
    }
}

impl<S: Scalar> Transform<S> {
    /// The transform that moves nothing.
    pub fn identity() -> (r: Self)
        ensures
            r == Self::stay(),
    {
        Transform { translation: Vec3::zero(), rotation: Quat::identity() }
    }

    /// This delta scaled between identity (`amount = 0`) and its full value
    /// (`amount = 1`).
    pub fn scaled_from_identity(self, amount: S) -> (r: Self)
        ensures
            r == self.partly(amount),
    {
        Transform {
            translation: lerp_vec3(Vec3::zero(), self.translation, amount),
            rotation: nlerp(Quat::identity(), self.rotation, amount),
        }
    }

    /// Rotate `point`, then shift it.
    pub fn apply(&self, point: Vec3<S>) -> (r: Vec3<S>)
        ensures
            r == self.moved(point),
    {
        let rotated = self.rotation.rotate(point);
        Vec3 {
            x: rotated.x.add(self.translation.x),
            y: rotated.y.add(self.translation.y),
            z: rotated.z.add(self.translation.z),
        }
    }
}

/// One keyframe node. `position` is the keyframe's spatial anchor in the cloud's
/// (pre-correction / open-loop) frame and `ts` the time at which it was taken; the
/// warp blends node deltas by how close a point is to both. `id` is a stable
/// identity that survives graph updates.
#[derive(Clone, Copy, Debug, PartialEq)]
pub struct Node<S> {
    pub id: u64,
    pub ts: S,
    pub position: Vec3<S>,
}

/// A pose-graph correction: aligned `nodes` and `transforms` of equal length.
///
/// A point's correction is a proximity-weighted average of the node deltas with
/// weight `exp(-d^2 / (2 sigma^2)) * exp(-dt^2 / (2 time_sigma^2))`, where `d` is
/// spatial distance to the node anchor and `dt` is the gap between the point's
/// observation time and the node's time.
///
/// - The **spatial** term makes the field smooth in space, so neighboring points
///   get near-identical corrections and the warp stays locally space-preserving
///   (no fold-over).
/// - The **time** term disambiguates a loop *seam*: where the drifted trajectory
///   crosses back over itself, two segments share the same space but need opposite
///   corrections. Spatial distance alone would average them (closing nothing);
///   the time term keeps a point bound to the segment it was actually observed on.
///
/// `blend_sigma` (space) and `blend_time_sigma` (time) are the Gaussian
/// bandwidths; `0` means auto-pick from node spacing.
#[derive(Clone, Debug, PartialEq)]
pub struct GraphDelta3D<S> {
    pub nodes: Vec<Node<S>>,
    pub transforms: Vec<Transform<S>>,
    pub blend_sigma: S,
    pub blend_time_sigma: S,
}

/// What a `GraphDelta3D` holds.
#[verifier::ext_equal]
pub struct Correction<S> {
    pub nodes: Seq<Node<S>>,
    pub transforms: Seq<Transform<S>>,
    pub blend_sigma: S,
    pub blend_time_sigma: S,
}

impl<S> View for GraphDelta3D<S> {
    type V = Correction<S>;

    open spec fn view(&self) -> Correction<S> {
        Correction {
            nodes: self.nodes@,
            transforms: self.transforms@,
            blend_sigma: self.blend_sigma,
            blend_time_sigma: self.blend_time_sigma,
        }
    }
}

/// The distance from `points[i]` to the nearest of the first `n` other points.
pub open spec fn nearest_gap<P, A: Arith>(
    points: Seq<P>,
    metric: spec_fn(P, P) -> A,
    i: int,
    n: nat,
) -> A
    decreases n,
{
    if n == 0 {
        A::unbounded()
    } else {
        let before = nearest_gap(points, metric, i, (n - 1) as nat);
        let gap = metric(points[i], points[n - 1]);
        if n - 1 != i && gap.below(before) {
            gap
        } else {
            before
        }
    }
}

/// `nearest_gap` is the least of the distances to the other points: it is one of them, or
/// the unbounded value, and none of them compares below it.
pub proof fn nearest_gap_is_least<P, A: Arith>(
    points: Seq<P>,
    metric: spec_fn(P, P) -> A,
    i: int,
    n: nat,
)
    requires
        crate::sequence::below_is_an_order::<A>(),
        n <= points.len(),
    ensures
        forall|j: int|
            0 <= j < n && j != i ==> !metric(points[i], #[trigger] points[j]).below(
                nearest_gap(points, metric, i, n),
            ),
        nearest_gap(points, metric, i, n) == A::unbounded() || exists|j: int|
            0 <= j < n && j != i && nearest_gap(points, metric, i, n) == metric(
                points[i],
                #[trigger] points[j],
            ),
    decreases n,
{
    if n > 0 {
        let m = (n - 1) as nat;
        nearest_gap_is_least(points, metric, i, m);
        let (before, now) = (
            nearest_gap(points, metric, i, m),
            nearest_gap(points, metric, i, n),
        );
        let gap = metric(points[i], points[m as int]);
        assert forall|j: int| 0 <= j < n && j != i implies !metric(
            points[i],
            #[trigger] points[j],
        ).below(now) by {
            if j < m {
                assert(!metric(points[i], points[j]).below(before));
            }
        }
    }
}

/// The mean distance from a point to its nearest neighbor; zero when there are
/// fewer than two points.
pub open spec fn mean_gap<P, A: Arith>(points: Seq<P>, metric: spec_fn(P, P) -> A) -> A {
    if points.len() < 2 {
        A::of_count(0)
    } else {
        crate::sequence::total(
            Seq::new(points.len(), |i: int| nearest_gap(points, metric, i, points.len())),
        ).over(A::of_count(points.len() as u64))
    }
}

/// The bandwidth picked for a mean spacing: twice the spacing, and at least a
/// millionth.
pub open spec fn widened_gap<A: Arith>(mean_spacing: A) -> A {
    mean_spacing.times(A::of_count(2)).larger(A::of_ratio(1, 1_000_000))
}

/// The distance between two anchors.
pub open spec fn space_metric<A: Arith>() -> spec_fn(Vec3<A>, Vec3<A>) -> A {
    |a: Vec3<A>, b: Vec3<A>| a.gap(b)
}

/// The distance between two times.
pub open spec fn time_metric<A: Arith>() -> spec_fn(A, A) -> A {
    |a: A, b: A| a.minus(b).magnitude()
}

/// A configured bandwidth when it is positive, else one picked from the spacing.
pub open spec fn bandwidth<P, A: Arith>(
    configured: A,
    points: Seq<P>,
    metric: spec_fn(P, P) -> A,
) -> A {
    if A::of_count(0).below(configured) {
        configured
    } else {
        widened_gap(mean_gap(points, metric))
    }
}

/// Whether `gaps` holds, for each of `n` places, the distance to the nearest other one: one
/// of the distances, and none of them compares below it. (The unbounded value stands where no
/// distance compares below it.)
pub open spec fn are_nearest<A: Arith>(
    gaps: Seq<A>,
    n: nat,
    distance: spec_fn(int, int) -> A,
) -> bool {
    &&& gaps.len() == n
    &&& forall|i: int, j: int|
        0 <= i < n && 0 <= j < n && i != j ==> !(#[trigger] distance(i, j)).below(gaps[i])
    &&& forall|i: int|
        0 <= i < n ==> #[trigger] gaps[i] == A::unbounded() || exists|j: int|
            0 <= j < n && j != i && gaps[i] == #[trigger] distance(i, j)
}

/// Nearest distances are the same under distances that agree.
proof fn distances_agree<A: Arith>(
    gaps: Seq<A>,
    n: nat,
    here: spec_fn(int, int) -> A,
    there: spec_fn(int, int) -> A,
)
    requires
        are_nearest(gaps, n, here),
        forall|i: int, j: int|
            0 <= i < n && 0 <= j < n ==> #[trigger] there(i, j) == here(i, j),
    ensures
        are_nearest(gaps, n, there),
{
    assert forall|i: int| 0 <= i < n implies #[trigger] gaps[i] == A::unbounded() || exists|j: int|
        0 <= j < n && j != i && gaps[i] == #[trigger] there(i, j) by {
        if gaps[i] != A::unbounded() {
            let j = choose|j: int| 0 <= j < n && j != i && gaps[i] == #[trigger] here(i, j);
            assert(gaps[i] == there(i, j));
        }
    }
    assert forall|i: int, j: int| 0 <= i < n && 0 <= j < n && i != j implies !(
    #[trigger] there(i, j)).below(gaps[i]) by {
        assert(!here(i, j).below(gaps[i]));
    }
}

/// Twice the mean of some distances, and at least a millionth.
pub open spec fn twice_the_mean<A: Arith>(gaps: Seq<A>) -> A {
    let mean = crate::sequence::total(gaps).over(A::of_count(gaps.len() as u64));
    mean.times(A::of_count(2)).larger(A::of_ratio(1, 1_000_000))
}

/// A bandwidth is the configured one where that is positive. Otherwise it is picked from the
/// spacing: twice the mean distance from a point to the nearest other one, and at least a
/// millionth.
pub proof fn bandwidth_follows_the_spacing<P, A: Arith>(
    configured: A,
    points: Seq<P>,
    metric: spec_fn(P, P) -> A,
)
    requires
        crate::sequence::below_is_an_order::<A>(),
    ensures
        A::of_count(0).below(configured) ==> bandwidth(configured, points, metric) == configured,
        !A::of_count(0).below(configured) && points.len() >= 2 ==> exists|gaps: Seq<A>|
            are_nearest(gaps, points.len(), |i: int, j: int| metric(points[i], points[j]))
                && bandwidth(configured, points, metric) == #[trigger] twice_the_mean(gaps),
        !A::of_count(0).below(configured) && points.len() < 2 ==> bandwidth(
            configured,
            points,
            metric,
        ) == A::of_count(0).times(A::of_count(2)).larger(A::of_ratio(1, 1_000_000)),
{
    let n = points.len();
    let gaps = Seq::new(n, |i: int| nearest_gap(points, metric, i, n));
    let distance = |i: int, j: int| metric(points[i], points[j]);
    assert forall|i: int, j: int| 0 <= i < n && 0 <= j < n && i != j implies !(
    #[trigger] distance(i, j)).below(gaps[i]) by {
        nearest_gap_is_least(points, metric, i, n);
        let _ = points[j];
    }
    assert forall|i: int| 0 <= i < n implies #[trigger] gaps[i] == A::unbounded() || exists|j: int|
        0 <= j < n && j != i && gaps[i] == #[trigger] distance(i, j) by {
        nearest_gap_is_least(points, metric, i, n);
        if gaps[i] != A::unbounded() {
            let j = choose|j: int|
                0 <= j < n && j != i && nearest_gap(points, metric, i, n) == metric(
                    points[i],
                    #[trigger] points[j],
                );
            assert(gaps[i] == distance(i, j));
        }
    }
    assert(are_nearest(gaps, n, distance));
    if !A::of_count(0).below(configured) && n >= 2 {
        assert(bandwidth(configured, points, metric) == twice_the_mean(gaps));
    }
}

impl<A: Arith> Correction<A> {
    /// The correction without nodes.
    pub open spec fn nothing() -> Self {
        Correction {
            nodes: Seq::empty(),
            transforms: Seq::empty(),
            blend_sigma: A::of_count(0),
            blend_time_sigma: A::of_count(0),
        }
    }

    /// Every node has a delta.
    pub open spec fn aligned(self) -> bool {
        self.nodes.len() <= self.transforms.len()
    }

    pub open spec fn positions(self) -> Seq<Vec3<A>> {
        self.nodes.map_values(|node: Node<A>| node.position)
    }

    pub open spec fn times(self) -> Seq<A> {
        self.nodes.map_values(|node: Node<A>| node.ts)
    }

    pub open spec fn ids(self) -> Seq<u64> {
        self.nodes.map_values(|node: Node<A>| node.id)
    }

    /// The rotations of the deltas, normalized.
    pub open spec fn rotations(self) -> Seq<Quat<A>> {
        self.transforms.map_values(|t: Transform<A>| t.rotation.unit_or_no_turn())
    }

    pub open spec fn translations(self) -> Seq<Vec3<A>> {
        self.transforms.map_values(|t: Transform<A>| t.translation)
    }

    /// The correction with every delta taken `amount` of the way.
    pub open spec fn partly(self, amount: A) -> Self {
        Correction {
            transforms: self.transforms.map_values(|t: Transform<A>| t.partly(amount)),
            ..self
        }
    }

    /// The node indices by time; nodes of one time stay in their own order.
    pub open spec fn time_order(self) -> Seq<usize> {
        crate::order::stable_order(self.times())
    }

    /// The ready-to-blend form, sorted by time.
    pub open spec fn blend(self) -> Blend<A> {
        let order = self.time_order();
        Blend {
            positions: crate::order::arranged(self.positions(), order),
            times: crate::order::arranged(self.times(), order),
            rotations: crate::order::arranged(self.rotations(), order),
            translations: crate::order::arranged(self.translations(), order),
            sigma: bandwidth(self.blend_sigma, self.positions(), space_metric()),
            time_sigma: bandwidth(self.blend_time_sigma, self.times(), time_metric()),
        }
    }
}

impl<A: Arith> Correction<A> {
    /// The two bandwidths of the ready-to-blend form are the configured ones, or follow the
    /// spacing of the anchors in space and of the nodes in time.
    pub proof fn blend_bandwidths_follow_the_nodes(self)
        requires
            crate::sequence::below_is_an_order::<A>(),
        ensures
            A::of_count(0).below(self.blend_sigma) ==> self.blend().sigma == self.blend_sigma,
            A::of_count(0).below(self.blend_time_sigma) ==> self.blend().time_sigma
                == self.blend_time_sigma,
            !A::of_count(0).below(self.blend_sigma) && self.nodes.len() >= 2 ==> exists|
                gaps: Seq<A>,
            |
                are_nearest(
                    gaps,
                    self.nodes.len(),
                    |i: int, j: int| self.nodes[i].position.gap(self.nodes[j].position),
                ) && self.blend().sigma == #[trigger] twice_the_mean(gaps),
            !A::of_count(0).below(self.blend_time_sigma) && self.nodes.len() >= 2 ==> exists|
                gaps: Seq<A>,
            |
                are_nearest(
                    gaps,
                    self.nodes.len(),
                    |i: int, j: int| self.nodes[i].ts.minus(self.nodes[j].ts).magnitude(),
                ) && self.blend().time_sigma == #[trigger] twice_the_mean(gaps),
    {
        let n = self.nodes.len();
        bandwidth_follows_the_spacing(self.blend_sigma, self.positions(), space_metric());
        bandwidth_follows_the_spacing(self.blend_time_sigma, self.times(), time_metric());
        if !A::of_count(0).below(self.blend_sigma) && n >= 2 {
            let points = self.positions();
            let here = |i: int, j: int| space_metric::<A>()(points[i], points[j]);
            let there = |i: int, j: int| self.nodes[i].position.gap(self.nodes[j].position);
            let gaps = choose|gaps: Seq<A>|
                are_nearest(gaps, n, here) && self.blend().sigma == #[trigger] twice_the_mean(
                    gaps,
                );
            distances_agree(gaps, n, here, there);
        }
        if !A::of_count(0).below(self.blend_time_sigma) && n >= 2 {
            let points = self.times();
            let here = |i: int, j: int| time_metric::<A>()(points[i], points[j]);
            let there = |i: int, j: int| self.nodes[i].ts.minus(self.nodes[j].ts).magnitude();
            let gaps = choose|gaps: Seq<A>|
                are_nearest(gaps, n, here) && self.blend().time_sigma == #[trigger] twice_the_mean(
                    gaps,
                );
            distances_agree(gaps, n, here, there);
        }
    }

    /// The ready-to-blend form holds every node once, with the delta that belongs to it:
    /// its four arrays are one permutation of the nodes. Where the node times can be
    /// ranked, they do not decrease, and nodes of one time stay in their own order.
    /// Nodes that stand in the order of their times keep their place.
    pub proof fn blend_is_sorted_by_time(self)
        requires
            self.nodes.len() <= usize::MAX,
        ensures
            ({
                let blend = self.blend();
                let order = self.time_order();
                &&& crate::order::is_permutation(order, self.nodes.len())
                &&& blend.positions.len() == self.nodes.len()
                &&& blend.times.len() == self.nodes.len()
                &&& blend.rotations.len() == self.transforms.len()
                &&& blend.translations.len() == self.transforms.len()
                &&& forall|i: int|
                    0 <= i < self.nodes.len() ==> {
                        let k = #[trigger] order[i] as int;
                        &&& blend.positions[i] == self.nodes[k].position
                        &&& blend.times[i] == self.nodes[k].ts
                        &&& self.aligned() ==> blend.rotations[i]
                            == self.transforms[k].rotation.unit_or_no_turn()
                            && blend.translations[i] == self.transforms[k].translation
                    }
                &&& crate::order::ranked(self.times()) ==> crate::order::is_sorted(
                    self.times(),
                    order,
                ) && forall|i: int, j: int|
                    0 <= i < j < blend.times.len() ==> !(#[trigger] blend.times[j]).below(
                        #[trigger] blend.times[i],
                    )
                &&& (forall|i: int, j: int|
                    0 <= i < j < self.nodes.len() ==> !(#[trigger] self.nodes[j]).ts.below(
                        (#[trigger] self.nodes[i]).ts,
                    )) ==> order == crate::selection::everyone(self.nodes.len())
            }),
    {
        let blend = self.blend();
        let order = self.time_order();
        let times = self.times();
        crate::order::stable_order_is_a_permutation(times);
        if crate::order::ranked(times) {
            crate::order::stable_order_is_sorted(times);
            assert forall|i: int, j: int| 0 <= i < j < blend.times.len() implies !(
            #[trigger] blend.times[j]).below(#[trigger] blend.times[i]) by {
                assert(blend.times[i] == times[order[i] as int]);
                assert(blend.times[j] == times[order[j] as int]);
            }
        }
        if forall|i: int, j: int|
            0 <= i < j < self.nodes.len() ==> !(#[trigger] self.nodes[j]).ts.below(
                (#[trigger] self.nodes[i]).ts,
            ) {
            assert forall|i: int, j: int| 0 <= i < j < times.len() implies !(
            #[trigger] times[j]).below(#[trigger] times[i]) by {
                assert(times[i] == self.nodes[i].ts && times[j] == self.nodes[j].ts);
            }
            crate::order::stable_order_keeps_sorted_keys(times);
        }
    }
}

impl<S: Scalar> Default for GraphDelta3D<S> {
    fn default() -> (r: Self)
        ensures
            r@ == Correction::<S>::nothing(),
    {
        GraphDelta3D {
            nodes: Vec::new(),
            transforms: Vec::new(),
            blend_sigma: S::from_count(0),
            blend_time_sigma: S::from_count(0),
        }
    }
}

impl<S: Scalar> GraphDelta3D<S> {
    pub fn len(&self) -> (r: usize)
        ensures
            r == self@.nodes.len(),
    {
        self.nodes.len()
    }

    pub fn is_empty(&self) -> (r: bool)
        ensures
            r == (self@.nodes.len() == 0),
    {
        self.nodes.len() == 0
    }

    /// A correction that holds the same.
    pub fn duplicate(&self) -> (r: Self)
        ensures
            r@ == self@,
    {
        GraphDelta3D {
            nodes: slice_to_vec(self.nodes.as_slice()),
            transforms: slice_to_vec(self.transforms.as_slice()),
            blend_sigma: self.blend_sigma,
            blend_time_sigma: self.blend_time_sigma,
        }
    }

    /// This correction with every delta scaled toward identity by `amount`
    /// (0 = no correction / open loop, 1 = full correction / closed loop).
    pub fn scaled(&self, amount: S) -> (r: Self)
        ensures
            r@ == self@.partly(amount),
    {
        let mut transforms: Vec<Transform<S>> = Vec::new();
        for i in 0..self.transforms.len()
            invariant
                transforms@ == self@.partly(amount).transforms.take(i as int),
        {
            transforms.push(self.transforms[i].scaled_from_identity(amount));
            assert(transforms@ == self@.partly(amount).transforms.take(i + 1));
        }
        GraphDelta3D {
            nodes: slice_to_vec(self.nodes.as_slice()),
            transforms,
            blend_sigma: self.blend_sigma,
            blend_time_sigma: self.blend_time_sigma,
        }
    }

    /// The node anchors.
    pub(crate) fn gather_positions(&self) -> (r: Vec<Vec3<S>>)
        ensures
            r@ == self@.positions(),
    {
        let mut r: Vec<Vec3<S>> = Vec::new();
        for i in 0..self.nodes.len()
            invariant
                r@ == self@.positions().take(i as int),
        {
            r.push(self.nodes[i].position);
            assert(r@ == self@.positions().take(i + 1));
        }
        r
    }

    /// The node times.
    pub(crate) fn gather_times(&self) -> (r: Vec<S>)
        ensures
            r@ == self@.times(),
    {
        let mut r: Vec<S> = Vec::new();
        for i in 0..self.nodes.len()
            invariant
                r@ == self@.times().take(i as int),
        {
            r.push(self.nodes[i].ts);
            assert(r@ == self@.times().take(i + 1));
        }
        r
    }

    /// The node ids.
    pub(crate) fn gather_ids(&self) -> (r: Vec<u64>)
        ensures
            r@ == self@.ids(),
    {
        let mut r: Vec<u64> = Vec::new();
        for i in 0..self.nodes.len()
            invariant
                r@ == self@.ids().take(i as int),
        {
            r.push(self.nodes[i].id);
            assert(r@ == self@.ids().take(i + 1));
        }
        r
    }

    /// The rotations of the deltas, normalized.
    pub(crate) fn gather_rotations(&self) -> (r: Vec<Quat<S>>)
        ensures
            r@ == self@.rotations(),
    {
        let mut r: Vec<Quat<S>> = Vec::new();
        for i in 0..self.transforms.len()
            invariant
                r@ == self@.rotations().take(i as int),
        {
            r.push(self.transforms[i].rotation.normalized_or_identity());
            assert(r@ == self@.rotations().take(i + 1));
        }
        r
    }

    /// The translations of the deltas.
    pub(crate) fn gather_translations(&self) -> (r: Vec<Vec3<S>>)
        ensures
            r@ == self@.translations(),
    {
        let mut r: Vec<Vec3<S>> = Vec::new();
        for i in 0..self.transforms.len()
            invariant
                r@ == self@.translations().take(i as int),
        {
            r.push(self.transforms[i].translation);
            assert(r@ == self@.translations().take(i + 1));
        }
        r
    }

    /// Normalize quaternions and gather the node anchors + times + deltas the warp
    /// weights over, sorted by time. Resolves both bandwidths (auto-picks from spacing
    /// when `<= 0`).
    pub fn to_blend_arrays(&self) -> (r: BlendDeltas<S>)
        ensures
            r@ == self@.blend(),
            r@.positions.len() == self@.nodes.len(),
            r@.times.len() == self@.nodes.len(),
            r@.rotations.len() == self@.transforms.len(),
            r@.translations.len() == self@.transforms.len(),
            crate::order::is_permutation(self@.time_order(), self@.nodes.len()),
            crate::order::ranked(self@.times()) ==> forall|i: int, j: int|
                0 <= i < j < r@.times.len() ==> !(#[trigger] r@.times[j]).below(
                    #[trigger] r@.times[i],
                ),
    {
        let positions = self.gather_positions();
        let times = self.gather_times();
        let rotations = self.gather_rotations();
        let translations = self.gather_translations();
        let sigma = space_bandwidth(self.blend_sigma, positions.as_slice());
        let time_sigma = time_bandwidth(self.blend_time_sigma, times.as_slice());
        let order = sort_indices(times.as_slice());
        proof {
            assert(self.nodes.len() == self@.nodes.len());
            self@.blend_is_sorted_by_time();
        }
        BlendDeltas {
            positions: arrange(positions.as_slice(), order.as_slice()),
            times: arrange(times.as_slice(), order.as_slice()),
            rotations: arrange(rotations.as_slice(), order.as_slice()),
            translations: arrange(translations.as_slice(), order.as_slice()),
            sigma,
            time_sigma,
        }
    }
}

/// The spatial bandwidth for a set of anchors.
pub(crate) fn space_bandwidth<S: Scalar>(configured: S, positions: &[Vec3<S>]) -> (r: S)
    ensures
        r == bandwidth(configured, positions@, space_metric()),
{
    if S::from_count(0).lt(configured) {
        configured
    } else {
        let metric = |a: Vec3<S>, b: Vec3<S>| -> (d: S)
            ensures
                d == a.gap(b),
            { distance(a, b) };
        auto_sigma(mean_nearest(positions, metric, Ghost(space_metric())))
    }
}

/// The temporal bandwidth for a set of times.
pub(crate) fn time_bandwidth<S: Scalar>(configured: S, times: &[S]) -> (r: S)
    ensures
        r == bandwidth(configured, times@, time_metric()),
{
    if S::from_count(0).lt(configured) {
        configured
    } else {
        let metric = |a: S, b: S| -> (d: S)
            ensures
                d == a.minus(b).magnitude(),
            { a.sub(b).abs() };
        auto_sigma(mean_nearest(times, metric, Ghost(time_metric())))
    }
}

/// Mean nearest-neighbor spacing under a caller-supplied metric.
fn mean_nearest<P: Copy, S: Scalar, F: Fn(P, P) -> S>(
    points: &[P],
    metric: F,
    Ghost(model): Ghost<spec_fn(P, P) -> S>,
) -> (r: S)
    requires
        forall|a: P, b: P| #[trigger] call_requires(metric, (a, b)),
        forall|a: P, b: P, d: S| #[trigger] call_ensures(metric, (a, b), d) ==> d == model(a, b),
    ensures
        r == mean_gap(points@, model),
{
    let count = points.len();
    if count < 2 {
        return S::from_count(0);
    }
    let ghost gaps = Seq::new(
        points@.len(),
        |i: int| nearest_gap(points@, model, i, points@.len()),
    );
    let mut total = S::from_count(0);
    for i in 0..count
        invariant
            count == points@.len(),
            gaps == Seq::new(
                points@.len(),
                |i: int| nearest_gap(points@, model, i, points@.len()),
            ),
            total == crate::sequence::total(gaps.take(i as int)),
            forall|a: P, b: P| #[trigger] call_requires(metric, (a, b)),
            forall|a: P, b: P, d: S| #[trigger]
                call_ensures(metric, (a, b), d) ==> d == model(a, b),
    {
        let mut nearest = S::infinity();
        for j in 0..count
            invariant
                count == points@.len(),
                i < count,
                nearest == nearest_gap(points@, model, i as int, j as nat),
                forall|a: P, b: P| #[trigger] call_requires(metric, (a, b)),
                forall|a: P, b: P, d: S| #[trigger]
                    call_ensures(metric, (a, b), d) ==> d == model(a, b),
        {
            if i != j {
                let d = metric(points[i], points[j]);
                if d.lt(nearest) {
                    nearest = d;
                }
            }
        }
        total = total.add(nearest);
        assert(gaps.take(i + 1).drop_last() == gaps.take(i as int));
    }
    assert(gaps.take(count as int) == gaps);
    total.div(S::from_count(count as u64))
}

/// Widen a mean spacing into a Gaussian bandwidth: ~2 spacings overlaps several
/// neighbors so the blend stays smooth (non-folding).
fn auto_sigma<S: Scalar>(mean_spacing: S) -> (r: S)
    ensures
        r == widened_gap(mean_spacing),
{
    mean_spacing.mul(S::from_count(2)).max(S::from_ratio(1, 1_000_000))
}

/// Node anchor positions + times paired with their (normalized) deltas, sorted by time,
/// for the combined space+time proximity blend.
#[derive(Clone, Debug)]
pub struct BlendDeltas<S> {
    pub positions: Vec<Vec3<S>>,
    pub times: Vec<S>,
    pub rotations: Vec<Quat<S>>,
    pub translations: Vec<Vec3<S>>,
    pub sigma: S,
    pub time_sigma: S,
}

/// What a `BlendDeltas` holds.
#[verifier::ext_equal]
pub struct Blend<S> {
    pub positions: Seq<Vec3<S>>,
    pub times: Seq<S>,
    pub rotations: Seq<Quat<S>>,
    pub translations: Seq<Vec3<S>>,
    pub sigma: S,
    pub time_sigma: S,
}

impl<S> View for BlendDeltas<S> {
    type V = Blend<S>;

    open spec fn view(&self) -> Blend<S> {
        Blend {
            positions: self.positions@,
            times: self.times@,
            rotations: self.rotations@,
            translations: self.translations@,
            sigma: self.sigma,
            time_sigma: self.time_sigma,
        }
    }
}

impl<S: Scalar> BlendDeltas<S> {
    /// Arrays that hold the same.
    pub fn duplicate(&self) -> (r: Self)
        ensures
            r@ == self@,
    {
        BlendDeltas {
            positions: slice_to_vec(self.positions.as_slice()),
            times: slice_to_vec(self.times.as_slice()),
            rotations: slice_to_vec(self.rotations.as_slice()),
            translations: slice_to_vec(self.translations.as_slice()),
            sigma: self.sigma,
            time_sigma: self.time_sigma,
        }
    }

    pub fn len(&self) -> (r: usize)
        ensures
            r == self@.positions.len(),
    {
        self.positions.len()
    }

    pub fn is_empty(&self) -> (r: bool)
        ensures
            r == (self@.positions.len() == 0),
    {
        self.positions.len() == 0
    }
}

} // verus!
