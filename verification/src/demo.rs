//! The web demo: one scene, and the flat buffers that it is drawn from.
//!
//! The demo only ever pushes two inputs (the closure slider `alpha` and the node
//! count) and pulls flat arrays back.

use crate::graph::Correction;
use crate::point_cloud::{Cloud, PointCloud2};
use crate::scalar::{Arith, Scalar};
use crate::sparsify::sparsify;
use crate::synthetic::{
    generate_scene, store, LoopParams, LoopShape, Scene, SyntheticScene,
};
use crate::warp::reform;
use vstd::prelude::*;

verus! {

/// A scene and what is drawn of it.
pub struct DemoState<S: Scalar> {
    scene: SyntheticScene<S>,
    /// Warped point positions as x, y interleaved (2 * point count).
    point_xy: Vec<S::Narrow>,
    /// Per-point normalized time in [0, 1] for the rainbow gradient (point count).
    point_time: Vec<S::Narrow>,
    /// Warped node positions as x, y interleaved (2 * node count).
    node_xy: Vec<S::Narrow>,
}

/// The x and y coordinates of `points`, interleaved.
pub open spec fn interleaved<N>(points: Seq<[N; 3]>) -> Seq<N>
    decreases points.len(),
{
    if points.len() == 0 {
        Seq::empty()
    } else {
        interleaved(points.drop_last()).push(points.last()[0]).push(points.last()[1])
    }
}

/// There are two coordinates per point, in the order of the points.
pub proof fn interleaved_holds_x_and_y<N>(points: Seq<[N; 3]>)
    ensures
        interleaved(points).len() == 2 * points.len(),
        forall|i: int|
            0 <= i < points.len() ==> interleaved(points)[2 * i] == (#[trigger] points[i])[0]
                && interleaved(points)[2 * i + 1] == points[i][1],
    decreases points.len(),
{
    if points.len() > 0 {
        let front = points.drop_last();
        interleaved_holds_x_and_y(front);
        assert forall|i: int| 0 <= i < points.len() implies interleaved(points)[2 * i] == (
        #[trigger] points[i])[0] && interleaved(points)[2 * i + 1] == points[i][1] by {
            if i < front.len() {
                assert(front[i] == points[i]);
            }
        }
    }
}

/// The knobs of the demo: shape 1 is a square hallway (two corridor walls a
/// corridor-width apart, a stronger drift, and a window with a tree far outside
/// it), any other a circle whose points fill the disk.
pub open spec fn demo_knobs<A: Arith>(seed: u32, shape: u32) -> LoopParams<A> {
    if shape == 1 {
        LoopParams {
            shape: LoopShape::Square,
            seed: seed as u64,
            radius: A::of_count(10),
            hallway_width: A::of_count(6),
            sensor_spread: A::of_ratio(3, 2),
            points_per_node: 120,
            drift_yaw: A::of_ratio(11, 10),
            drift_shift: A::of_count(4),
            window_tree_points: 500,
            window_fraction: A::of_ratio(3, 25),
            window_half: A::of_ratio(1, 50),
            tree_distance: A::of_count(16),
            tree_size: A::of_ratio(7, 2),
            ..LoopParams::standard()
        }
    } else {
        LoopParams {
            shape: LoopShape::Circle,
            seed: seed as u64,
            sensor_spread: A::of_count(8),
            points_per_node: 90,
            ..LoopParams::standard()
        }
    }
}

/// The knobs of the demo.
pub fn demo_params<S: Scalar>(seed: u32, shape: u32) -> (r: LoopParams<S>)
    ensures
        r == demo_knobs::<S>(seed, shape),
{
    if shape == 1 {
        LoopParams {
            shape: LoopShape::Square,
            seed: seed as u64,
            radius: S::from_count(10),
            hallway_width: S::from_count(6),
            sensor_spread: S::from_ratio(3, 2),
            points_per_node: 120,
            drift_yaw: S::from_ratio(11, 10),
            drift_shift: S::from_count(4),
            window_tree_points: 500,
            window_fraction: S::from_ratio(3, 25),
            window_half: S::from_ratio(1, 50),
            tree_distance: S::from_count(16),
            tree_size: S::from_ratio(7, 2),
            ..LoopParams::default()
        }
    } else {
        LoopParams {
            shape: LoopShape::Circle,
            seed: seed as u64,
            sensor_spread: S::from_count(8),
            points_per_node: 90,
            ..LoopParams::default()
        }
    }
}

/// The latest of some times, and at least zero.
pub open spec fn latest<A: Arith>(times: Seq<A>) -> A
    decreases times.len(),
{
    if times.len() == 0 {
        A::of_count(0)
    } else {
        latest(times.drop_last()).larger(times.last())
    }
}

/// The times over the latest one (or over one, where that is less), stored.
pub open spec fn gradient<S: Scalar>(times: Seq<S>) -> Seq<S::Narrow> {
    let span = latest(times).larger(S::of_count(1));
    times.map_values(|t: S| t.over(span).narrowed())
}

/// The times over the latest one, stored.
fn time_gradient<S: Scalar>(times: &[S]) -> (r: Vec<S::Narrow>)
    ensures
        r@ == gradient(times@),
{
    let mut max_time = S::from_count(0);
    for i in 0..times.len()
        invariant
            max_time == latest(times@.take(i as int)),
    {
        assert(times@.take(i + 1).drop_last() == times@.take(i as int));
        max_time = max_time.max(times[i]);
    }
    assert(times@.take(times@.len() as int) == times@);
    let span = max_time.max(S::from_count(1));
    let mut r: Vec<S::Narrow> = Vec::new();
    for i in 0..times.len()
        invariant
            span == latest(times@).larger(S::of_count(1)),
            r@ == gradient(times@).take(i as int),
    {
        r.push(times[i].div(span).narrow());
        assert(r@ == gradient(times@).take(i + 1));
    }
    assert(r@ == gradient(times@));
    r
}

/// The x and y coordinates of `points`, interleaved.
fn interleave<N: Copy>(points: &[[N; 3]]) -> (r: Vec<N>)
    ensures
        r@ == interleaved(points@),
{
    let mut r: Vec<N> = Vec::new();
    for i in 0..points.len()
        invariant
            r@ == interleaved(points@.take(i as int)),
    {
        assert(points@.take(i + 1).drop_last() == points@.take(i as int));
        r.push(points[i][0]);
        r.push(points[i][1]);
    }
    assert(points@.take(points@.len() as int) == points@);
    r
}

/// The anchors of a correction as a cloud, each seen at its node's time.
pub open spec fn anchor_cloud<S: Scalar>(correction: Correction<S>) -> Cloud<S> {
    Cloud {
        points: correction.positions().map_values(
            |p: crate::math::Vec3<S>| crate::synthetic::stored(p),
        ),
        timestamps: Some(correction.times()),
        ..Cloud::nothing()
    }
}

impl<S: Scalar> DemoState<S> {
    /// The scene that is drawn.
    pub closed spec fn shown(self) -> Scene<S> {
        self.scene@
    }

    /// The interleaved positions of the drawn points.
    pub closed spec fn drawn_points(self) -> Seq<S::Narrow> {
        self.point_xy@
    }

    /// The normalized times of the drawn points.
    pub closed spec fn drawn_times(self) -> Seq<S::Narrow> {
        self.point_time@
    }

    /// The interleaved positions of the drawn nodes.
    pub closed spec fn drawn_nodes(self) -> Seq<S::Narrow> {
        self.node_xy@
    }

    /// The scene's correction can be thinned and applied to its cloud.
    #[verifier::type_invariant]
    spec fn applicable(self) -> bool {
        &&& self.shown().correction.aligned()
        &&& self.shown().correction.fits(self.shown().cloud)
    }

    /// What is drawn for a closure slider and a node count: the correction is
    /// thinned, scaled, and applied to the points and to the nodes it kept.
    pub open spec fn draws(self, alpha: S::Narrow, node_count: u32) -> bool {
        let thinned = self.shown().correction.thinned_to(node_count as nat);
        let blend = thinned.partly(S::widened(alpha)).blend();
        &&& self.drawn_points() == interleaved(blend.warped_cloud(self.shown().cloud).points)
        &&& self.drawn_nodes() == interleaved(blend.warped_cloud(anchor_cloud(thinned)).points)
    }

    /// Build the synthetic scene and warp it at alpha = 0 (open loop). `shape` picks
    /// the trajectory: 0 = circle (disk of lidar), 1 = square hallway (points on the
    /// two corridor walls, drifted "too open").
    pub fn init(seed: u32, shape: u32) -> (r: Self)
        ensures
            r.shown() == demo_knobs::<S>(seed, shape).scene(),
            r.shown().cloud.timestamps matches Some(times) && r.drawn_times() == gradient(times),
            r.draws(S::of_count(0).narrowed(), 48),
    {
        let params = demo_params::<S>(seed, shape);
        let scene = generate_scene(&params);
        proof {
            params.scene_is_complete();
        }
        let point_time = match &scene.cloud.timestamps {
            Some(times) => time_gradient(times.as_slice()),
            None => Vec::new(),
        };
        let mut demo = DemoState { scene, point_xy: Vec::new(), point_time, node_xy: Vec::new() };
        let full_nodes = demo.max_nodes() as u32;
        demo.warp(S::from_count(0).narrow(), full_nodes);
        demo
    }

    /// Re-warp the scene: thin the pose graph to `node_count` nodes (greedy
    /// leave-one-out decimation), scale the remaining correction by `alpha`
    /// (0 = open loop, 1 = fully closed loop), and refresh the output buffers. The
    /// drawn nodes are the ones the sparsifier kept, warped like everything else.
    pub fn warp(&mut self, alpha: S::Narrow, node_count: u32)
        ensures
            final(self).shown() == old(self).shown(),
            final(self).drawn_times() == old(self).drawn_times(),
            final(self).draws(alpha, node_count),
    {
        proof {
            use_type_invariant(&*self);
        }
        let thinned = sparsify(&self.scene.graph_delta, node_count as usize);
        let scaled = thinned.scaled(S::widen(alpha));
        proof {
            assert(self.scene.graph_delta.nodes.len() == self.scene@.correction.nodes.len());
            self.scene@.correction.thinning_meets_its_target(node_count as nat);
        }
        let warped_cloud = reform(&self.scene.cloud, &scaled);
        let point_xy = interleave(warped_cloud.points.as_slice());

        let mut node_points: Vec<[S::Narrow; 3]> = Vec::new();
        for i in 0..thinned.nodes.len()
            invariant
                node_points@ == anchor_cloud(thinned@).points.take(i as int),
        {
            node_points.push(store(thinned.nodes[i].position));
            assert(node_points@ == anchor_cloud(thinned@).points.take(i + 1));
        }
        let node_cloud = PointCloud2 {
            points: node_points,
            timestamps: Some(thinned.gather_times()),
            ..PointCloud2::default()
        };
        assert(node_cloud@ =~= anchor_cloud(thinned@));
        let warped_nodes = reform(&node_cloud, &scaled);
        self.node_xy = interleave(warped_nodes.points.as_slice());
        self.point_xy = point_xy;
    }

    /// The full (un-thinned) node count — the max for the demo's node-count slider.
    pub fn max_nodes(&self) -> (r: usize)
        ensures
            r == self.shown().correction.nodes.len(),
    {
        self.scene.graph_delta.len()
    }

    pub fn num_points(&self) -> (r: usize)
        ensures
            r == self.drawn_times().len(),
    {
        self.point_time.len()
    }

    pub fn num_nodes(&self) -> (r: usize)
        ensures
            r == self.drawn_nodes().len() / 2,
    {
        self.node_xy.len() / 2
    }

    pub fn points(&self) -> (r: &[S::Narrow])
        ensures
            r@ == self.drawn_points(),
    {
        self.point_xy.as_slice()
    }

    pub fn point_times(&self) -> (r: &[S::Narrow])
        ensures
            r@ == self.drawn_times(),
    {
        self.point_time.as_slice()
    }

    pub fn node_points(&self) -> (r: &[S::Narrow])
        ensures
            r@ == self.drawn_nodes(),
    {
        self.node_xy.as_slice()
    }
}

/// `latest` is the latest of the times, or zero where none lies above it, where the larger of
/// two numbers is one of them that the other does not lie above.
pub proof fn latest_is_latest<A: Arith>(times: Seq<A>)
    requires
        forall|a: A, b: A| #[trigger] a.larger(b) == a || a.larger(b) == b,
        forall|a: A, b: A, c: A|
            c.at_most(a) || c.at_most(b) ==> #[trigger] c.at_most(a.larger(b)),
        A::of_count(0).at_most(A::of_count(0)),
        forall|i: int| 0 <= i < times.len() ==> (#[trigger] times[i]).at_most(times[i]),
    ensures
        latest(times) == A::of_count(0) || times.contains(latest(times)),
        A::of_count(0).at_most(latest(times)),
        forall|i: int| 0 <= i < times.len() ==> (#[trigger] times[i]).at_most(latest(times)),
    decreases times.len(),
{
    let zero = A::of_count(0);
    if times.len() > 0 {
        let front = times.drop_last();
        assert forall|i: int| 0 <= i < front.len() implies (#[trigger] front[i]).at_most(
            front[i],
        ) by {
            assert(front[i] == times[i]);
        }
        latest_is_latest(front);
        let (before, last) = (latest(front), times.last());
        assert(last.at_most(last));
        assert(latest(times) == before.larger(last));
        assert(zero.at_most(before.larger(last)));
        assert forall|i: int| 0 <= i < times.len() implies (#[trigger] times[i]).at_most(
            latest(times),
        ) by {
            if i < front.len() {
                assert(front[i] == times[i]);
                assert(front[i].at_most(before));
            }
            assert(times[i].at_most(before.larger(last)));
        }
        if latest(times) == before && before != zero {
            let k = choose|k: int| 0 <= k < front.len() && front[k] == before;
            assert(times[k] == before);
        } else if latest(times) == last {
            assert(times[times.len() - 1] == last);
        }
    }
}

/// The drawn times are the scene's, each over the latest of them or over one, where that is
/// later.
pub proof fn gradient_is_time_by_time<S: Scalar>(times: Seq<S>, i: int)
    requires
        0 <= i < times.len(),
    ensures
        gradient(times).len() == times.len(),
        gradient(times)[i] == times[i].over(latest(times).larger(S::of_count(1))).narrowed(),
{
}

impl<S: Scalar> DemoState<S> {
    /// What is drawn are the points of the scene and the anchors of the nodes that are kept,
    /// each warped on its own, with its own time, by the thinned and scaled correction: two
    /// coordinates for each, x before y.
    pub proof fn points_and_kept_nodes_are_drawn(
        self,
        alpha: S::Narrow,
        node_count: u32,
        i: int,
        k: int,
    )
        requires
            self.draws(alpha, node_count),
            self.shown().correction.nodes.len() <= usize::MAX,
            self.shown().cloud.timestamps matches Some(times) && times.len()
                == self.shown().cloud.points.len(),
            0 < node_count,
            0 <= i < self.shown().cloud.points.len(),
            0 <= k < self.shown().correction.thinned_to(node_count as nat).nodes.len(),
        ensures
            ({
                let cloud = self.shown().cloud;
                let thinned = self.shown().correction.thinned_to(node_count as nat);
                let blend = thinned.partly(S::widened(alpha)).blend();
                let point = blend.warped(cloud.points[i], Some(cloud.timestamps->0[i]));
                let anchor = blend.warped(
                    crate::synthetic::stored(thinned.nodes[k].position),
                    Some(thinned.nodes[k].ts),
                );
                &&& self.drawn_points().len() == 2 * cloud.points.len()
                &&& self.drawn_points()[2 * i] == point[0]
                &&& self.drawn_points()[2 * i + 1] == point[1]
                &&& self.drawn_nodes().len() == 2 * thinned.nodes.len()
                &&& self.drawn_nodes()[2 * k] == anchor[0]
                &&& self.drawn_nodes()[2 * k + 1] == anchor[1]
            }),
    {
        let cloud = self.shown().cloud;
        let correction = self.shown().correction;
        let thinned = correction.thinned_to(node_count as nat);
        let blend = thinned.partly(S::widened(alpha)).blend();
        correction.thinning_meets_its_target(node_count as nat);
        thinned.partly(S::widened(alpha)).blend_is_sorted_by_time();
        let anchors = anchor_cloud(thinned);
        interleaved_holds_x_and_y(blend.warped_cloud(cloud).points);
        interleaved_holds_x_and_y(blend.warped_cloud(anchors).points);
        blend.clouds_are_warped_with_their_times(cloud, i);
        blend.clouds_are_warped_with_their_times(anchors, k);
        assert(blend.warped_cloud(cloud).points[i] == blend.warped(
            cloud.points[i],
            Some(cloud.timestamps->0[i]),
        ));
        assert(anchors.points[k] == crate::synthetic::stored(thinned.nodes[k].position));
        assert(anchors.timestamps->0[k] == thinned.nodes[k].ts);
        assert(blend.warped_cloud(anchors).points[k] == blend.warped(
            anchors.points[k],
            Some(anchors.timestamps->0[k]),
        ));
    }
}

} // verus!
