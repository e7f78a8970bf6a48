//! Synthetic loop-closure scenes for tests and the web demo.
//!
//! Model: a robot drives one lap of a loop — a circle, or a rectangular hallway
//! (`LoopShape::Square`). Its *open-loop* estimate drifts — each keyframe's pose
//! is the true (closed) pose pushed through a drift transform `D(progress)` that
//! grows from identity at the start to a large yaw + shift at the end. So the
//! estimated trajectory spirals and its far end lands away from the start (the
//! classic un-closed loop — a "too-open" square when the path is a hallway).
//!
//! The correction stored in the `GraphDelta3D` is exactly `D(progress)^-1` per
//! keyframe, so warping the open-loop cloud maps every point back onto the clean
//! loop — closing it and overlapping the two seam ends.

use crate::graph::{Correction, GraphDelta3D, Node, Transform};
use crate::math::{Quat, Vec3};
use crate::point_cloud::{Cloud, PointCloud2};
use crate::scalar::{Arith, Scalar};
use vstd::prelude::*;

verus! {

/// The shape of the true (closed) trajectory the robot drives.
#[derive(Clone, Copy, Debug, PartialEq, Eq, Structural)]
pub enum LoopShape {
    /// A circle of the given `radius`; lidar scatters in a box around the path.
    Circle,
    /// A square hallway with corners at `(±radius, ±radius)`; lidar points hug
    /// the two corridor walls (`hallway_width` apart).
    Square,
}

/// Knobs for the synthetic loop. Defaults produce a visually clear demo scene.
#[derive(Clone, Copy, Debug)]
pub struct LoopParams<S> {
    pub shape: LoopShape,
    pub num_nodes: usize,
    pub points_per_node: usize,
    pub radius: S,
    /// Corridor width for `LoopShape::Square`: points sit ~`hallway_width / 2`
    /// on either side of the path. Ignored for `Circle`.
    pub hallway_width: S,
    /// Total accumulated yaw drift (radians) at the end of the loop.
    pub drift_yaw: S,
    /// Total accumulated translation drift at the end of the loop.
    pub drift_shift: S,
    /// Radius of the lidar scatter sprinkled around each keyframe (for `Square`,
    /// the scatter *across and along* the wall — the wall thickness/roughness).
    pub sensor_spread: S,
    pub time_step_s: S,
    pub seed: u64,
    /// Number of lidar returns from a distant landmark ("tree") seen through a
    /// window in the wall. `0` disables the window/tree entirely. These points
    /// are all observed at one instant (as the robot passes the window), so they
    /// inherit that single pose's correction — a good stress test for how a far,
    /// off-trajectory feature warps.
    pub window_tree_points: usize,
    /// Loop fraction of the window (where in the lap the robot passes it).
    pub window_fraction: S,
    /// Half-width (in loop fraction) of the gap carved in the walls at the window.
    pub window_half: S,
    /// How far outside the wall the tree sits.
    pub tree_distance: S,
    /// Radius of the tree's foliage blob.
    pub tree_size: S,
}

impl<A: Arith> LoopParams<A> {
    /// The default knobs.
    pub open spec fn standard() -> Self {
        LoopParams {
            shape: LoopShape::Circle,
            num_nodes: 48,
            points_per_node: 60,
            radius: A::of_count(10),
            hallway_width: A::of_count(6),
            drift_yaw: A::of_ratio(11, 10),
            drift_shift: A::of_ratio(5, 2),
            sensor_spread: A::of_ratio(8, 5),
            time_step_s: A::of_count(1),
            seed: 1,
            window_tree_points: 0,
            window_fraction: A::of_count(0),
            window_half: A::of_count(0),
            tree_distance: A::of_count(0),
            tree_size: A::of_count(0),
        }
    }
}

impl<S: Scalar> Default for LoopParams<S> {
    fn default() -> (r: Self)
        ensures
            r == LoopParams::<S>::standard(),
    {
        LoopParams {
            shape: LoopShape::Circle,
            num_nodes: 48,
            points_per_node: 60,
            radius: S::from_count(10),
            hallway_width: S::from_count(6),
            drift_yaw: S::from_ratio(11, 10),
            drift_shift: S::from_ratio(5, 2),
            sensor_spread: S::from_ratio(8, 5),
            time_step_s: S::from_count(1),
            seed: 1,
            window_tree_points: 0,
            window_fraction: S::from_count(0),
            window_half: S::from_count(0),
            tree_distance: S::from_count(0),
            tree_size: S::from_count(0),
        }
    }
}

/// A generated scene: the open-loop cloud, the closure correction, and the
/// open-loop pose-graph node positions (for drawing nodes + edges).
pub struct SyntheticScene<S: Scalar> {
    pub cloud: PointCloud2<S>,
    pub graph_delta: GraphDelta3D<S>,
    pub node_positions: Vec<[S::Narrow; 3]>,
    pub node_times: Vec<S>,
}

/// What a `SyntheticScene` holds.
#[verifier::ext_equal]
pub struct Scene<S: Scalar> {
    pub cloud: Cloud<S>,
    pub correction: Correction<S>,
    pub node_positions: Seq<[S::Narrow; 3]>,
    pub node_times: Seq<S>,
}

impl<S: Scalar> View for SyntheticScene<S> {
    type V = Scene<S>;

    open spec fn view(&self) -> Scene<S> {
        Scene {
            cloud: self.cloud@,
            correction: self.graph_delta@,
            node_positions: self.node_positions@,
            node_times: self.node_times@,
        }
    }
}

/// The step between two states of the generator.
pub const GOLDEN_STEP: u64 = 0x9E37_79B9_7F4A_7C15;

/// Deterministic small PRNG (SplitMix64) so scenes are reproducible without a
/// random-number crate (keeps the wasm build light).
pub struct Rng {
    pub state: u64,
}

/// The state that follows `state`.
pub open spec fn next_state(state: u64) -> u64 {
    vstd::wrapping::u64_specs::wrapping_add(state, GOLDEN_STEP)
}

/// The 64 output bits of a state.
pub open spec fn output_bits(state: u64) -> u64 {
    let a = vstd::wrapping::u64_specs::wrapping_mul(state ^ (state >> 30), 0xBF58_476D_1CE4_E5B9);
    let b = vstd::wrapping::u64_specs::wrapping_mul(a ^ (a >> 27), 0x94D0_49BB_1331_11EB);
    b ^ (b >> 31)
}

/// The number in [0, 1) that the generator yields in moving on from `state`: the
/// top 53 output bits over `2^53`.
pub open spec fn drawn<A: Arith>(state: u64) -> A {
    A::of_ratio((output_bits(next_state(state)) >> 11) as u64, 0x20_0000_0000_0000)
}

/// The number in [-1, 1) that the generator yields in moving on from `state`.
pub open spec fn drawn_unit<A: Arith>(state: u64) -> A {
    drawn::<A>(state).times(A::of_count(2)).minus(A::of_count(1))
}

/// The top 53 output bits are below `2^53`, so the drawn number is below one.
pub proof fn numerator_fits(state: u64)
    ensures
        (output_bits(next_state(state)) >> 11) < 0x20_0000_0000_0000,
{
    let bits = output_bits(next_state(state));
    assert((bits >> 11) < 0x20_0000_0000_0000) by (bit_vector);
}

impl Rng {
    pub fn new(seed: u64) -> (r: Self)
        ensures
            r.state == next_state(seed),
    {
        Rng { state: seed.wrapping_add(GOLDEN_STEP) }
    }

    /// The next 64 output bits.
    pub fn next_bits(&mut self) -> (r: u64)
        ensures
            final(self).state == next_state(old(self).state),
            r == output_bits(final(self).state),
    {
        self.state = self.state.wrapping_add(GOLDEN_STEP);
        let mut z = self.state;
        z = (z ^ (z >> 30)).wrapping_mul(0xBF58_476D_1CE4_E5B9);
        z = (z ^ (z >> 27)).wrapping_mul(0x94D0_49BB_1331_11EB);
        z ^ (z >> 31)
    }

    /// The next number in [0, 1).
    pub fn next_01<S: Scalar>(&mut self) -> (r: S)
        ensures
            final(self).state == next_state(old(self).state),
            r == drawn::<S>(old(self).state),
    {
        let z = self.next_bits();
        // Top 53 bits → [0, 1).
        S::from_ratio(z >> 11, 0x20_0000_0000_0000)
    }

    /// The next number in [-1, 1).
    pub fn next_unit<S: Scalar>(&mut self) -> (r: S)
        ensures
            final(self).state == next_state(old(self).state),
            r == drawn_unit::<S>(old(self).state),
    {
        self.next_01::<S>().mul(S::from_count(2)).sub(S::from_count(1))
    }
}

/// Corner `k` of the square with corners at `(±radius, ±radius)`, counterclockwise
/// from the bottom right.
pub open spec fn corner<A: Arith>(radius: A, k: int) -> Vec3<A> {
    let far = radius.negated();
    let zero = A::of_count(0);
    if k == 0 {
        Vec3 { x: radius, y: far, z: zero }
    } else if k == 1 {
        Vec3 { x: radius, y: radius, z: zero }
    } else if k == 2 {
        Vec3 { x: far, y: radius, z: zero }
    } else {
        Vec3 { x: far, y: far, z: zero }
    }
}

/// The point and the unit tangent at `fraction` of the square's perimeter: the
/// part before the point within `4 fraction` picks the side, the rest the place
/// along it.
pub open spec fn on_square<S: Scalar>(radius: S, fraction: S) -> (Vec3<S>, Vec3<S>) {
    let scaled = fraction.wrapped(S::of_count(1)).times(S::of_count(4));
    let quarter = scaled.whole();
    let side = quarter.index() as int % 4;
    let local = scaled.minus(quarter);
    let start = corner(radius, side);
    let end = corner(radius, (side + 1) % 4);
    let along_x = end.x.minus(start.x);
    let along_y = end.y.minus(start.y);
    let length = along_x.times(along_x).plus(along_y.times(along_y)).root();
    (
        Vec3 {
            x: start.x.plus(end.x.minus(start.x).times(local)),
            y: start.y.plus(end.y.minus(start.y).times(local)),
            z: S::of_count(0),
        },
        Vec3 { x: along_x.over(length), y: along_y.over(length), z: S::of_count(0) },
    )
}

impl<A: Arith> Transform<A> {
    /// The transform that undoes this one: for `p' = R p + t`, that is
    /// `p = R^-1 p' - R^-1 t`.
    pub open spec fn undone(self) -> Self {
        let back = self.rotation.conjugated();
        let shifted = back.turned(self.translation);
        Transform {
            rotation: back,
            translation: Vec3 {
                x: shifted.x.negated(),
                y: shifted.y.negated(),
                z: shifted.z.negated(),
            },
        }
    }
}

/// The stored form of a point.
pub open spec fn stored<S: Scalar>(point: Vec3<S>) -> [S::Narrow; 3] {
    [point.x.narrowed(), point.y.narrowed(), point.z.narrowed()]
}

/// Points drawn so far, with their times, and the generator state after them.
#[verifier::ext_equal]
pub struct Draws<S: Scalar> {
    pub state: u64,
    pub points: Seq<[S::Narrow; 3]>,
    pub times: Seq<S>,
}

impl<S: Arith> LoopParams<S> {
    /// The index of the last node, counting from zero; at least one.
    pub open spec fn last_index(self) -> S {
        S::of_count(
            if self.num_nodes <= 2 {
                1
            } else {
                (self.num_nodes - 1) as u64
            },
        )
    }

    /// The loop fraction at a progress in [0, 1]. It stops one step short of a full
    /// lap.
    pub open spec fn fraction_at(self, progress: S) -> S {
        progress.times(self.last_index()).over(S::of_count(self.num_nodes as u64))
    }

    /// The observation time at a progress in [0, 1].
    pub open spec fn time_at(self, progress: S) -> S {
        progress.times(self.last_index()).times(self.time_step_s)
    }

    /// The progress of node `i`.
    pub open spec fn node_progress(self, i: int) -> S {
        S::of_count(i as u64).over(self.last_index())
    }

    /// Whether a loop fraction lies in the gap carved for the window.
    pub open spec fn in_window(self, fraction: S) -> bool {
        let delta = fraction.minus(self.window_fraction).magnitude();
        self.window_tree_points > 0 && delta.smaller(S::of_count(1).minus(delta)).below(
            self.window_half,
        )
    }

    /// The progress at which the robot passes the window.
    pub open spec fn window_progress(self) -> S {
        self.window_fraction.times(S::of_count(self.num_nodes as u64)).over(self.last_index())
    }
}

impl<S: Scalar> LoopParams<S> {
    /// The true (closed) path at a loop fraction: its center point and the unit
    /// tangent.
    pub open spec fn path(self, fraction: S) -> (Vec3<S>, Vec3<S>) {
        match self.shape {
            LoopShape::Circle => {
                let angle = S::full_turn().times(fraction);
                (
                    Vec3 {
                        x: self.radius.times(angle.cosine()),
                        y: self.radius.times(angle.sine()),
                        z: S::of_count(0),
                    },
                    Vec3 { x: angle.sine().negated(), y: angle.cosine(), z: S::of_count(0) },
                )
            },
            LoopShape::Square => on_square(self.radius, fraction),
        }
    }

    /// The drift at a progress in [0, 1]: a rotation about +Z by
    /// `drift_yaw * progress`, plus a small linear shift.
    pub open spec fn drift(self, progress: S) -> Transform<S> {
        let half = self.drift_yaw.times(progress).times(S::of_ratio(1, 2));
        Transform {
            rotation: Quat {
                x: S::of_count(0),
                y: S::of_count(0),
                z: half.sine(),
                w: half.cosine(),
            },
            translation: Vec3 {
                x: self.drift_shift.times(progress),
                y: S::of_count(0),
                z: S::of_count(0),
            },
        }
    }

    /// Node `i`: its true center on the path, drifted.
    pub open spec fn node(self, i: int) -> Node<S> {
        let progress = self.node_progress(i);
        Node {
            id: i as u64,
            ts: self.time_at(progress),
            position: self.drift(progress).moved(self.path(self.fraction_at(progress)).0),
        }
    }

    /// The closure correction: for every node, the inverse of its drift.
    pub open spec fn closure(self) -> Correction<S> {
        Correction {
            nodes: Seq::new(self.num_nodes as nat, |i: int| self.node(i)),
            transforms: Seq::new(
                self.num_nodes as nat,
                |i: int| self.drift(self.node_progress(i)).undone(),
            ),
            blend_sigma: S::of_count(0),
            blend_time_sigma: S::of_count(0),
        }
    }

    /// The scatter added to a path center, drawn from `state`, and the state after.
    pub open spec fn offset(self, fraction: S, center: Vec3<S>, state: u64) -> (Vec3<S>, u64) {
        let second = next_state(state);
        let third = next_state(second);
        match self.shape {
            LoopShape::Circle => (
                Vec3 {
                    x: drawn_unit::<S>(state).times(self.sensor_spread),
                    y: drawn_unit::<S>(second).times(self.sensor_spread),
                    z: S::of_count(0),
                },
                third,
            ),
            LoopShape::Square => {
                let side_sign = if drawn::<S>(state).below(S::of_ratio(1, 2)) {
                    S::of_count(1).negated()
                } else {
                    S::of_count(1)
                };
                let wall_radius = self.radius.plus(
                    side_sign.times(self.hallway_width).times(S::of_ratio(1, 2)),
                );
                let (wall_center, tangent) = on_square(wall_radius, fraction);
                let across = drawn_unit::<S>(second).times(self.sensor_spread).times(
                    S::of_ratio(1, 2),
                );
                let along = drawn_unit::<S>(third).times(self.sensor_spread);
                let x = wall_center.x.plus(tangent.y.negated().times(across)).plus(
                    tangent.x.times(along),
                );
                let y = wall_center.y.plus(tangent.x.times(across)).plus(tangent.y.times(along));
                (
                    Vec3 { x: x.minus(center.x), y: y.minus(center.y), z: S::of_count(0) },
                    next_state(third),
                )
            },
        }
    }

    /// One more lidar point: drawn anywhere along the loop, scattered around the
    /// path, and drifted by its own progress; left out in the window.
    pub open spec fn with_sample(self, before: Draws<S>) -> Draws<S> {
        let progress = drawn::<S>(before.state);
        let state = next_state(before.state);
        let fraction = self.fraction_at(progress);
        if self.in_window(fraction) {
            Draws { state, ..before }
        } else {
            let center = self.path(fraction).0;
            let (offset, after) = self.offset(fraction, center, state);
            Draws {
                state: after,
                points: before.points.push(stored(self.drift(progress).moved(center.plus(offset)))),
                times: before.times.push(self.time_at(progress)),
            }
        }
    }

    /// The draws of the first `n` lidar samples.
    pub open spec fn samples(self, n: nat) -> Draws<S>
        decreases n,
    {
        if n == 0 {
            Draws { state: next_state(self.seed), points: Seq::empty(), times: Seq::empty() }
        } else {
            self.with_sample(self.samples((n - 1) as nat))
        }
    }

    /// The center of the tree, outward of the window.
    pub open spec fn tree_center(self) -> Vec3<S> {
        let wall = self.path(self.window_fraction).0;
        let length = wall.x.times(wall.x).plus(wall.y.times(wall.y)).root().larger(
            S::of_ratio(1, 1_000_000_000),
        );
        Vec3 {
            x: wall.x.plus(wall.x.over(length).times(self.tree_distance)),
            y: wall.y.plus(wall.y.over(length).times(self.tree_distance)),
            z: S::of_count(0),
        }
    }

    /// One more return from the tree: drawn in a disk, seen at the one instant at
    /// which the robot passes the window.
    pub open spec fn with_leaf(self, before: Draws<S>) -> Draws<S> {
        let second = next_state(before.state);
        let angle = drawn::<S>(before.state).times(S::full_turn());
        let radius = self.tree_size.times(drawn::<S>(second).root());
        let center = self.tree_center();
        let leaf = Vec3 {
            x: center.x.plus(radius.times(angle.cosine())),
            y: center.y.plus(radius.times(angle.sine())),
            z: S::of_count(0),
        };
        Draws {
            state: next_state(second),
            points: before.points.push(stored(self.drift(self.window_progress()).moved(leaf))),
            times: before.times.push(self.time_at(self.window_progress())),
        }
    }

    /// The draws of all lidar samples and of the first `n` tree returns.
    pub open spec fn samples_and_leaves(self, n: nat) -> Draws<S>
        decreases n,
    {
        if n == 0 {
            self.samples((self.num_nodes * self.points_per_node) as nat)
        } else {
            self.with_leaf(self.samples_and_leaves((n - 1) as nat))
        }
    }

    /// The whole scene.
    pub open spec fn scene(self) -> Scene<S> {
        let draws = self.samples_and_leaves(self.window_tree_points as nat);
        let closure = self.closure();
        Scene {
            cloud: Cloud {
                points: draws.points,
                timestamps: Some(draws.times),
                intensities: None,
                frame_id: "map"@,
                ts: S::of_count(0),
            },
            correction: closure,
            node_positions: closure.positions().map_values(|p: Vec3<S>| stored(p)),
            node_times: closure.times(),
        }
    }

    /// Every drawn point has a time, and each sample adds at most one point; without
    /// a window it adds exactly one.
    pub proof fn samples_are_timed(self, n: nat)
        ensures
            self.samples(n).points.len() == self.samples(n).times.len(),
            self.samples(n).points.len() <= n,
            self.window_tree_points == 0 ==> self.samples(n).points.len() == n,
        decreases n,
    {
        if n > 0 {
            self.samples_are_timed((n - 1) as nat);
        }
    }

    proof fn leaves_are_timed(self, n: nat)
        ensures
            ({
                let all = self.samples_and_leaves(n);
                let samples = self.samples((self.num_nodes * self.points_per_node) as nat);
                &&& all.points.len() == all.times.len()
                &&& all.points.len() == samples.points.len() + n
            }),
        decreases n,
    {
        if n > 0 {
            self.leaves_are_timed((n - 1) as nat);
        } else {
            self.samples_are_timed((self.num_nodes * self.points_per_node) as nat);
        }
    }

    /// Whether a point was drawn at the loop from `state`, outside the window: it is the
    /// path center at its progress, scattered, and drifted by that progress, and it was
    /// seen at the time of that progress.
    #[verifier::opaque]
    pub open spec fn drawn_outside_the_window(
        self,
        point: [S::Narrow; 3],
        time: S,
        state: u64,
    ) -> bool {
        let progress = drawn::<S>(state);
        let fraction = self.fraction_at(progress);
        let center = self.path(fraction).0;
        &&& !self.in_window(fraction)
        &&& time == self.time_at(progress)
        &&& point == stored(
            self.drift(progress).moved(
                center.plus(self.offset(fraction, center, next_state(state)).0),
            ),
        )
    }

    /// Whether a point was drawn at the loop outside the window, from some state.
    pub open spec fn lies_outside_the_window(self, point: [S::Narrow; 3], time: S) -> bool {
        exists|state: u64| #[trigger] self.drawn_outside_the_window(point, time, state)
    }

    /// One more sample adds nothing, or one point that was drawn outside the window.
    proof fn sample_avoids_the_window(self, before: Draws<S>)
        ensures
            ({
                let after = self.with_sample(before);
                ||| after.points == before.points && after.times == before.times
                ||| after.points.len() > 0 && after.times.len() > 0 && after.points
                    == before.points.push(after.points.last()) && after.times
                    == before.times.push(after.times.last()) && self.drawn_outside_the_window(
                    after.points.last(),
                    after.times.last(),
                    before.state,
                )
            }),
    {
        reveal(LoopParams::drawn_outside_the_window);
    }

    /// No lidar point lies in the window.
    pub proof fn samples_avoid_the_window(self, n: nat, p: int)
        requires
            0 <= p < self.samples(n).points.len(),
        ensures
            self.lies_outside_the_window(self.samples(n).points[p], self.samples(n).times[p]),
        decreases n,
    {
        reveal_with_fuel(LoopParams::samples, 1);
        if n > 0 {
            let m = (n - 1) as nat;
            let (before, after) = (self.samples(m), self.samples(n));
            assert(after == self.with_sample(before));
            self.samples_are_timed(m);
            self.sample_avoids_the_window(before);
            if p < before.points.len() {
                self.samples_avoid_the_window(m, p);
                let state = choose|state: u64| #[trigger]
                    self.drawn_outside_the_window(before.points[p], before.times[p], state);
                assert(self.drawn_outside_the_window(after.points[p], after.times[p], state));
            } else {
                assert(self.drawn_outside_the_window(
                    after.points[p],
                    after.times[p],
                    before.state,
                ));
            }
        }
    }

    /// Tree returns come behind the lidar points, and every one of them is seen at the one
    /// instant at which the robot passes the window.
    pub proof fn tree_is_seen_at_one_instant(self, n: nat)
        ensures
            ({
                let all = self.samples_and_leaves(n);
                let samples = self.samples((self.num_nodes * self.points_per_node) as nat);
                let walls = samples.points.len();
                &&& all.points.len() == walls + n
                &&& all.times.len() == walls + n
                &&& all.points.take(walls as int) == samples.points
                &&& all.times.take(walls as int) == samples.times
                &&& forall|p: int|
                    walls <= p < walls + n ==> #[trigger] all.times[p] == self.time_at(
                        self.window_progress(),
                    )
            }),
        decreases n,
    {
        let samples = self.samples((self.num_nodes * self.points_per_node) as nat);
        self.samples_are_timed((self.num_nodes * self.points_per_node) as nat);
        let walls = samples.points.len() as int;
        let all = self.samples_and_leaves(n);
        if n > 0 {
            let before = self.samples_and_leaves((n - 1) as nat);
            self.tree_is_seen_at_one_instant((n - 1) as nat);
            assert(all.points.take(walls) =~= before.points.take(walls));
            assert(all.times.take(walls) =~= before.times.take(walls));
            assert forall|p: int| walls <= p < walls + n implies #[trigger] all.times[p]
                == self.time_at(self.window_progress()) by {
                if p < walls + n - 1 {
                    assert(all.times[p] == before.times[p]);
                }
            }
        } else {
            assert(all.points.take(walls) =~= samples.points);
            assert(all.times.take(walls) =~= samples.times);
        }
    }

    /// Of a scene's points the last `window_tree_points` are the tree, all seen at the one
    /// instant at which the robot passes the window; the others were drawn at the loop, none
    /// of them in the window.
    pub proof fn scene_keeps_the_window_clear(self)
        ensures
            ({
                let cloud = self.scene().cloud;
                let walls = cloud.points.len() - self.window_tree_points;
                &&& walls >= 0
                &&& cloud.timestamps matches Some(times) && {
                    &&& times.len() == cloud.points.len()
                    &&& forall|p: int|
                        walls <= p < cloud.points.len() ==> #[trigger] times[p] == self.time_at(
                            self.window_progress(),
                        )
                    &&& forall|p: int|
                        0 <= p < walls ==> self.lies_outside_the_window(
                            #[trigger] cloud.points[p],
                            times[p],
                        )
                }
            }),
    {
        let total = (self.num_nodes * self.points_per_node) as nat;
        let samples = self.samples(total);
        let cloud = self.scene().cloud;
        let times = self.samples_and_leaves(self.window_tree_points as nat).times;
        assert(cloud.timestamps == Some(times));
        let walls = samples.points.len() as int;
        self.tree_is_seen_at_one_instant(self.window_tree_points as nat);
        self.samples_are_timed(total);
        assert(walls == cloud.points.len() - self.window_tree_points);
        assert forall|p: int| 0 <= p < walls implies self.lies_outside_the_window(
            #[trigger] cloud.points[p],
            times[p],
        ) by {
            self.samples_avoid_the_window(total, p);
            assert(cloud.points[p] == cloud.points.take(walls)[p]);
            assert(times[p] == times.take(walls)[p]);
        }
    }

    /// A scene has one delta, one drawing position and one time per node, ids that
    /// count up from zero, and one time per point; so its correction can be applied
    /// to its cloud. Without a window the cloud has `points_per_node` points for
    /// every node.
    pub proof fn scene_is_complete(self)
        ensures
            ({
                let scene = self.scene();
                &&& scene.correction.nodes.len() == self.num_nodes
                &&& scene.correction.transforms.len() == self.num_nodes
                &&& scene.node_positions.len() == self.num_nodes
                &&& scene.node_times.len() == self.num_nodes
                &&& forall|i: int|
                    0 <= i < self.num_nodes ==> (#[trigger] scene.correction.nodes[i]).id == i
                &&& scene.cloud.timestamps matches Some(times) && times.len()
                    == scene.cloud.points.len()
                &&& scene.correction.fits(scene.cloud)
                &&& scene.cloud.points.len() <= self.num_nodes * self.points_per_node
                    + self.window_tree_points
                &&& self.window_tree_points <= scene.cloud.points.len()
                &&& self.window_tree_points == 0 ==> scene.cloud.points.len() == self.num_nodes
                    * self.points_per_node
            }),
    {
        assert(self.num_nodes * self.points_per_node >= 0) by (nonlinear_arith);
        self.samples_are_timed((self.num_nodes * self.points_per_node) as nat);
        self.leaves_are_timed(self.window_tree_points as nat);
    }
}

impl<S: Scalar> LoopParams<S> {
    fn last_index_value(&self) -> (r: S)
        ensures
            r == self.last_index(),
    {
        if self.num_nodes <= 2 {
            S::from_count(1)
        } else {
            S::from_count((self.num_nodes - 1) as u64)
        }
    }

    fn loop_fraction(&self, progress: S) -> (r: S)
        ensures
            r == self.fraction_at(progress),
    {
        progress.mul(self.last_index_value()).div(S::from_count(self.num_nodes as u64))
    }

    fn loop_time(&self, progress: S) -> (r: S)
        ensures
            r == self.time_at(progress),
    {
        progress.mul(self.last_index_value()).mul(self.time_step_s)
    }
}

/// The true (closed) path at a loop `fraction` in [0, 1): its center point and
/// the unit tangent (direction of travel). The circle sweeps a full turn; the
/// square walks its perimeter starting at the bottom-right corner, counterclock-
/// wise, so travel is up → left → down → right.
pub fn path_at<S: Scalar>(params: &LoopParams<S>, fraction: S) -> (r: (Vec3<S>, Vec3<S>))
    ensures
        r == params.path(fraction),
{
    match params.shape {
        LoopShape::Circle => {
            let angle = S::tau().mul(fraction);
            let zero = S::from_count(0);
            let center = Vec3::new(
                params.radius.mul(angle.cos()),
                params.radius.mul(angle.sin()),
                zero,
            );
            let tangent = Vec3::new(angle.sin().neg(), angle.cos(), zero);
            (center, tangent)
        },
        LoopShape::Square => square_perimeter(params.radius, fraction),
    }
}

/// A point on the perimeter of an axis-aligned square with corners at
/// `(±radius, ±radius)`, at loop `fraction` in [0, 1): its position and unit
/// tangent. Sampling the *same* fraction on differently sized squares keeps the
/// two hallway walls concentric, so their corners miter and line up.
pub fn square_perimeter<S: Scalar>(radius: S, fraction: S) -> (r: (Vec3<S>, Vec3<S>))
    ensures
        r == on_square(radius, fraction),
{
    let zero = S::from_count(0);
    let far = radius.neg();
    let corners = [
        Vec3::new(radius, far, zero),
        Vec3::new(radius, radius, zero),
        Vec3::new(far, radius, zero),
        Vec3::new(far, far, zero),
    ];
    let scaled = fraction.rem_euclid(S::from_count(1)).mul(S::from_count(4));
    let quarter = scaled.floor();
    let side: usize = quarter.to_index() % 4;
    let local = scaled.sub(quarter);
    let start = corners[side];
    let end = corners[(side + 1) % 4];
    let center = Vec3::new(
        start.x.add(end.x.sub(start.x).mul(local)),
        start.y.add(end.y.sub(start.y).mul(local)),
        zero,
    );
    let along_x = end.x.sub(start.x);
    let along_y = end.y.sub(start.y);
    let length = along_x.mul(along_x).add(along_y.mul(along_y)).sqrt();
    let tangent = Vec3::new(along_x.div(length), along_y.div(length), zero);
    (center, tangent)
}

/// The lidar scatter added to a path center at a given `fraction`. The circle
/// fills a box (so interior points are visible warping). The square puts points
/// on one of the two hallway walls — a concentric square `hallway_width / 2`
/// inside or outside the path — so the walls' corners meet cleanly; a little
/// `sensor_spread` roughness thickens the wall and jitters along it.
pub fn scatter<S: Scalar>(
    params: &LoopParams<S>,
    fraction: S,
    center: Vec3<S>,
    rng: &mut Rng,
) -> (r: Vec3<S>)
    ensures
        (r, final(rng).state) == params.offset(fraction, center, old(rng).state),
{
    let zero = S::from_count(0);
    match params.shape {
        LoopShape::Circle => {
            let x = rng.next_unit::<S>().mul(params.sensor_spread);
            let y = rng.next_unit::<S>().mul(params.sensor_spread);
            Vec3::new(x, y, zero)
        },
        LoopShape::Square => {
            let half = S::from_ratio(1, 2);
            let side_sign = if rng.next_01::<S>().lt(half) {
                S::from_count(1).neg()
            } else {
                S::from_count(1)
            };
            let wall_radius = params.radius.add(side_sign.mul(params.hallway_width).mul(half));
            let (wall_center, wall_tangent) = square_perimeter(wall_radius, fraction);
            let across = rng.next_unit::<S>().mul(params.sensor_spread).mul(half);
            let along = rng.next_unit::<S>().mul(params.sensor_spread);
            let x = wall_center.x.add(wall_tangent.y.neg().mul(across)).add(
                wall_tangent.x.mul(along),
            );
            let y = wall_center.y.add(wall_tangent.x.mul(across)).add(wall_tangent.y.mul(along));
            Vec3::new(x.sub(center.x), y.sub(center.y), zero)
        },
    }
}

/// Drift transform applied to true poses at a given progress in [0, 1].
/// Rotation about +Z by `drift_yaw * progress`, plus a small linear shift.
pub fn drift_at<S: Scalar>(params: &LoopParams<S>, progress: S) -> (r: Transform<S>)
    ensures
        r == params.drift(progress),
{
    let zero = S::from_count(0);
    let yaw = params.drift_yaw.mul(progress);
    let half = yaw.mul(S::from_ratio(1, 2));
    Transform {
        rotation: Quat::new(zero, zero, half.sin(), half.cos()),
        translation: Vec3::new(params.drift_shift.mul(progress), zero, zero),
    }
}

/// Inverse of a drift transform: the correction that undoes it.
/// For `p' = R p + t`, the inverse is `p = R^-1 p' - R^-1 t`.
pub fn inverse<S: Scalar>(transform: &Transform<S>) -> (r: Transform<S>)
    ensures
        r == transform.undone(),
{
    let inverse_rotation = transform.rotation.conjugate();
    let shifted = inverse_rotation.rotate(transform.translation);
    Transform {
        rotation: inverse_rotation,
        translation: Vec3::new(shifted.x.neg(), shifted.y.neg(), shifted.z.neg()),
    }
}

/// The stored form of a point.
pub(crate) fn store<S: Scalar>(point: Vec3<S>) -> (r: [S::Narrow; 3])
    ensures
        r == stored(point),
{
    [point.x.narrow(), point.y.narrow(), point.z.narrow()]
}

/// The keyframe nodes: evenly spaced around the loop, each with the correction that
/// undoes its drift. The last node sits one step before the seam so it overlaps
/// node 0 once the loop is closed.
fn closure_of<S: Scalar>(params: &LoopParams<S>) -> (r: GraphDelta3D<S>)
    ensures
        r@ == params.closure(),
{
    let mut graph_delta: GraphDelta3D<S> = GraphDelta3D::default();
    for index in 0..params.num_nodes
        invariant
            graph_delta@.nodes == params.closure().nodes.take(index as int),
            graph_delta@.transforms == params.closure().transforms.take(index as int),
            graph_delta@.blend_sigma == S::of_count(0),
            graph_delta@.blend_time_sigma == S::of_count(0),
    {
        let progress = S::from_count(index as u64).div(params.last_index_value());
        let fraction = params.loop_fraction(progress);
        let time = params.loop_time(progress);
        let (true_center, _tangent) = path_at(params, fraction);
        let drift = drift_at(params, progress);
        let open_center = drift.apply(true_center);
        graph_delta.nodes.push(Node { id: index as u64, ts: time, position: open_center });
        graph_delta.transforms.push(inverse(&drift));
        assert(graph_delta@.nodes == params.closure().nodes.take(index + 1));
        assert(graph_delta@.transforms == params.closure().transforms.take(index + 1));
    }
    assert(graph_delta@ =~= params.closure());
    graph_delta
}

/// Build a drifted loop and its exact closure correction.
pub fn generate_scene<S: Scalar>(params: &LoopParams<S>) -> (r: SyntheticScene<S>)
    requires
        params.num_nodes * params.points_per_node <= usize::MAX,
    ensures
        r@ == params.scene(),
        r@.correction.fits(r@.cloud),
{
    let mut rng = Rng::new(params.seed);
    let mut points: Vec<[S::Narrow; 3]> = Vec::new();
    let mut timestamps: Vec<S> = Vec::new();

    let graph_delta = closure_of(params);
    let node_times = graph_delta.gather_times();
    let mut node_positions: Vec<[S::Narrow; 3]> = Vec::new();
    for index in 0..params.num_nodes
        invariant
            graph_delta@ == params.closure(),
            node_positions@ == params.scene().node_positions.take(index as int),
    {
        node_positions.push(store(graph_delta.nodes[index].position));
        assert(node_positions@ == params.scene().node_positions.take(index + 1));
    }
    assert(node_positions@ == params.scene().node_positions);

    // Lidar points sampled *continuously* along the loop, not snapped to a node.
    // Each point's drift is its own progress, so its correction is blended from
    // the two bracketing keyframes — the distortion is shared across neighboring
    // nodes (a sliding window) rather than jumping node-by-node.
    let total_points = params.num_nodes * params.points_per_node;
    for sample in 0..total_points
        invariant
            rng.state == params.samples(sample as nat).state,
            points@ == params.samples(sample as nat).points,
            timestamps@ == params.samples(sample as nat).times,
    {
        let ghost before = params.samples(sample as nat);
        let progress = rng.next_01::<S>();
        let fraction = params.loop_fraction(progress);
        let time = params.loop_time(progress);

        // Carve a gap in the wall at the window so the opening is visible.
        let mut carved = false;
        if params.window_tree_points > 0 {
            let delta = fraction.sub(params.window_fraction).abs();
            let wrapped = delta.min(S::from_count(1).sub(delta));
            carved = wrapped.lt(params.window_half);
        }
        if !carved {
            let (true_center, _tangent) = path_at(params, fraction);
            let offset = scatter(params, fraction, true_center, &mut rng);
            let true_point = Vec3::new(
                true_center.x.add(offset.x),
                true_center.y.add(offset.y),
                true_center.z.add(offset.z),
            );
            let drift = drift_at(params, progress);
            let open_point = drift.apply(true_point);
            points.push(store(open_point));
            timestamps.push(time);
        }
        assert(params.samples((sample + 1) as nat) == params.with_sample(before));
    }

    // A distant tree seen through the window. Every return shares the *single*
    // instant the robot passes the window, so all of them are drifted by that one
    // pose and (once corrected) inherit that pose's node correction — showing how
    // a far, off-trajectory feature rides along with its observing keyframe.
    if params.window_tree_points > 0 {
        let window_progress = params.window_fraction.mul(
            S::from_count(params.num_nodes as u64),
        ).div(params.last_index_value());
        let window_time = params.loop_time(window_progress);
        let window_drift = drift_at(params, window_progress);

        let (wall_center, _tangent) = path_at(params, params.window_fraction);
        let length = wall_center.x.mul(wall_center.x).add(
            wall_center.y.mul(wall_center.y),
        ).sqrt().max(S::from_ratio(1, 1_000_000_000));
        let tree_center = Vec3::new(
            wall_center.x.add(wall_center.x.div(length).mul(params.tree_distance)),
            wall_center.y.add(wall_center.y.div(length).mul(params.tree_distance)),
            S::from_count(0),
        );
        for leaf in 0..params.window_tree_points
            invariant
                window_drift == params.drift(params.window_progress()),
                window_time == params.time_at(params.window_progress()),
                tree_center == params.tree_center(),
                rng.state == params.samples_and_leaves(leaf as nat).state,
                points@ == params.samples_and_leaves(leaf as nat).points,
                timestamps@ == params.samples_and_leaves(leaf as nat).times,
        {
            let ghost before = params.samples_and_leaves(leaf as nat);
            // Uniform disk → a round canopy blob.
            let angle = rng.next_01::<S>().mul(S::tau());
            let radius = params.tree_size.mul(rng.next_01::<S>().sqrt());
            let true_point = Vec3::new(
                tree_center.x.add(radius.mul(angle.cos())),
                tree_center.y.add(radius.mul(angle.sin())),
                S::from_count(0),
            );
            let open_point = window_drift.apply(true_point);
            points.push(store(open_point));
            timestamps.push(window_time);
            assert(params.samples_and_leaves((leaf + 1) as nat) == params.with_leaf(before));
        }
    }
    let cloud = PointCloud2 {
        points,
        timestamps: Some(timestamps),
        intensities: None,
        frame_id: "map".to_owned(),
        ts: S::from_count(0),
    };
    let scene = SyntheticScene { cloud, graph_delta, node_positions, node_times };
    proof {
        params.scene_is_complete();
        assert(scene@ =~= params.scene());
    }
    scene
}

} // verus!
