//! Synthetic scenes under exact arithmetic: where the path runs, where the walls and the
//! tree stand, how the drift bends them, and that the closure puts them back.

use crate::exact;
use crate::graph::{Correction, Node, Transform};
use crate::math::{Quat, Vec3};
use crate::scalar::{Arith, Scalar};
use crate::synthetic::{Draws, LoopParams, LoopShape};
use vstd::prelude::*;

verus! {

/// The functions that a scene is made with, beside the operations of its numbers.
#[verifier::reject_recursive_types(A)]
pub struct Functions<A> {
    pub sine: spec_fn(A) -> A,
    pub cosine: spec_fn(A) -> A,
    /// The largest whole number that is not above a number.
    pub whole: spec_fn(A) -> A,
    /// The remainder of a number by one, from zero on.
    pub part: spec_fn(A) -> A,
    /// The index that a whole number stands for.
    pub index: spec_fn(A) -> usize,
    pub full_turn: A,
}

/// The functions that a running number type has.
pub open spec fn functions_of<S: Scalar>() -> Functions<S> {
    Functions {
        sine: |x: S| x.sine(),
        cosine: |x: S| x.cosine(),
        whole: |x: S| x.whole(),
        part: |x: S| x.wrapped(S::of_count(1)),
        index: |x: S| x.index(),
        full_turn: S::full_turn(),
    }
}

/// The place and the direction of travel at a fraction of a square's perimeter.
pub open spec fn on_square_with<A: Arith>(f: Functions<A>, radius: A, fraction: A) -> (
    Vec3<A>,
    Vec3<A>,
) {
    let quarters = (f.part)(fraction).times(A::of_count(4));
    let side = (f.index)((f.whole)(quarters)) as int % 4;
    let local = quarters.minus((f.whole)(quarters));
    let start = crate::synthetic::corner(radius, side);
    let end = crate::synthetic::corner(radius, (side + 1) % 4);
    let (dx, dy) = (end.x.minus(start.x), end.y.minus(start.y));
    let length = dx.times(dx).plus(dy.times(dy)).root();
    (
        Vec3 {
            x: start.x.plus(dx.times(local)),
            y: start.y.plus(dy.times(local)),
            z: A::of_count(0),
        },
        Vec3 { x: dx.over(length), y: dy.over(length), z: A::of_count(0) },
    )
}

impl<A: Arith> LoopParams<A> {
    /// The path at a loop fraction: its center point and the direction of travel.
    pub open spec fn path_with(self, f: Functions<A>, fraction: A) -> (Vec3<A>, Vec3<A>) {
        match self.shape {
            LoopShape::Circle => {
                let angle = f.full_turn.times(fraction);
                let (sine, cosine) = ((f.sine)(angle), (f.cosine)(angle));
                let zero = A::of_count(0);
                (
                    Vec3 { x: self.radius.times(cosine), y: self.radius.times(sine), z: zero },
                    Vec3 { x: sine.negated(), y: cosine, z: zero },
                )
            },
            LoopShape::Square => on_square_with(f, self.radius, fraction),
        }
    }

    /// The drift at a progress.
    pub open spec fn drift_with(self, f: Functions<A>, progress: A) -> Transform<A> {
        let half = self.drift_yaw.times(progress).times(A::of_ratio(1, 2));
        let zero = A::of_count(0);
        Transform {
            rotation: Quat { x: zero, y: zero, z: (f.sine)(half), w: (f.cosine)(half) },
            translation: Vec3 { x: self.drift_shift.times(progress), y: zero, z: zero },
        }
    }

    /// Node `i` of the open loop.
    pub open spec fn node_with(self, f: Functions<A>, i: int) -> Node<A> {
        let progress = self.node_progress(i);
        Node {
            id: i as u64,
            ts: self.time_at(progress),
            position: self.drift_with(f, progress).moved(
                self.path_with(f, self.fraction_at(progress)).0,
            ),
        }
    }

    /// The closure correction.
    pub open spec fn closure_with(self, f: Functions<A>) -> Correction<A> {
        Correction {
            nodes: Seq::new(self.num_nodes as nat, |i: int| self.node_with(f, i)),
            transforms: Seq::new(
                self.num_nodes as nat,
                |i: int| self.drift_with(f, self.node_progress(i)).undone(),
            ),
            blend_sigma: A::of_count(0),
            blend_time_sigma: A::of_count(0),
        }
    }

    /// Half the side of the wall that a lidar point drawn from `state` lies on.
    pub open spec fn wall_with(self, state: u64) -> A {
        let side = if crate::synthetic::drawn::<A>(state).below(A::of_ratio(1, 2)) {
            A::of_count(1).negated()
        } else {
            A::of_count(1)
        };
        self.radius.plus(side.times(self.hallway_width).times(A::of_ratio(1, 2)))
    }

    /// The scatter added to a path center.
    pub open spec fn offset_with(
        self,
        f: Functions<A>,
        fraction: A,
        center: Vec3<A>,
        state: u64,
    ) -> Vec3<A> {
        let second = crate::synthetic::next_state(state);
        let third = crate::synthetic::next_state(second);
        let spread = self.sensor_spread;
        match self.shape {
            LoopShape::Circle => Vec3 {
                x: crate::synthetic::drawn_unit::<A>(state).times(spread),
                y: crate::synthetic::drawn_unit::<A>(second).times(spread),
                z: A::of_count(0),
            },
            LoopShape::Square => {
                let (wall, tangent) = on_square_with(f, self.wall_with(state), fraction);
                let across = crate::synthetic::drawn_unit::<A>(second).times(spread).times(
                    A::of_ratio(1, 2),
                );
                let along = crate::synthetic::drawn_unit::<A>(third).times(spread);
                let x = wall.x.plus(tangent.y.negated().times(across)).plus(
                    tangent.x.times(along),
                );
                let y = wall.y.plus(tangent.x.times(across)).plus(tangent.y.times(along));
                Vec3 { x: x.minus(center.x), y: y.minus(center.y), z: A::of_count(0) }
            },
        }
    }

    /// The lidar point drawn from `state`, drifted.
    pub open spec fn sample_with(self, f: Functions<A>, state: u64) -> Vec3<A> {
        let progress = crate::synthetic::drawn::<A>(state);
        let fraction = self.fraction_at(progress);
        let center = self.path_with(f, fraction).0;
        self.drift_with(f, progress).moved(
            center.plus(
                self.offset_with(f, fraction, center, crate::synthetic::next_state(state)),
            ),
        )
    }

    /// The center of the tree.
    pub open spec fn tree_with(self, f: Functions<A>) -> Vec3<A> {
        let wall = self.path_with(f, self.window_fraction).0;
        let length = wall.x.times(wall.x).plus(wall.y.times(wall.y)).root().larger(
            A::of_ratio(1, 1_000_000_000),
        );
        Vec3 {
            x: wall.x.plus(wall.x.over(length).times(self.tree_distance)),
            y: wall.y.plus(wall.y.over(length).times(self.tree_distance)),
            z: A::of_count(0),
        }
    }

    /// The tree return drawn from `state`, before the drift.
    pub open spec fn leaf_with(self, f: Functions<A>, state: u64) -> Vec3<A> {
        let angle = crate::synthetic::drawn::<A>(state).times(f.full_turn);
        let radius = self.tree_size.times(
            crate::synthetic::drawn::<A>(crate::synthetic::next_state(state)).root(),
        );
        let center = self.tree_with(f);
        Vec3 {
            x: center.x.plus(radius.times((f.cosine)(angle))),
            y: center.y.plus(radius.times((f.sine)(angle))),
            z: A::of_count(0),
        }
    }
}

impl<S: Scalar> LoopParams<S> {
    /// What is proved of these formulas is proved of the scenes that a running number type
    /// makes: it makes them with its own functions.
    pub proof fn scene_uses_the_functions_of_its_numbers(
        self,
        fraction: S,
        progress: S,
        center: Vec3<S>,
        state: u64,
    )
        ensures
            ({
                let f = functions_of::<S>();
                &&& crate::synthetic::on_square(self.radius, fraction) == on_square_with(
                    f,
                    self.radius,
                    fraction,
                )
                &&& self.path(fraction) == self.path_with(f, fraction)
                &&& self.drift(progress) == self.drift_with(f, progress)
                &&& self.offset(fraction, center, state).0 == self.offset_with(
                    f,
                    fraction,
                    center,
                    state,
                )
                &&& self.closure() == self.closure_with(f)
                &&& self.tree_center() == self.tree_with(f)
            }),
    {
        let f = functions_of::<S>();
        let closure = self.closure();
        let read = self.closure_with(f);
        assert(closure.nodes =~= read.nodes);
        assert(closure.transforms =~= read.transforms);
    }

    /// One more lidar sample adds the point that is drawn from the generator's state, with
    /// the time at which the robot was there, unless it lies in the window. A sample takes
    /// three numbers from the generator on a circle and four in a hallway, or one where it is
    /// left out.
    pub proof fn samples_are_drawn_one_by_one(self, before: Draws<S>)
        ensures
            ({
                let after = self.with_sample(before);
                let progress = crate::synthetic::drawn::<S>(before.state);
                let second = crate::synthetic::next_state(before.state);
                let fourth = crate::synthetic::next_state(crate::synthetic::next_state(second));
                if self.in_window(self.fraction_at(progress)) {
                    &&& after.points == before.points
                    &&& after.times == before.times
                    &&& after.state == second
                } else {
                    &&& after.points == before.points.push(
                        crate::synthetic::stored(
                            self.sample_with(functions_of::<S>(), before.state),
                        ),
                    )
                    &&& after.times == before.times.push(self.time_at(progress))
                    &&& self.shape == LoopShape::Circle ==> after.state == fourth
                    &&& self.shape == LoopShape::Square ==> after.state
                        == crate::synthetic::next_state(fourth)
                }
            }),
    {
    }

    /// The draws start behind the seed, with nothing drawn, and go on sample by sample and
    /// then leaf by leaf; different seeds start apart.
    pub proof fn draws_start_from_the_seed(self, other: Self, n: nat)
        ensures
            self.samples(0).state == crate::synthetic::next_state(self.seed),
            self.samples(0).points.len() == 0,
            self.samples(0).times.len() == 0,
            self.samples(n + 1) == self.with_sample(self.samples(n)),
            self.samples_and_leaves(0) == self.samples(
                (self.num_nodes * self.points_per_node) as nat,
            ),
            self.samples_and_leaves(n + 1) == self.with_leaf(self.samples_and_leaves(n)),
            self.seed != other.seed ==> self.samples(0).state != other.samples(0).state,
    {
        reveal_with_fuel(LoopParams::samples, 1);
        reveal_with_fuel(LoopParams::samples_and_leaves, 1);
    }

    /// A scene holds the draws, each point with its time and none with an intensity, in the
    /// map frame at time zero; beside them the closure, and the anchors and times of its
    /// nodes.
    pub proof fn scene_holds_the_draws_and_the_closure(self, i: int)
        requires
            0 <= i < self.num_nodes,
        ensures
            ({
                let scene = self.scene();
                let draws = self.samples_and_leaves(self.window_tree_points as nat);
                let closure = self.closure_with(functions_of::<S>());
                &&& scene.cloud.points == draws.points
                &&& scene.cloud.timestamps == Some(draws.times)
                &&& scene.cloud.intensities is None
                &&& scene.cloud.frame_id == "map"@
                &&& scene.cloud.ts == S::of_count(0)
                &&& scene.correction == closure
                &&& scene.node_positions.len() == self.num_nodes
                &&& scene.node_positions[i] == crate::synthetic::stored(closure.nodes[i].position)
                &&& scene.node_times.len() == self.num_nodes
                &&& scene.node_times[i] == closure.nodes[i].ts
            }),
    {
        self.scene_uses_the_functions_of_its_numbers(
            S::of_count(0),
            S::of_count(0),
            Vec3::origin(),
            0,
        );
    }

    /// One more tree return adds the point that is drawn from the generator's state, drifted
    /// as the robot is when it passes the window, and seen at that time.
    pub proof fn leaves_are_drawn_one_by_one(self, before: Draws<S>)
        ensures
            ({
                let after = self.with_leaf(before);
                let f = functions_of::<S>();
                let passing = self.window_progress();
                &&& after.points == before.points.push(
                    crate::synthetic::stored(
                        self.drift_with(f, passing).moved(self.leaf_with(f, before.state)),
                    ),
                )
                &&& after.times == before.times.push(self.time_at(passing))
                &&& after.state == crate::synthetic::next_state(
                    crate::synthetic::next_state(before.state),
                )
            }),
    {
    }
}

/// Whether the part after the point and the part before it are what they should be, as far
/// as a lap of four sides needs them.
pub open spec fn counts(f: Functions<real>) -> bool {
    &&& forall|x: real| 0real <= x < 1real ==> #[trigger] (f.part)(x) == x
    &&& forall|x: real|
        0real <= x < 4real ==> {
            let before = #[trigger] (f.whole)(x);
            &&& before == (f.index)(before) as real
            &&& before <= x < before + 1real
        }
}

/// Whether the sine and the cosine of an angle lie on the unit circle.
pub open spec fn circles(f: Functions<real>) -> bool {
    forall|angle: real| #[trigger]
        exact::product((f.sine)(angle), (f.sine)(angle)) + exact::product(
            (f.cosine)(angle),
            (f.cosine)(angle),
        ) == 1real
}

/// Whether the sine and the cosine of a doubled angle are what the addition theorems say.
pub open spec fn doubles(f: Functions<real>) -> bool {
    forall|half: real|
        {
            let (s, c) = (#[trigger] (f.sine)(half), (f.cosine)(half));
            &&& (f.sine)(half + half) == exact::product(2real, exact::product(s, c))
            &&& (f.cosine)(half + half) == exact::product(c, c) - exact::product(s, s)
        }
}

/// The larger of the distances from the two axes.
pub open spec fn farthest(p: Vec3<real>) -> real {
    p.x.magnitude().larger(p.y.magnitude())
}

proof fn halves_add_up(x: real)
    ensures
        exact::product(x, real::of_ratio(1, 2)) + exact::product(x, real::of_ratio(1, 2)) == x,
        real::of_ratio(1, 2) + real::of_ratio(1, 2) == 1real,
{
    let half = real::of_ratio(1, 2);
    exact::quotient_of_sum(1real, 1real, 2real);
    exact::product_of_sum(x, half, half);
    exact::product_by_constants(x);
}

/// A part of a side of a square.
proof fn side_stretches(radius: real, fraction: real, k: real)
    ensures
        exact::product(radius + radius, exact::product(fraction, 4real) - k) == 8real
            * exact::product(radius, fraction) - 2real * exact::product(k, radius),
        exact::product(0real - (radius + radius), exact::product(fraction, 4real) - k) == 2real
            * exact::product(k, radius) - 8real * exact::product(radius, fraction),
{
    exact::product_of_opposite(radius + radius, exact::product(fraction, 4real) - k);
    reveal(exact::product);
    assert((radius + radius) * (fraction * 4real - k) == 8real * (radius * fraction) - 2real * (k
        * radius)) by (nonlinear_arith);
}

/// The length of a side of a square.
proof fn side_length(radius: real)
    requires
        0real < radius,
    ensures
        exact::product(radius + radius, radius + radius).root() == radius + radius,
        exact::quotient(radius + radius, radius + radius) == 1real,
        exact::quotient(0real - (radius + radius), radius + radius) == 0real - 1real,
        exact::quotient(0real, radius + radius) == 0real,
        exact::product(0real - (radius + radius), 0real - (radius + radius)) == exact::product(
            radius + radius,
            radius + radius,
        ),
{
    let side = radius + radius;
    exact::square_is_positive(side);
    exact::root_is_unique(exact::product(side, side), side);
    exact::quotient_of_sum(side, 0real - side, side);
    exact::product_of_opposite(side, 0real - side);
    exact::product_of_opposite(side, side);
}

/// A lap of the square starts at the bottom right corner and runs up, left, down and right
/// along the four sides, at an even pace: after a fraction of the lap that fraction of the
/// eight half sides lies behind.
pub proof fn square_is_walked_evenly(f: Functions<real>, radius: real, fraction: real)
    requires
        counts(f),
        0real <= fraction < 1real,
    ensures
        ({
            let (place, travel) = on_square_with(f, radius, fraction);
            let walked = 8real * exact::product(radius, fraction);
            let quarters = 4real * fraction;
            &&& place.z == 0real && travel.z == 0real
            &&& quarters < 1real ==> place.x == radius && place.y == walked - radius
            &&& 1real <= quarters < 2real ==> place.x == 3real * radius - walked && place.y
                == radius
            &&& 2real <= quarters < 3real ==> place.x == 0real - radius && place.y == 5real * radius
                - walked
            &&& 3real <= quarters ==> place.x == walked - 7real * radius && place.y == 0real
                - radius
            &&& 0real < radius && quarters < 1real ==> travel.x == 0real && travel.y == 1real
            &&& 0real < radius && 1real <= quarters < 2real ==> travel.x == 0real - 1real
                && travel.y == 0real
            &&& 0real < radius && 2real <= quarters < 3real ==> travel.x == 0real && travel.y
                == 0real - 1real
            &&& 0real < radius && 3real <= quarters ==> travel.x == 1real && travel.y == 0real
        }),
{
    let x = exact::product(fraction, 4real);
    assert(x == 4real * fraction) by {
        reveal(exact::product);
    }
    exact::small_counts();
    assert((f.part)(fraction) == fraction);
    let before = (f.whole)(x);
    let side = (f.index)(before) as int % 4;
    assert(before <= x < before + 1real);
    let local = x - before;
    exact::product_by_constants(local);
    exact::product_by_constants(0real);
    exact::product_by_constants(radius);
    assert(exact::product(3real, radius) == 3real * radius) by {
        reveal(exact::product);
    }
    if 0real < radius {
        side_length(radius);
    }
    let n = (f.index)(before);
    assert(real::of_count(4) == 4real);
    if x < 1real {
        assert(n == 0);
        side_stretches(radius, fraction, 0real);
    } else if x < 2real {
        assert(n == 1);
        side_stretches(radius, fraction, 1real);
    } else if x < 3real {
        assert(n == 2);
        side_stretches(radius, fraction, 2real);
    } else {
        assert(n == 3);
        side_stretches(radius, fraction, 3real);
    }
}

/// The path of a square lap lies on the square: as far from one axis as its half side, and
/// no farther from the other.
pub proof fn square_path_lies_on_the_square(f: Functions<real>, radius: real, fraction: real)
    requires
        counts(f),
        0real <= radius,
        0real <= fraction < 1real,
    ensures
        farthest(on_square_with(f, radius, fraction).0) == radius,
        on_square_with(f, radius, fraction).0.z == 0real,
{
    square_is_walked_evenly(f, radius, fraction);
    let part = exact::product(radius, fraction);
    let quarters = 4real * fraction;
    assert(4real * part == radius * quarters) by {
        reveal(exact::product);
        assert(4real * (radius * fraction) == radius * (4real * fraction)) by (nonlinear_arith);
    }
    let k: real = if quarters < 1real {
        0real
    } else if quarters < 2real {
        1real
    } else if quarters < 3real {
        2real
    } else {
        3real
    };
    assert(radius * k <= radius * quarters <= radius * (k + 1real)) by (nonlinear_arith)
        requires
            0real <= radius,
            k <= quarters <= k + 1real,
    ;
    assert(radius * (k + 1real) == radius * k + radius) by (nonlinear_arith);
}

/// In a square hallway a lidar point lies at one of the two walls, which stand half a
/// hallway width inside and outside of the path: around the place on that wall at the same
/// fraction of the lap, up to half the sensor spread across and the sensor spread along it.
/// Without spread it lies on the wall.
pub proof fn walls_stand_half_a_hallway_off_the_path(
    p: LoopParams<real>,
    f: Functions<real>,
    fraction: real,
    center: Vec3<real>,
    state: u64,
)
    requires
        p.shape == LoopShape::Square,
        counts(f),
        0real <= fraction < 1real,
    ensures
        ({
            let point = center.plus(p.offset_with(f, fraction, center, state));
            let inside = crate::synthetic::drawn::<real>(state) < real::of_ratio(1, 2);
            let wall = p.wall_with(state);
            let (place, travel) = on_square_with(f, wall, fraction);
            let second = crate::synthetic::next_state(state);
            let third = crate::synthetic::next_state(second);
            &&& inside ==> wall + wall == p.radius + p.radius - p.hallway_width
            &&& !inside ==> wall + wall == p.radius + p.radius + p.hallway_width
            &&& point.z == center.z
            &&& exists|across: real, along: real| #[trigger]
                is_off_by(point, place, travel, across, along) && across + across
                    == exact::product(
                    crate::synthetic::drawn_unit::<real>(second),
                    p.sensor_spread,
                ) && along == exact::product(
                    crate::synthetic::drawn_unit::<real>(third),
                    p.sensor_spread,
                ) && (0real <= p.sensor_spread ==> 2real * across.magnitude() <= p.sensor_spread
                    && along.magnitude() <= p.sensor_spread)
            &&& p.sensor_spread == 0real ==> point.x == place.x && point.y == place.y
            &&& p.sensor_spread == 0real && 0real <= wall ==> farthest(point) == wall
        }),
{
    let wall = p.wall_with(state);
    let (place, travel) = on_square_with(f, wall, fraction);
    let second = crate::synthetic::next_state(state);
    let third = crate::synthetic::next_state(second);
    let spread = p.sensor_spread;
    let (u, v) = (
        crate::synthetic::drawn_unit::<real>(second),
        crate::synthetic::drawn_unit::<real>(third),
    );
    let half = real::of_ratio(1, 2);
    let across = exact::product(exact::product(u, spread), half);
    let along = exact::product(v, spread);
    exact::small_counts();
    exact::product_by_constants(p.hallway_width);
    exact::product_of_opposite(1real, p.hallway_width);
    halves_add_up(p.hallway_width);
    halves_add_up(0real - p.hallway_width);
    halves_add_up(exact::product(u, spread));
    exact::product_of_opposite(travel.y, across);
    let point = center.plus(p.offset_with(f, fraction, center, state));
    assert(is_off_by(point, place, travel, across, along));
    exact::draws_lie_in_range(second);
    exact::draws_lie_in_range(third);
    if 0real <= spread {
        share_of_spread(u, spread);
        share_of_spread(v, spread);
    }
    if spread == 0real {
        exact::product_by_constants(u);
        exact::product_by_constants(v);
        exact::product_by_constants(half);
        exact::product_by_constants(travel.x);
        exact::product_by_constants(travel.y);
        if 0real <= wall {
            square_path_lies_on_the_square(f, wall, fraction);
        }
    }
}

/// Whether a point is off a place by a step to the left of the direction of travel and a
/// step along it.
pub open spec fn is_off_by(
    point: Vec3<real>,
    place: Vec3<real>,
    travel: Vec3<real>,
    across: real,
    along: real,
) -> bool {
    &&& point.x == place.x - exact::product(travel.y, across) + exact::product(travel.x, along)
    &&& point.y == place.y + exact::product(travel.x, across) + exact::product(travel.y, along)
}

proof fn share_of_spread(u: real, spread: real)
    requires
        -1real <= u <= 1real,
        0real <= spread,
    ensures
        exact::product(u, spread).magnitude() <= spread,
{
    exact::product_commutes(u, spread);
    exact::product_keeps_order(-1real, u, spread);
    exact::product_keeps_order(u, 1real, spread);
    exact::product_by_constants(spread);
    exact::product_of_opposite(1real, spread);
}

/// Around a circular path the lidar points fill a square: in each of the two directions they
/// are off by the sensor spread times a number drawn from `[-1, 1)`, each its own.
pub proof fn circle_scatter_fills_a_square(
    p: LoopParams<real>,
    f: Functions<real>,
    fraction: real,
    center: Vec3<real>,
    state: u64,
)
    requires
        p.shape == LoopShape::Circle,
    ensures
        ({
            let offset = p.offset_with(f, fraction, center, state);
            let second = crate::synthetic::next_state(state);
            &&& offset.x == exact::product(
                crate::synthetic::drawn_unit::<real>(state),
                p.sensor_spread,
            )
            &&& offset.y == exact::product(
                crate::synthetic::drawn_unit::<real>(second),
                p.sensor_spread,
            )
            &&& offset.z == 0real
            &&& 0real <= p.sensor_spread ==> offset.x.magnitude() <= p.sensor_spread
                && offset.y.magnitude() <= p.sensor_spread
        }),
{
    let second = crate::synthetic::next_state(state);
    exact::draws_lie_in_range(state);
    exact::draws_lie_in_range(second);
    if 0real <= p.sensor_spread {
        share_of_spread(crate::synthetic::drawn_unit::<real>(state), p.sensor_spread);
        share_of_spread(crate::synthetic::drawn_unit::<real>(second), p.sensor_spread);
    }
}

/// A circular path runs on the circle, counterclockwise: the direction of travel is a unit
/// vector at a right angle to the radius, to its left, and the angle grows evenly with the
/// fraction of the lap.
pub proof fn circle_is_walked_evenly(p: LoopParams<real>, f: Functions<real>, fraction: real)
    requires
        p.shape == LoopShape::Circle,
        circles(f),
    ensures
        ({
            let (place, travel) = p.path_with(f, fraction);
            let angle = exact::product(f.full_turn, fraction);
            &&& place.x == exact::product(p.radius, (f.cosine)(angle))
            &&& place.y == exact::product(p.radius, (f.sine)(angle))
            &&& place.z == 0real && travel.z == 0real
            &&& exact::product(place.x, place.x) + exact::product(place.y, place.y)
                == exact::product(p.radius, p.radius)
            &&& exact::product(travel.x, travel.x) + exact::product(travel.y, travel.y) == 1real
            &&& exact::product(place.x, travel.x) + exact::product(place.y, travel.y) == 0real
            &&& exact::product(place.x, travel.y) - exact::product(place.y, travel.x) == p.radius
        }),
{
    let angle = exact::product(f.full_turn, fraction);
    let (s, c, r) = ((f.sine)(angle), (f.cosine)(angle), p.radius);
    assert(exact::product(s, s) + exact::product(c, c) == 1real);
    exact::small_counts();
    let (rc, rs, rr) = (exact::product(r, c), exact::product(r, s), exact::product(r, r));
    exact::product_of_products(r, c, r, c);
    exact::product_of_products(r, s, r, s);
    exact::product_of_sum(rr, exact::product(s, s), exact::product(c, c));
    exact::product_by_constants(rr);
    exact::product_of_opposite(s, 0real - s);
    exact::product_of_opposite(s, s);
    exact::product_of_opposite(s, rc);
    exact::product_of_opposite(s, rs);
    exact::product_regroups(r, c, s);
    exact::product_regroups(r, s, c);
    exact::product_commutes(c, s);
    exact::product_regroups(r, c, c);
    exact::product_regroups(r, s, s);
    exact::product_of_sum(r, exact::product(s, s), exact::product(c, c));
    exact::product_by_constants(r);
}

/// The drift turns the plane counterclockwise about the origin by the progress times the
/// full yaw, and then shifts it along x by the progress times the full shift; heights stay.
/// It is rigid.
pub proof fn drift_turns_and_shifts(
    p: LoopParams<real>,
    f: Functions<real>,
    progress: real,
    v: Vec3<real>,
)
    requires
        circles(f),
        doubles(f),
    ensures
        ({
            let yaw = exact::product(p.drift_yaw, progress);
            let (sine, cosine) = ((f.sine)(yaw), (f.cosine)(yaw));
            let drifted = p.drift_with(f, progress).moved(v);
            &&& exact::rotation::is_unit(p.drift_with(f, progress).rotation)
            &&& drifted.x == exact::product(cosine, v.x) - exact::product(sine, v.y)
                + exact::product(p.drift_shift, progress)
            &&& drifted.y == exact::product(sine, v.x) + exact::product(cosine, v.y)
            &&& drifted.z == v.z
        }),
{
    let yaw = exact::product(p.drift_yaw, progress);
    let half = exact::product(yaw, real::of_ratio(1, 2));
    halves_add_up(yaw);
    exact::small_counts();
    let (s, c) = ((f.sine)(half), (f.cosine)(half));
    assert(exact::product(s, s) + exact::product(c, c) == 1real);
    assert((f.sine)(half + half) == exact::product(2real, exact::product(s, c)));
    exact::rotation::vertical_turn(s, c, v);
}

/// Without progress there is no drift, where the sine of zero is zero and its cosine one.
pub proof fn drift_starts_from_none(p: LoopParams<real>, f: Functions<real>, v: Vec3<real>)
    requires
        (f.sine)(0real) == 0real,
        (f.cosine)(0real) == 1real,
    ensures
        p.drift_with(f, 0real).moved(v) == v,
{
    exact::small_counts();
    exact::product_by_constants(p.drift_yaw);
    exact::product_by_constants(p.drift_shift);
    exact::product_by_constants(real::of_ratio(1, 2));
    exact::rotation::no_turn_turns_nothing(v);
}

/// The last index is not zero, so dividing by it and multiplying undo each other.
proof fn last_index_divides(p: LoopParams<real>, x: real)
    ensures
        0real < p.last_index(),
        exact::product(exact::quotient(x, p.last_index()), p.last_index()) == x,
{
    let last = p.last_index();
    quotient_undone(x, last);
}

proof fn quotient_undone(x: real, d: real)
    requires
        d != 0real,
    ensures
        exact::product(exact::quotient(x, d), d) == x,
        exact::quotient(exact::product(x, d), d) == x,
{
    reveal(exact::product);
    reveal(exact::quotient);
    assert((x / d) * d == x) by (nonlinear_arith)
        requires
            d != 0real,
    ;
    let (y, q) = (x * d, (x * d) / d);
    assert(q * d == y) by (nonlinear_arith)
        requires
            q == y / d,
            d != 0real,
    ;
    assert(q == x) by (nonlinear_arith)
        requires
            q * d == x * d,
            d != 0real,
    ;
}

/// The nodes are spaced evenly: node `i` is seen `i` time steps after the start, `i` of
/// `num_nodes` parts of the lap on, and the last one (of two or more) at full progress. So the
/// lap ends one step short of the seam.
pub proof fn nodes_are_spaced_evenly(p: LoopParams<real>, f: Functions<real>, i: int)
    requires
        0 <= i < p.num_nodes,
    ensures
        ({
            let node = p.closure_with(f).nodes[i];
            let progress = p.node_progress(i);
            &&& p.closure_with(f).nodes.len() == p.num_nodes
            &&& p.closure_with(f).transforms.len() == p.num_nodes
            &&& node.id == i
            &&& node.ts == exact::product(i as real, p.time_step_s)
            &&& exact::product(p.fraction_at(progress), p.num_nodes as real) == i as real
            &&& i == 0 ==> progress == 0real
            &&& i > 0 && i == p.num_nodes - 1 ==> progress == 1real
            &&& node.position == p.drift_with(f, progress).moved(
                p.path_with(f, p.fraction_at(progress)).0,
            )
        }),
{
    last_index_divides(p, i as real);
    quotient_undone(i as real, p.num_nodes as real);
    exact::quotient_of_sum(0real, 0real, p.last_index());
    exact::small_counts();
    assert(real::of_count(i as u64) == i as real);
    assert(real::of_count(p.num_nodes as u64) == p.num_nodes as real);
}

/// The closure puts every node back: its delta sends the drifted anchor to the place on the
/// true path at which the node was, and undoes the node's drift of every other point too.
pub proof fn closure_puts_nodes_back(
    p: LoopParams<real>,
    f: Functions<real>,
    i: int,
    point: Vec3<real>,
)
    requires
        circles(f),
        0 <= i < p.num_nodes,
    ensures
        ({
            let closure = p.closure_with(f);
            let progress = p.node_progress(i);
            &&& closure.transforms[i].moved(closure.nodes[i].position) == p.path_with(
                f,
                p.fraction_at(progress),
            ).0
            &&& closure.transforms[i].moved(p.drift_with(f, progress).moved(point)) == point
            &&& closure.blend_sigma == 0real && closure.blend_time_sigma == 0real
        }),
{
    let progress = p.node_progress(i);
    drift_is_rigid(p, f, progress);
    exact::small_counts();
    exact::rotation::inverse_undoes_the_transform(
        p.drift_with(f, progress),
        p.path_with(f, p.fraction_at(progress)).0,
    );
    exact::rotation::inverse_undoes_the_transform(p.drift_with(f, progress), point);
}

proof fn drift_is_rigid(p: LoopParams<real>, f: Functions<real>, progress: real)
    requires
        circles(f),
    ensures
        exact::rotation::is_unit(p.drift_with(f, progress).rotation),
{
    let half = exact::product(exact::product(p.drift_yaw, progress), real::of_ratio(1, 2));
    let (s, c) = ((f.sine)(half), (f.cosine)(half));
    assert(exact::product(s, s) + exact::product(c, c) == 1real);
    exact::small_counts();
    exact::rotation::vertical_turn(s, c, Vec3::origin());
}

/// A lidar point is drifted as the robot was when it saw it: undoing the drift at the point's
/// own progress gives back a point around the path at the fraction of the lap that belongs to
/// that progress, which grows evenly with it. It is seen at the time that belongs to it too.
pub proof fn lidar_points_are_drifted_by_their_own_progress(
    p: LoopParams<real>,
    f: Functions<real>,
    state: u64,
)
    requires
        circles(f),
        0 < p.num_nodes,
    ensures
        ({
            let progress = crate::synthetic::drawn::<real>(state);
            let fraction = p.fraction_at(progress);
            let center = p.path_with(f, fraction).0;
            &&& p.drift_with(f, progress).undone().moved(p.sample_with(f, state)) == center.plus(
                p.offset_with(f, fraction, center, crate::synthetic::next_state(state)),
            )
            &&& p.time_at(progress) == exact::product(
                exact::product(fraction, p.num_nodes as real),
                p.time_step_s,
            )
            &&& exact::product(fraction, p.num_nodes as real) == exact::product(
                progress,
                if p.num_nodes <= 2 {
                    1real
                } else {
                    p.num_nodes as real - 1real
                },
            )
            &&& 0real <= fraction < 1real
        }),
{
    let progress = crate::synthetic::drawn::<real>(state);
    let fraction = p.fraction_at(progress);
    let center = p.path_with(f, fraction).0;
    let last = p.last_index();
    let n = p.num_nodes as real;
    drift_is_rigid(p, f, progress);
    exact::rotation::inverse_undoes_the_transform(
        p.drift_with(f, progress),
        center.plus(p.offset_with(f, fraction, center, crate::synthetic::next_state(state))),
    );
    quotient_undone(exact::product(progress, last), n);
    assert(real::of_count(p.num_nodes as u64) == n);
    exact::draws_lie_in_range(state);
    assert(0real < last <= n) by {
        exact::small_counts();
    }
    exact::product_is_monotone(progress, 1real, last);
    exact::product_keeps_order(0real, progress, last);
    exact::product_commutes(last, progress);
    exact::product_by_constants(last);
    exact::quotient_keeps_sign(exact::product(progress, last), n);
}

/// A fraction of the lap lies in the window where it is closer to the window's place than
/// the half width, either way round the loop; without a tree there is no window.
pub proof fn window_is_measured_round_the_loop(p: LoopParams<real>, fraction: real)
    requires
        0real <= fraction < 1real,
        0real <= p.window_fraction < 1real,
        p.window_half + p.window_half <= 1real,
    ensures
        p.in_window(fraction) <==> {
            let off = fraction - p.window_fraction;
            p.window_tree_points > 0 && (-p.window_half < off < p.window_half || -p.window_half
                < off - 1real < p.window_half || -p.window_half < off + 1real < p.window_half)
        },
{
    exact::small_counts();
}

/// The robot passes the window at the progress at which it is at the window's fraction of the
/// lap.
pub proof fn robot_passes_the_window(p: LoopParams<real>)
    requires
        0 < p.num_nodes,
    ensures
        p.fraction_at(p.window_progress()) == p.window_fraction,
{
    let n = p.num_nodes as real;
    assert(real::of_count(p.num_nodes as u64) == n);
    last_index_divides(p, exact::product(p.window_fraction, n));
    quotient_undone(p.window_fraction, n);
}

/// The tree stands straight outward of the window, at the tree distance from the path.
pub proof fn tree_stands_outward_of_the_window(p: LoopParams<real>, f: Functions<real>)
    requires
        exact::roots_exist(),
        ({
            let wall = p.path_with(f, p.window_fraction).0;
            real::of_ratio(1, 1_000_000_000) <= (exact::product(wall.x, wall.x) + exact::product(
                wall.y,
                wall.y,
            )).root()
        }),
    ensures
        ({
            let wall = p.path_with(f, p.window_fraction).0;
            let tree = p.tree_with(f);
            let (dx, dy) = (tree.x - wall.x, tree.y - wall.y);
            let distance = p.tree_distance;
            let reach = (exact::product(wall.x, wall.x) + exact::product(wall.y, wall.y)).root();
            &&& tree.z == 0real
            &&& exact::product(dx, dx) + exact::product(dy, dy) == exact::product(
                distance,
                distance,
            )
            &&& exact::product(dx, wall.y) == exact::product(dy, wall.x)
            &&& exact::product(dx, wall.x) + exact::product(dy, wall.y) == exact::product(
                distance,
                reach,
            )
        }),
{
    let wall = p.path_with(f, p.window_fraction).0;
    let (x, y, d) = (wall.x, wall.y, p.tree_distance);
    let square = exact::product(x, x) + exact::product(y, y);
    let reach = square.root();
    exact::square_is_positive(x);
    exact::square_is_positive(y);
    assert(exact::is_root(square, reach));
    exact::quotient_keeps_sign(1real, 1_000_000_000u64 as real);
    exact::small_counts();
    quotient_undone(x, reach);
    quotient_undone(y, reach);
    let (a, b) = (exact::quotient(x, reach), exact::quotient(y, reach));
    let (aa, bb) = (exact::product(a, a), exact::product(b, b));
    let (dd, dr) = (exact::product(d, d), exact::product(d, reach));
    exact::product_of_products(a, reach, a, reach);
    exact::product_of_products(b, reach, b, reach);
    exact::product_commutes(aa + bb, square);
    exact::product_of_sum(square, aa, bb);
    exact::product_commutes(square, aa);
    exact::product_commutes(square, bb);
    assert(exact::product(aa + bb, square) == square);
    exact::square_is_positive(reach);
    exact::product_by_constants(square);
    if aa + bb < 1real {
        exact::product_is_monotone(aa + bb, 1real, square);
    } else if 1real < aa + bb {
        exact::product_is_monotone(1real, aa + bb, square);
    }
    assert(aa + bb == 1real);
    exact::product_of_products(a, d, a, d);
    exact::product_of_products(b, d, b, d);
    exact::product_commutes(aa, dd);
    exact::product_commutes(bb, dd);
    exact::product_of_sum(dd, aa, bb);
    exact::product_by_constants(dd);
    exact::product_of_products(a, d, b, reach);
    exact::product_of_products(b, d, a, reach);
    exact::product_commutes(a, b);
    exact::product_of_products(a, d, a, reach);
    exact::product_of_products(b, d, b, reach);
    exact::product_commutes(aa, dr);
    exact::product_commutes(bb, dr);
    exact::product_of_sum(dr, aa, bb);
    exact::product_by_constants(dr);
}

/// The returns fill the disk of the tree's size around its center, evenly: the squared
/// distance from the center, as a part of the squared size, is a drawn number in `[0, 1)`, and
/// so is the direction, as a part of a full turn.
pub proof fn leaves_fill_a_disk(p: LoopParams<real>, f: Functions<real>, state: u64)
    requires
        exact::roots_exist(),
        circles(f),
    ensures
        ({
            let leaf = p.leaf_with(f, state);
            let tree = p.tree_with(f);
            let (dx, dy) = (leaf.x - tree.x, leaf.y - tree.y);
            let size = p.tree_size;
            let part = crate::synthetic::drawn::<real>(crate::synthetic::next_state(state));
            let angle = exact::product(crate::synthetic::drawn::<real>(state), f.full_turn);
            &&& leaf.z == 0real
            &&& exact::product(dx, (f.sine)(angle)) == exact::product(dy, (f.cosine)(angle))
            &&& 0real <= size ==> 0real <= exact::product(dx, (f.cosine)(angle)) + exact::product(
                dy,
                (f.sine)(angle),
            )
            &&& exact::product(dx, dx) + exact::product(dy, dy) == exact::product(
                exact::product(size, size),
                part,
            )
            &&& 0real <= part < 1real
        }),
{
    let second = crate::synthetic::next_state(state);
    let part = crate::synthetic::drawn::<real>(second);
    let angle = exact::product(crate::synthetic::drawn::<real>(state), f.full_turn);
    let (s, c) = ((f.sine)(angle), (f.cosine)(angle));
    exact::draws_lie_in_range(second);
    exact::small_counts();
    let root = part.root();
    assert(exact::is_root(part, root));
    assert(exact::product(s, s) + exact::product(c, c) == 1real);
    let (size, reach) = (p.tree_size, exact::product(p.tree_size, root));
    let square = exact::product(reach, reach);
    exact::product_of_products(reach, c, reach, c);
    exact::product_of_products(reach, s, reach, s);
    exact::product_of_sum(square, exact::product(s, s), exact::product(c, c));
    exact::product_by_constants(square);
    exact::product_of_products(size, root, size, root);
    exact::product_regroups(reach, c, s);
    exact::product_regroups(reach, s, c);
    exact::product_commutes(c, s);
    exact::product_regroups(reach, c, c);
    exact::product_regroups(reach, s, s);
    exact::product_of_sum(reach, exact::product(s, s), exact::product(c, c));
    exact::product_by_constants(reach);
    if 0real <= size {
        exact::product_keeps_order(0real, root, size);
        exact::product_by_constants(size);
    }
}

/// A drawn number is made of the top 53 bits of the generator's output, as a part of `2^53`;
/// its symmetric form covers `[-1, 1)` evenly.
pub proof fn draws_are_even(state: u64)
    ensures
        exact::product(
            crate::synthetic::drawn::<real>(state),
            0x20_0000_0000_0000u64 as real,
        ) == (crate::synthetic::output_bits(crate::synthetic::next_state(state)) >> 11) as real,
        crate::synthetic::drawn_unit::<real>(state) + 1real == 2real
            * crate::synthetic::drawn::<real>(state),
{
    let top = crate::synthetic::output_bits(crate::synthetic::next_state(state)) >> 11;
    quotient_undone(top as real, 0x20_0000_0000_0000u64 as real);
    exact::small_counts();
    exact::product_commutes(crate::synthetic::drawn::<real>(state), 2real);
    exact::product_by_constants(crate::synthetic::drawn::<real>(state));
}

/// The default loop: a circle of radius ten that 48 nodes lap, one time unit apart, with 60
/// lidar points for each; a hallway would be six wide. The drift grows to a yaw of 1.1 and a
/// shift of 2.5, the sensor spreads 1.6, and there is no window.
pub proof fn default_loop()
    ensures
        ({
            let p = LoopParams::<real>::standard();
            &&& p.shape == LoopShape::Circle
            &&& p.num_nodes == 48 && p.points_per_node == 60
            &&& p.radius == 10real && p.hallway_width == 6real
            &&& 10real * p.drift_yaw == 11real && 2real * p.drift_shift == 5real
            &&& 5real * p.sensor_spread == 8real && p.time_step_s == 1real
            &&& p.seed == 1 && p.window_tree_points == 0
        }),
{
    ratio_is(11, 10);
    ratio_is(5, 2);
    ratio_is(8, 5);
}

/// The loops of the demo: shape one is a hallway, six wide around a square of half side ten,
/// with 120 lidar points for each of 48 nodes, a drift that grows to a yaw of 1.1 and a shift
/// of four, and a tree of 500 returns, 3.5 in size, 16 outside of a window at 12 percent of the
/// lap, 2 percent to either side. Every other shape is the default circle with a spread of
/// eight and 90 points for each node. The seed is handed on.
pub proof fn demo_loops(seed: u32, shape: u32)
    ensures
        ({
            let p = crate::demo::demo_knobs::<real>(seed, shape);
            let plain = LoopParams::<real>::standard();
            &&& p.seed == seed && p.num_nodes == 48 && p.radius == 10real
            &&& p.time_step_s == 1real && 10real * p.drift_yaw == 11real
            &&& shape == 1 ==> {
                &&& p.shape == LoopShape::Square && p.points_per_node == 120
                &&& p.hallway_width == 6real && 2real * p.sensor_spread == 3real
                &&& p.drift_shift == 4real && p.window_tree_points == 500
                &&& 25real * p.window_fraction == 3real && 50real * p.window_half == 1real
                &&& p.tree_distance == 16real && 2real * p.tree_size == 7real
            }
            &&& shape != 1 ==> {
                &&& p.shape == LoopShape::Circle && p.points_per_node == 90
                &&& p.sensor_spread == 8real && 2real * p.drift_shift == 5real
                &&& p.window_tree_points == 0
            }
        }),
{
    ratio_is(3, 2);
    ratio_is(11, 10);
    ratio_is(3, 25);
    ratio_is(1, 50);
    ratio_is(7, 2);
    ratio_is(5, 2);
}

proof fn ratio_is(n: u64, d: u64)
    requires
        0 < d,
    ensures
        exact::product(real::of_ratio(n, d), d as real) == n as real,
        real::of_ratio(n, d) * (d as real) == n as real,
{
    quotient_undone(n as real, d as real);
    reveal(exact::product);
}

} // verus!
