//! The sweep from the open loop to the closed one, to the last digit.
//!
//! The open end asks for a number type in which zero is plain; `open_loop` states it for
//! number types that round and that have two zeros.

use crate::demo::DemoState;
use crate::graph::{Correction, Transform};
use crate::math::{Quat, Vec3};
use crate::point_cloud::Cloud;
use crate::scalar::{Arith, Scalar};
use vstd::prelude::*;

verus! {

/// Whether zero adds nothing and takes everything: the sum with it is the other term, and
/// the product with it is zero.
pub open spec fn zero_is_plain<A: Arith>() -> bool {
    &&& forall|a: A| #[trigger] a.times(A::of_count(0)) == A::of_count(0)
    &&& forall|a: A| #[trigger] A::of_count(0).times(a) == A::of_count(0)
    &&& forall|a: A| #[trigger] a.plus(A::of_count(0)) == a
    &&& forall|a: A| #[trigger] A::of_count(0).plus(a) == a
    &&& forall|a: A| #[trigger] a.minus(A::of_count(0)) == a
}

/// Whether the product with one is the other factor.
pub open spec fn one_is_plain<A: Arith>() -> bool {
    forall|a: A| #[trigger] a.times(A::of_count(1)) == a
}

/// Whether a stored coordinate that is read and stored again is the same.
pub open spec fn storage_is_exact<S: Scalar>() -> bool {
    forall|stored: S::Narrow| (#[trigger] S::widened(stored)).narrowed() == stored
}

/// Whether a quaternion has no vector part, so that it turns nothing.
pub open spec fn is_upright<A: Arith>(q: Quat<A>) -> bool {
    &&& q.x == A::of_count(0)
    &&& q.y == A::of_count(0)
    &&& q.z == A::of_count(0)
}

proof fn upright_turns_nothing<A: Arith>(q: Quat<A>, v: Vec3<A>)
    requires
        zero_is_plain::<A>(),
        is_upright(q),
    ensures
        q.turned(v) == v,
{
    let zero = A::of_count(0);
    let none = Vec3 { x: zero, y: zero, z: zero };
    assert(q.cross(v) == none);
    assert(q.cross(none) == none);
    assert(A::of_count(2).times(zero) == zero);
    assert(q.w.times(zero) == zero);
}

proof fn zeros_add_up<A: Arith>(terms: Seq<A>)
    requires
        zero_is_plain::<A>(),
        forall|i: int| 0 <= i < terms.len() ==> #[trigger] terms[i] == A::of_count(0),
    ensures
        crate::sequence::total(terms) == A::of_count(0),
    decreases terms.len(),
{
    if terms.len() > 0 {
        let front = terms.drop_last();
        assert forall|i: int| 0 <= i < front.len() implies #[trigger] front[i]
            == A::of_count(0) by {
            assert(front[i] == terms[i]);
        }
        zeros_add_up(front);
        assert(terms.last() == A::of_count(0));
    }
}

proof fn upright_deltas_stay_upright<A: Arith>(
    rotations: Seq<Quat<A>>,
    translations: Seq<Vec3<A>>,
    spreads: Seq<A>,
    weights: Seq<A>,
)
    requires
        zero_is_plain::<A>(),
        0 < weights.len() <= rotations.len(),
        weights.len() <= translations.len(),
        spreads.len() == weights.len(),
        forall|i: int| 0 <= i < weights.len() ==> is_upright(#[trigger] rotations[i]),
        forall|i: int|
            0 <= i < weights.len() ==> #[trigger] translations[i] == Vec3::<A>::origin(),
    ensures
        ({
            let (rotation, translation) = crate::warp::mixed(
                rotations,
                translations,
                spreads,
                weights,
            );
            is_upright(rotation) && translation == Vec3::<A>::origin()
        }),
{
    let n = weights.len();
    crate::sequence::highest_in_range(weights);
    crate::sequence::lowest_in_range(spreads);
    let near = crate::warp::closest(spreads, weights);
    assert(is_upright(rotations[near]) && translations[near] == Vec3::<A>::origin());
    let turn_x = Seq::new(
        n,
        |i: int| crate::warp::signed_share(rotations, weights, i).times(rotations[i].x),
    );
    let turn_y = Seq::new(
        n,
        |i: int| crate::warp::signed_share(rotations, weights, i).times(rotations[i].y),
    );
    let turn_z = Seq::new(
        n,
        |i: int| crate::warp::signed_share(rotations, weights, i).times(rotations[i].z),
    );
    let shift_x = Seq::new(n, |i: int| crate::warp::share(weights, i).times(translations[i].x));
    let shift_y = Seq::new(n, |i: int| crate::warp::share(weights, i).times(translations[i].y));
    let shift_z = Seq::new(n, |i: int| crate::warp::share(weights, i).times(translations[i].z));
    assert forall|i: int| 0 <= i < n implies #[trigger] turn_x[i] == A::of_count(0) && turn_y[i]
        == A::of_count(0) && turn_z[i] == A::of_count(0) by {
        assert(is_upright(rotations[i]));
    }
    assert forall|i: int| 0 <= i < n implies #[trigger] shift_x[i] == A::of_count(0) && shift_y[i]
        == A::of_count(0) && shift_z[i] == A::of_count(0) by {
        assert(translations[i] == Vec3::<A>::origin());
    }
    assert forall|i: int| 0 <= i < n implies #[trigger] turn_y[i] == A::of_count(0) by {
        assert(turn_x[i] == A::of_count(0));
    }
    assert forall|i: int| 0 <= i < n implies #[trigger] turn_z[i] == A::of_count(0) by {
        assert(turn_x[i] == A::of_count(0));
    }
    assert forall|i: int| 0 <= i < n implies #[trigger] shift_y[i] == A::of_count(0) by {
        assert(shift_x[i] == A::of_count(0));
    }
    assert forall|i: int| 0 <= i < n implies #[trigger] shift_z[i] == A::of_count(0) by {
        assert(shift_x[i] == A::of_count(0));
    }
    zeros_add_up(turn_x);
    zeros_add_up(turn_y);
    zeros_add_up(turn_z);
    zeros_add_up(shift_x);
    zeros_add_up(shift_y);
    zeros_add_up(shift_z);
    assert(is_upright(crate::warp::mixed_rotation(rotations, weights)));
}

/// A delta scaled by zero does not shift and does not turn.
proof fn scaled_to_zero_is_upright<A: Arith>(delta: Transform<A>)
    requires
        zero_is_plain::<A>(),
    ensures
        is_upright(delta.partly(A::of_count(0)).rotation.unit_or_no_turn()),
        delta.partly(A::of_count(0)).translation == Vec3::<A>::origin(),
{
    let none = Quat::<A>::no_turn();
    let zero = A::of_count(0);
    let target = delta.rotation.aligned_with(none);
    let blended = Quat {
        x: none.x.plus(target.x.minus(none.x).times(zero)),
        y: none.y.plus(target.y.minus(none.y).times(zero)),
        z: none.z.plus(target.z.minus(none.z).times(zero)),
        w: none.w.plus(target.w.minus(none.w).times(zero)),
    };
    assert(is_upright(blended));
    assert(is_upright(blended.unit_or_no_turn()));
    assert(delta.partly(zero).rotation == blended.unit_or_no_turn());
}

/// Whether going all the way from `start` to `end` arrives at `end`.
pub open spec fn arrives<A: Arith>(start: A, end: A) -> bool {
    start.plus(end.minus(start).times(A::of_count(1))) == end
}

/// Whether going no step from `start` to `end` stays at `start`.
pub open spec fn stays<A: Arith>(start: A, end: A) -> bool {
    start.plus(end.minus(start).times(A::of_count(0))) == start
}

/// Interpolation between rotations meets its ends: no way along it is the start, all the
/// way the end on the side of the start, each normalized. It is so in every number type,
/// where the components stay and arrive.
pub proof fn interpolation_meets_its_ends<A: Arith>(start: Quat<A>, end: Quat<A>)
    ensures
        ({
            let target = end.aligned_with(start);
            &&& stays(start.x, target.x) && stays(start.y, target.y) && stays(start.z, target.z)
                && stays(start.w, target.w) ==> start.toward(end, A::of_count(0))
                == start.unit_or_no_turn()
            &&& arrives(start.x, target.x) && arrives(start.y, target.y) && arrives(
                start.z,
                target.z,
            ) && arrives(start.w, target.w) ==> start.toward(end, A::of_count(1))
                == target.unit_or_no_turn()
        }),
{
}

/// Interpolation takes the short path whichever sign the end has, in every number type,
/// where one of the two signs lies on the far side and negating twice changes nothing.
pub proof fn interpolation_ignores_the_sign_of_the_end<A: Arith>(
    start: Quat<A>,
    end: Quat<A>,
    amount: A,
)
    requires
        end.opposite().opposite() == end,
        start.inner(end).below(A::of_count(0)) != start.inner(end.opposite()).below(A::of_count(0)),
    ensures
        start.toward(end.opposite(), amount) == start.toward(end, amount),
{
}

/// Whether a delta is what it becomes when it is scaled by one: its rotation is normal and
/// lies on the side of the identity, and no component is lost on the way there.
pub open spec fn is_reached<A: Arith>(delta: Transform<A>) -> bool {
    let (none, zero) = (Quat::<A>::no_turn(), A::of_count(0));
    let (q, v) = (delta.rotation, delta.translation);
    &&& q.unit_or_no_turn() == q
    &&& !none.inner(q).below(zero)
    &&& arrives(zero, q.x) && arrives(zero, q.y) && arrives(zero, q.z)
    &&& arrives(A::of_count(1), q.w)
    &&& arrives(zero, v.x) && arrives(zero, v.y) && arrives(zero, v.z)
}

/// Where zero and one are plain, every number is reached from zero.
pub proof fn plain_numbers_arrive_from_zero<A: Arith>(end: A)
    requires
        zero_is_plain::<A>(),
        one_is_plain::<A>(),
    ensures
        arrives(A::of_count(0), end),
{
}

impl<S: Scalar> Correction<S> {
    /// A correction scaled to zero is the open loop: every cloud stays as it is, to the
    /// last digit.
    pub proof fn open_loop_leaves_every_cloud(self, cloud: Cloud<S>)
        requires
            zero_is_plain::<S>(),
            storage_is_exact::<S>(),
            self.nodes.len() <= usize::MAX,
            self.aligned(),
        ensures
            self.partly(S::of_count(0)).blend().warped_cloud(cloud) == cloud,
    {
        let open = self.partly(S::of_count(0));
        let blend = open.blend();
        let order = open.time_order();
        open.blend_is_sorted_by_time();
        let warped = blend.warped_all(cloud.points, cloud.timestamps);
        if self.nodes.len() > 0 {
            assert forall|i: int| 0 <= i < self.nodes.len() implies is_upright(
                #[trigger] blend.rotations[i],
            ) by {
                scaled_to_zero_is_upright(self.transforms[order[i] as int]);
            }
            assert forall|i: int| 0 <= i < self.nodes.len() implies #[trigger] blend.translations[i]
                == Vec3::<S>::origin() by {
                scaled_to_zero_is_upright(self.transforms[order[i] as int]);
            }
            assert forall|i: int| 0 <= i < cloud.points.len() implies #[trigger] warped[i]
                == cloud.points[i] by {
                let point = cloud.points[i];
                let time = crate::warp::time_of(cloud.timestamps, i);
                let position = crate::field::unstored::<S>(point);
                upright_deltas_stay_upright(
                    blend.rotations,
                    blend.translations,
                    blend.spreads(position, time),
                    blend.weights(position, time),
                );
                assert(is_upright(blend.rotations[0]) && blend.translations[0]
                    == Vec3::<S>::origin());
                let (rotation, translation) = blend.at(position, time);
                upright_turns_nothing(rotation, position);
                assert(warped[i]@ =~= point@);
            }
        }
        assert(warped =~= cloud.points);
    }

    /// A correction scaled to one is itself, to the last digit, so that it warps every
    /// cloud as the correction does: where its rotations are normal and lie on the side of
    /// the identity, and its components can be reached from those of the identity.
    pub proof fn fully_scaled_correction_is_itself(self)
        requires
            forall|i: int|
                0 <= i < self.transforms.len() ==> is_reached(#[trigger] self.transforms[i]),
        ensures
            self.partly(S::of_count(1)) == self,
    {
        let one = S::of_count(1);
        let scaled = self.partly(one);
        assert forall|i: int| 0 <= i < self.transforms.len() implies #[trigger] scaled.transforms[i]
            == self.transforms[i] by {
            let delta = self.transforms[i];
            assert(Quat::<S>::no_turn().toward(delta.rotation, one) == delta.rotation);
            assert(Vec3::<S>::origin().toward(delta.translation, one) == delta.translation);
        }
        assert(scaled.transforms =~= self.transforms);
    }
}

impl<S: Scalar> DemoState<S> {
    /// With the closure slider at zero the drawn points are those of the scene, whatever
    /// the node count and whatever was drawn before.
    pub proof fn open_slider_shows_the_scene(self, alpha: S::Narrow, node_count: u32)
        requires
            zero_is_plain::<S>(),
            storage_is_exact::<S>(),
            S::widened(alpha) == S::of_count(0),
            self.shown().correction.nodes.len() <= usize::MAX,
            self.shown().correction.aligned(),
            self.draws(alpha, node_count),
        ensures
            self.drawn_points() == crate::demo::interleaved(self.shown().cloud.points),
    {
        let correction = self.shown().correction;
        correction.thinning_meets_its_target(node_count as nat);
        correction.thinned_to(node_count as nat).open_loop_leaves_every_cloud(self.shown().cloud);
    }
}

} // verus!
