//! The open loop under rounding: a correction scaled to zero leaves every point where it
//! is, as the number type compares, as long as no value on the way is infinite or no
//! number at all.

use crate::demo::DemoState;
use crate::graph::{Blend, Correction, Transform};
use crate::math::{Quat, Vec3};
use crate::point_cloud::Cloud;
use crate::scalar::{Arith, Scalar};
use vstd::prelude::*;

verus! {

/// Whether a number compares as zero.
pub open spec fn is_nil<A: Arith>(z: A) -> bool {
    z.same(A::of_count(0))
}

/// Whether the product of a number with zero compares as zero. Among binary
/// floating-point numbers these are the finite ones.
#[verifier::opaque]
pub open spec fn is_ordinary<A: Arith>(a: A) -> bool {
    is_nil(a.times(A::of_count(0)))
}

/// What a number type keeps of zero and one when it rounds and when it tells two zeros
/// apart by their sign. Binary floating-point numbers have it.
#[verifier::opaque]
pub open spec fn zero_vanishes<A: Arith>() -> bool {
    let (zero, one, two) = (A::of_count(0), A::of_count(1), A::of_count(2));
    &&& zero.same(zero) && one.same(one)
    &&& is_ordinary(zero) && is_ordinary(one) && is_ordinary(two)
    &&& forall|a: A, b: A| #[trigger] a.same(b) ==> b.same(a)
    &&& forall|a: A, b: A, c: A| #[trigger] a.same(b) && #[trigger] b.same(c) ==> a.same(c)
    &&& forall|a: A, b: A| #[trigger] a.same(b) && is_ordinary(b) ==> is_ordinary(a)
    &&& forall|a: A| is_ordinary(a) ==> is_ordinary(#[trigger] a.negated())
    &&& forall|a: A, z: A| is_ordinary(a) && is_nil(z) ==> is_nil(#[trigger] a.times(z))
    &&& forall|a: A, z: A| is_ordinary(a) && is_nil(z) ==> is_nil(#[trigger] z.times(a))
    &&& forall|a: A, z: A| is_ordinary(a) && is_nil(z) ==> (#[trigger] a.plus(z)).same(a)
    &&& forall|a: A, z: A| is_ordinary(a) && is_nil(z) ==> (#[trigger] z.plus(a)).same(a)
    &&& forall|y: A, z: A| is_nil(y) && is_nil(z) ==> is_nil(#[trigger] y.minus(z))
    &&& forall|a: A, b: A| a.same(one) && b.same(one) ==> (#[trigger] a.times(b)).same(one)
    &&& forall|a: A| a.same(one) ==> (#[trigger] one.over(a)).same(one)
    &&& forall|a: A| a.same(one) ==> (#[trigger] a.root()).same(one)
}

/// Whether storing a number that compares as a stored one gives one that compares as it.
pub open spec fn storage_keeps_places<S: Scalar>() -> bool {
    forall|a: S, stored: S::Narrow|
        #[trigger] a.same(S::widened(stored)) ==> S::widened(a.narrowed()).same(
            S::widened(stored),
        )
}

/// Whether two points compare as one in every coordinate.
pub open spec fn same_place<S: Scalar>(p: [S::Narrow; 3], q: [S::Narrow; 3]) -> bool {
    &&& S::widened(p[0]).same(S::widened(q[0]))
    &&& S::widened(p[1]).same(S::widened(q[1]))
    &&& S::widened(p[2]).same(S::widened(q[2]))
}

/// Whether a translation compares as none.
pub open spec fn is_nil_shift<A: Arith>(v: Vec3<A>) -> bool {
    is_nil(v.x) && is_nil(v.y) && is_nil(v.z)
}

/// Whether every coordinate is ordinary.
pub open spec fn is_ordinary_point<A: Arith>(v: Vec3<A>) -> bool {
    is_ordinary(v.x) && is_ordinary(v.y) && is_ordinary(v.z)
}

/// Whether the vector part of a quaternion compares as zero and the rest is ordinary.
pub open spec fn is_nil_turn<A: Arith>(q: Quat<A>) -> bool {
    is_nil(q.x) && is_nil(q.y) && is_nil(q.z) && is_ordinary(q.w)
}

/// Whether a quaternion compares as the identity.
pub open spec fn is_nearly_upright<A: Arith>(q: Quat<A>) -> bool {
    is_nil(q.x) && is_nil(q.y) && is_nil(q.z) && q.w.same(A::of_count(1))
}

/// Whether the differences between a delta and none, which scaling multiplies, are
/// ordinary.
pub open spec fn scales_ordinarily<A: Arith>(delta: Transform<A>) -> bool {
    let none = Quat::<A>::no_turn();
    let target = delta.rotation.aligned_with(none);
    &&& is_ordinary(target.x.minus(none.x))
    &&& is_ordinary(target.y.minus(none.y))
    &&& is_ordinary(target.z.minus(none.z))
    &&& is_ordinary(target.w.minus(none.w))
    &&& is_ordinary(delta.translation.x.minus(A::of_count(0)))
    &&& is_ordinary(delta.translation.y.minus(A::of_count(0)))
    &&& is_ordinary(delta.translation.z.minus(A::of_count(0)))
}

/// Whether blending under some weights meets ordinary values only: the shares, and what
/// the blended rotation is normalized with.
pub open spec fn mixes_ordinarily<A: Arith>(rotations: Seq<Quat<A>>, weights: Seq<A>) -> bool {
    let mixed = crate::warp::mixed_rotation(rotations, weights);
    let norm = mixed.inner(mixed).root();
    let factor = A::of_count(1).over(norm);
    &&& forall|i: int|
        0 <= i < weights.len() ==> is_ordinary(#[trigger] crate::warp::share(weights, i))
    &&& norm.same(A::of_count(0)) || is_ordinary(factor) && is_ordinary(mixed.w.times(factor))
}

proof fn constants_are_ordinary<A: Arith>()
    requires
        zero_vanishes::<A>(),
    ensures
        is_nil(A::of_count(0)),
        A::of_count(1).same(A::of_count(1)),
        is_ordinary(A::of_count(1)),
        is_ordinary(A::of_count(2)),
{
    reveal(zero_vanishes);
}

/// What compares as one is ordinary, and so are its root, its inverse and its products.
proof fn ones_stay_one<A: Arith>(a: A, b: A)
    requires
        zero_vanishes::<A>(),
        a.same(A::of_count(1)),
        b.same(A::of_count(1)),
    ensures
        is_ordinary(a),
        a.root().same(A::of_count(1)),
        a.times(b).same(A::of_count(1)),
        A::of_count(1).over(a).same(A::of_count(1)),
{
    reveal(zero_vanishes);
}

proof fn sign_keeps_ordinary<A: Arith>(a: A)
    requires
        zero_vanishes::<A>(),
        is_ordinary(a),
    ensures
        is_ordinary(a.negated()),
{
    reveal(zero_vanishes);
}

proof fn nil_is_ordinary<A: Arith>(z: A)
    requires
        zero_vanishes::<A>(),
        is_nil(z),
    ensures
        is_ordinary(z),
{
    reveal(zero_vanishes);
}

proof fn nil_sum<A: Arith>(y: A, z: A)
    requires
        zero_vanishes::<A>(),
        is_nil(y),
        is_nil(z),
    ensures
        is_nil(y.plus(z)),
        is_nil(y.minus(z)),
{
    reveal(zero_vanishes);
    nil_is_ordinary(y);
    assert(y.plus(z).same(y));
}

proof fn nil_product<A: Arith>(a: A, z: A)
    requires
        zero_vanishes::<A>(),
        is_ordinary(a),
        is_nil(z),
    ensures
        is_nil(a.times(z)),
        is_nil(z.times(a)),
{
    reveal(zero_vanishes);
}

/// Adding what compares as zero to what compares as `a` gives what compares as `a`.
proof fn nil_changes_nothing<A: Arith>(b: A, a: A, z: A)
    requires
        zero_vanishes::<A>(),
        is_ordinary(a),
        b.same(a),
        is_nil(z),
    ensures
        b.plus(z).same(a),
        z.plus(b).same(a),
{
    reveal(zero_vanishes);
    assert(is_ordinary(b));
    assert(b.plus(z).same(b));
    assert(z.plus(b).same(b));
}

proof fn nils_add_up<A: Arith>(terms: Seq<A>)
    requires
        zero_vanishes::<A>(),
        forall|i: int| 0 <= i < terms.len() ==> is_nil(#[trigger] terms[i]),
    ensures
        is_nil(crate::sequence::total(terms)),
    decreases terms.len(),
{
    if terms.len() == 0 {
        reveal(zero_vanishes);
    } else {
        let front = terms.drop_last();
        assert forall|i: int| 0 <= i < front.len() implies is_nil(#[trigger] front[i]) by {
            assert(front[i] == terms[i]);
        }
        nils_add_up(front);
        nil_sum(crate::sequence::total(front), terms.last());
    }
}

/// What compares as the identity still does so when it is normalized.
proof fn normalizing_keeps_the_identity<A: Arith>(q: Quat<A>)
    requires
        zero_vanishes::<A>(),
        is_nearly_upright(q),
    ensures
        is_nearly_upright(q.unit_or_no_turn()),
{
    let one = A::of_count(1);
    let (xx, yy, zz, ww) = (q.x.times(q.x), q.y.times(q.y), q.z.times(q.z), q.w.times(q.w));
    nil_is_ordinary(q.x);
    nil_is_ordinary(q.y);
    nil_is_ordinary(q.z);
    nil_product(q.x, q.x);
    nil_product(q.y, q.y);
    nil_product(q.z, q.z);
    nil_sum(xx, yy);
    nil_sum(xx.plus(yy), zz);
    constants_are_ordinary::<A>();
    ones_stay_one(q.w, q.w);
    nil_changes_nothing(ww, one, xx.plus(yy).plus(zz));
    let norm = q.inner(q).root();
    let factor = one.over(norm);
    ones_stay_one(q.inner(q), one);
    ones_stay_one(norm, one);
    ones_stay_one(factor, one);
    ones_stay_one(q.w, factor);
    nil_product(factor, q.x);
    nil_product(factor, q.y);
    nil_product(factor, q.z);
}

/// A delta scaled by zero compares as one that moves nothing.
proof fn scaled_to_zero_is_nearly_upright<A: Arith>(delta: Transform<A>)
    requires
        zero_vanishes::<A>(),
        scales_ordinarily(delta),
    ensures
        is_nearly_upright(delta.partly(A::of_count(0)).rotation.unit_or_no_turn()),
        is_nil_shift(delta.partly(A::of_count(0)).translation),
{
    let none = Quat::<A>::no_turn();
    let (zero, one) = (A::of_count(0), A::of_count(1));
    let target = delta.rotation.aligned_with(none);
    let shift = delta.translation;
    constants_are_ordinary::<A>();
    nil_product(target.x.minus(none.x), zero);
    nil_product(target.y.minus(none.y), zero);
    nil_product(target.z.minus(none.z), zero);
    nil_product(target.w.minus(none.w), zero);
    nil_product(shift.x.minus(zero), zero);
    nil_product(shift.y.minus(zero), zero);
    nil_product(shift.z.minus(zero), zero);
    nil_sum(zero, target.x.minus(none.x).times(zero));
    nil_sum(zero, target.y.minus(none.y).times(zero));
    nil_sum(zero, target.z.minus(none.z).times(zero));
    nil_sum(zero, shift.x.minus(zero).times(zero));
    nil_sum(zero, shift.y.minus(zero).times(zero));
    nil_sum(zero, shift.z.minus(zero).times(zero));
    nil_changes_nothing(one, one, target.w.minus(none.w).times(zero));
    let blended = Quat {
        x: none.x.plus(target.x.minus(none.x).times(zero)),
        y: none.y.plus(target.y.minus(none.y).times(zero)),
        z: none.z.plus(target.z.minus(none.z).times(zero)),
        w: none.w.plus(target.w.minus(none.w).times(zero)),
    };
    assert(delta.partly(zero).rotation == blended.unit_or_no_turn());
    normalizing_keeps_the_identity(blended);
    normalizing_keeps_the_identity(blended.unit_or_no_turn());
}

/// What turns and shifts by what compares as nothing moves a point to where it is.
proof fn nil_turn_moves_nothing<A: Arith>(q: Quat<A>, shift: Vec3<A>, v: Vec3<A>)
    requires
        zero_vanishes::<A>(),
        is_nil_turn(q),
        is_nil_shift(shift),
        is_ordinary_point(v),
        v.x.same(v.x) && v.y.same(v.y) && v.z.same(v.z),
    ensures
        ({
            let moved = q.turned(v).plus(shift);
            moved.x.same(v.x) && moved.y.same(v.y) && moved.z.same(v.z)
        }),
{
    let two = A::of_count(2);
    constants_are_ordinary::<A>();
    let c = q.cross(v);
    nil_cross(q, v);
    let t = Vec3 { x: two.times(c.x), y: two.times(c.y), z: two.times(c.z) };
    nil_product(two, c.x);
    nil_product(two, c.y);
    nil_product(two, c.z);
    nil_is_ordinary(t.x);
    nil_is_ordinary(t.y);
    nil_is_ordinary(t.z);
    let ct = q.cross(t);
    nil_cross(q, t);
    nil_product(q.w, t.x);
    nil_product(q.w, t.y);
    nil_product(q.w, t.z);
    nil_changes_nothing(v.x, v.x, q.w.times(t.x));
    nil_changes_nothing(v.y, v.y, q.w.times(t.y));
    nil_changes_nothing(v.z, v.z, q.w.times(t.z));
    nil_changes_nothing(v.x.plus(q.w.times(t.x)), v.x, ct.x);
    nil_changes_nothing(v.y.plus(q.w.times(t.y)), v.y, ct.y);
    nil_changes_nothing(v.z.plus(q.w.times(t.z)), v.z, ct.z);
    let turned = q.turned(v);
    nil_changes_nothing(turned.x, v.x, shift.x);
    nil_changes_nothing(turned.y, v.y, shift.y);
    nil_changes_nothing(turned.z, v.z, shift.z);
}

proof fn nil_cross<A: Arith>(q: Quat<A>, v: Vec3<A>)
    requires
        zero_vanishes::<A>(),
        is_nil(q.x) && is_nil(q.y) && is_nil(q.z),
        is_ordinary_point(v),
    ensures
        is_nil_shift(q.cross(v)),
{
    nil_product(v.x, q.y);
    nil_product(v.x, q.z);
    nil_product(v.y, q.x);
    nil_product(v.y, q.z);
    nil_product(v.z, q.x);
    nil_product(v.z, q.y);
    nil_sum(q.y.times(v.z), q.z.times(v.y));
    nil_sum(q.z.times(v.x), q.x.times(v.z));
    nil_sum(q.x.times(v.y), q.y.times(v.x));
}

/// Blending deltas that compare as the identity gives one that moves nothing.
proof fn nil_deltas_blend_to_nil<A: Arith>(
    rotations: Seq<Quat<A>>,
    translations: Seq<Vec3<A>>,
    spreads: Seq<A>,
    weights: Seq<A>,
)
    requires
        zero_vanishes::<A>(),
        0 < weights.len() <= rotations.len(),
        weights.len() <= translations.len(),
        spreads.len() == weights.len(),
        forall|i: int| 0 <= i < weights.len() ==> is_nearly_upright(#[trigger] rotations[i]),
        forall|i: int| 0 <= i < weights.len() ==> is_nil_shift(#[trigger] translations[i]),
        A::of_ratio(1, 1_000_000_000_000).below(crate::sequence::total(weights))
            ==> mixes_ordinarily(rotations, weights),
    ensures
        ({
            let (rotation, translation) = crate::warp::mixed(
                rotations,
                translations,
                spreads,
                weights,
            );
            is_nil_turn(rotation) && is_nil_shift(translation)
        }),
{
    let n = weights.len();
    crate::sequence::highest_in_range(weights);
    crate::sequence::lowest_in_range(spreads);
    let near = crate::warp::closest(spreads, weights);
    assert(is_nearly_upright(rotations[near]) && is_nil_shift(translations[near]));
    constants_are_ordinary::<A>();
    ones_stay_one(rotations[near].w, rotations[near].w);
    if A::of_ratio(1, 1_000_000_000_000).below(crate::sequence::total(weights)) {
        let xs = Seq::new(
            n,
            |i: int| crate::warp::signed_share(rotations, weights, i).times(rotations[i].x),
        );
        let ys = Seq::new(
            n,
            |i: int| crate::warp::signed_share(rotations, weights, i).times(rotations[i].y),
        );
        let zs = Seq::new(
            n,
            |i: int| crate::warp::signed_share(rotations, weights, i).times(rotations[i].z),
        );
        let us = Seq::new(n, |i: int| crate::warp::share(weights, i).times(translations[i].x));
        let vs = Seq::new(n, |i: int| crate::warp::share(weights, i).times(translations[i].y));
        let ts = Seq::new(n, |i: int| crate::warp::share(weights, i).times(translations[i].z));
        assert forall|i: int| 0 <= i < n implies is_nil(#[trigger] xs[i]) && is_nil(ys[i])
            && is_nil(zs[i]) && is_nil(us[i]) && is_nil(vs[i]) && is_nil(ts[i]) by {
            let share = crate::warp::share(weights, i);
            let signed = crate::warp::signed_share(rotations, weights, i);
            assert(is_nearly_upright(rotations[i]) && is_nil_shift(translations[i]));
            sign_keeps_ordinary(share);
            nil_product(signed, rotations[i].x);
            nil_product(signed, rotations[i].y);
            nil_product(signed, rotations[i].z);
            nil_product(share, translations[i].x);
            nil_product(share, translations[i].y);
            nil_product(share, translations[i].z);
        }
        assert forall|i: int| 0 <= i < n implies is_nil(#[trigger] ys[i]) by {
            assert(is_nil(xs[i]));
        }
        assert forall|i: int| 0 <= i < n implies is_nil(#[trigger] zs[i]) by {
            assert(is_nil(xs[i]));
        }
        assert forall|i: int| 0 <= i < n implies is_nil(#[trigger] us[i]) by {
            assert(is_nil(xs[i]));
        }
        assert forall|i: int| 0 <= i < n implies is_nil(#[trigger] vs[i]) by {
            assert(is_nil(xs[i]));
        }
        assert forall|i: int| 0 <= i < n implies is_nil(#[trigger] ts[i]) by {
            assert(is_nil(xs[i]));
        }
        nils_add_up(xs);
        nils_add_up(ys);
        nils_add_up(zs);
        nils_add_up(us);
        nils_add_up(vs);
        nils_add_up(ts);
        let mixed = crate::warp::mixed_rotation(rotations, weights);
        let norm = mixed.inner(mixed).root();
        if !norm.same(A::of_count(0)) {
            let factor = A::of_count(1).over(norm);
            nil_product(factor, mixed.x);
            nil_product(factor, mixed.y);
            nil_product(factor, mixed.z);
        }
    }
}

impl<S: Scalar> Blend<S> {
    /// Whether the correction at a stored point is blended from ordinary values, and the
    /// point's coordinates are ordinary and compare as themselves.
    pub open spec fn is_ordinary_at(self, point: [S::Narrow; 3], time: Option<S>) -> bool {
        let position = crate::field::unstored::<S>(point);
        let weights = self.weights(position, time);
        &&& is_ordinary_point(position)
        &&& position.x.same(position.x)
        &&& position.y.same(position.y)
        &&& position.z.same(position.z)
        &&& self.positions.len() > 1 && S::of_ratio(1, 1_000_000_000_000).below(
            crate::sequence::total(weights),
        ) ==> mixes_ordinarily(self.rotations, weights)
    }

    /// Whether this holds of every point of a cloud.
    pub open spec fn is_ordinary_on(self, cloud: Cloud<S>) -> bool {
        forall|i: int|
            0 <= i < cloud.points.len() ==> self.is_ordinary_at(
                #[trigger] cloud.points[i],
                crate::warp::time_of(cloud.timestamps, i),
            )
    }
}

impl<S: Scalar> Correction<S> {
    /// A correction scaled to zero is the open loop: every point of a cloud stays where it
    /// is, as the number type compares, where the deltas scale and the blends run over
    /// ordinary values.
    pub proof fn open_loop_leaves_every_point(self, cloud: Cloud<S>)
        requires
            zero_vanishes::<S>(),
            storage_keeps_places::<S>(),
            self.nodes.len() <= usize::MAX,
            self.aligned(),
            forall|i: int|
                0 <= i < self.transforms.len() ==> scales_ordinarily(#[trigger] self.transforms[i]),
            self.partly(S::of_count(0)).blend().is_ordinary_on(cloud),
        ensures
            ({
                let warped = self.partly(S::of_count(0)).blend().warped_cloud(cloud);
                &&& warped.points.len() == cloud.points.len()
                &&& forall|i: int|
                    0 <= i < cloud.points.len() ==> same_place::<S>(
                        #[trigger] warped.points[i],
                        cloud.points[i],
                    )
            }),
    {
        let open = self.partly(S::of_count(0));
        let blend = open.blend();
        let order = open.time_order();
        open.blend_is_sorted_by_time();
        let warped = blend.warped_all(cloud.points, cloud.timestamps);
        assert forall|i: int| 0 <= i < self.nodes.len() implies is_nearly_upright(
            #[trigger] blend.rotations[i],
        ) by {
            scaled_to_zero_is_nearly_upright(self.transforms[order[i] as int]);
        }
        assert forall|i: int| 0 <= i < self.nodes.len() implies is_nil_shift(
            #[trigger] blend.translations[i],
        ) by {
            scaled_to_zero_is_nearly_upright(self.transforms[order[i] as int]);
        }
        assert forall|i: int| 0 <= i < cloud.points.len() implies same_place::<S>(
            #[trigger] warped[i],
            cloud.points[i],
        ) by {
            let point = cloud.points[i];
            let time = crate::warp::time_of(cloud.timestamps, i);
            let position = crate::field::unstored::<S>(point);
            assert(blend.is_ordinary_at(point, time));
            if blend.positions.len() > 0 {
                let (rotation, translation) = blend.at(position, time);
                assert(is_nearly_upright(blend.rotations[0]) && is_nil_shift(
                    blend.translations[0],
                ));
                if blend.positions.len() == 1 {
                    ones_stay_one(rotation.w, rotation.w);
                } else {
                    nil_deltas_blend_to_nil(
                        blend.rotations,
                        blend.translations,
                        blend.spreads(position, time),
                        blend.weights(position, time),
                    );
                }
                nil_turn_moves_nothing(rotation, translation, position);
            }
        }
    }
}

impl<S: Scalar> DemoState<S> {
    /// With the closure slider at zero the drawn points compare as those of the scene,
    /// whatever the node count and whatever was drawn before.
    pub proof fn open_slider_draws_in_place(self, alpha: S::Narrow, node_count: u32)
        requires
            zero_vanishes::<S>(),
            storage_keeps_places::<S>(),
            S::widened(alpha) == S::of_count(0),
            self.shown().correction.nodes.len() <= usize::MAX,
            self.shown().correction.aligned(),
            ({
                let thinned = self.shown().correction.thinned_to(node_count as nat);
                &&& forall|i: int|
                    0 <= i < thinned.transforms.len() ==> scales_ordinarily(
                        #[trigger] thinned.transforms[i],
                    )
                &&& thinned.partly(S::of_count(0)).blend().is_ordinary_on(self.shown().cloud)
            }),
            self.draws(alpha, node_count),
        ensures
            self.drawn_points().len() == 2 * self.shown().cloud.points.len(),
            forall|i: int|
                0 <= i < self.shown().cloud.points.len() ==> {
                    let point = #[trigger] self.shown().cloud.points[i];
                    &&& S::widened(self.drawn_points()[2 * i]).same(S::widened(point[0]))
                    &&& S::widened(self.drawn_points()[2 * i + 1]).same(S::widened(point[1]))
                },
    {
        let correction = self.shown().correction;
        let cloud = self.shown().cloud;
        let thinned = correction.thinned_to(node_count as nat);
        correction.thinning_meets_its_target(node_count as nat);
        thinned.open_loop_leaves_every_point(cloud);
        let warped = thinned.partly(S::of_count(0)).blend().warped_cloud(cloud);
        crate::demo::interleaved_holds_x_and_y(warped.points);
        assert forall|i: int| 0 <= i < cloud.points.len() implies {
            let point = #[trigger] cloud.points[i];
            &&& S::widened(self.drawn_points()[2 * i]).same(S::widened(point[0]))
            &&& S::widened(self.drawn_points()[2 * i + 1]).same(S::widened(point[1]))
        } by {
            assert(same_place::<S>(warped.points[i], cloud.points[i]));
        }
    }
}

} // verus!
