//! Proximity under exact arithmetic: which node has the larger say, and what that means
//! for the points between two nodes.

use crate::exact;
use crate::graph::{Blend, Correction, Transform};
use crate::math::{Quat, Vec3};
use crate::scalar::Arith;
use vstd::prelude::*;

verus! {

/// Whether a curve is positive and strictly increasing, as the exponential is.
pub open spec fn rises(curve: spec_fn(real) -> real) -> bool {
    &&& forall|x: real| 0real < #[trigger] curve(x)
    &&& forall|x: real, y: real| x < y ==> #[trigger] curve(x) < #[trigger] curve(y)
}

/// The weights that belong to some spreads under a curve that stands for the exponential.
pub open spec fn bells(curve: spec_fn(real) -> real, spreads: Seq<real>) -> Seq<real> {
    spreads.map_values(|spread: real| curve(spread.negated()))
}

/// The inverse of twice a squared bandwidth is positive.
proof fn falloff_is_positive(sigma: real)
    requires
        sigma != 0real,
    ensures
        0real < crate::warp::falloff(sigma),
{
    exact::small_counts();
    exact::product_by_constants(sigma);
    exact::product_commutes(sigma + sigma, sigma);
    exact::product_of_sum(sigma, sigma, sigma);
    exact::square_is_positive(sigma);
    exact::quotient_keeps_sign(1real, exact::product(sigma + sigma, sigma));
}

/// Without a time, a node that is nearer in space has a smaller spread.
pub proof fn nearer_node_has_smaller_spread(
    blend: Blend<real>,
    point: Vec3<real>,
    near: int,
    far: int,
)
    requires
        blend.sigma != 0real,
        point.gap_squared(blend.positions[near]) < point.gap_squared(blend.positions[far]),
    ensures
        blend.spread(point, None, near) < blend.spread(point, None, far),
{
    falloff_is_positive(blend.sigma);
    exact::product_is_monotone(
        point.gap_squared(blend.positions[near]),
        point.gap_squared(blend.positions[far]),
        crate::warp::falloff(blend.sigma),
    );
}

/// At a seam, where two nodes are equally far in space, the node that is nearer in time
/// has the smaller spread: a point stays bound to the segment it was seen on.
pub proof fn seam_point_is_bound_by_time(
    blend: Blend<real>,
    point: Vec3<real>,
    observed_at: real,
    near: int,
    far: int,
)
    requires
        blend.time_sigma != 0real,
        point.gap_squared(blend.positions[near]) == point.gap_squared(blend.positions[far]),
        (observed_at - blend.times[near]).magnitude() < (observed_at
            - blend.times[far]).magnitude(),
    ensures
        blend.spread(point, Some(observed_at), near) < blend.spread(point, Some(observed_at), far),
{
    let (a, b) = (observed_at - blend.times[near], observed_at - blend.times[far]);
    falloff_is_positive(blend.time_sigma);
    smaller_magnitude_has_smaller_square(a, b);
    exact::product_is_monotone(
        exact::product(a, a),
        exact::product(b, b),
        crate::warp::falloff(blend.time_sigma),
    );
}

proof fn smaller_magnitude_has_smaller_square(a: real, b: real)
    requires
        a.magnitude() < b.magnitude(),
    ensures
        exact::product(a, a) < exact::product(b, b),
{
    let (m, n) = (a.magnitude(), b.magnitude());
    exact::product_of_opposite(a, a);
    exact::product_of_opposite(a, 0real - a);
    exact::product_of_opposite(b, b);
    exact::product_of_opposite(b, 0real - b);
    assert(exact::product(m, m) == exact::product(a, a));
    assert(exact::product(n, n) == exact::product(b, b));
    exact::product_keeps_order(m, n, m);
    exact::product_is_monotone(m, n, n);
    exact::product_commutes(m, n);
}

/// A magnitude that is no larger has a square that is no larger.
proof fn magnitude_orders_squares(a: real, b: real)
    requires
        a.magnitude() <= b.magnitude(),
    ensures
        exact::product(a, a) <= exact::product(b, b),
{
    if a.magnitude() < b.magnitude() {
        smaller_magnitude_has_smaller_square(a, b);
    } else {
        exact::product_of_opposite(a, a);
        exact::product_of_opposite(a, 0real - a);
        exact::product_of_opposite(b, b);
        exact::product_of_opposite(b, 0real - b);
        let (m, n) = (a.magnitude(), b.magnitude());
        assert(exact::product(m, m) == exact::product(a, a));
        assert(exact::product(n, n) == exact::product(b, b));
    }
}

/// Positive weights have a positive sum.
proof fn positive_weights_add_up(weights: Seq<real>)
    requires
        forall|i: int| 0 <= i < weights.len() ==> 0real < #[trigger] weights[i],
    ensures
        0real <= crate::sequence::total(weights),
        weights.len() > 0 ==> 0real < crate::sequence::total(weights),
    decreases weights.len(),
{
    exact::small_counts();
    if weights.len() > 0 {
        let front = weights.drop_last();
        assert forall|i: int| 0 <= i < front.len() implies 0real < #[trigger] front[i] by {
            assert(weights[i] == front[i]);
        }
        positive_weights_add_up(front);
        assert(0real < weights[weights.len() - 1]);
    }
}

/// A smaller spread gives the larger weight and the larger share.
pub proof fn smaller_spread_has_larger_share(
    curve: spec_fn(real) -> real,
    spreads: Seq<real>,
    near: int,
    far: int,
)
    requires
        rises(curve),
        0 <= near < spreads.len(),
        0 <= far < spreads.len(),
        spreads[near] < spreads[far],
    ensures
        ({
            let weights = bells(curve, spreads);
            &&& 0real < weights[far] < weights[near]
            &&& 0real < crate::warp::share(weights, far) < crate::warp::share(weights, near)
        }),
{
    let weights = bells(curve, spreads);
    assert forall|i: int| 0 <= i < weights.len() implies 0real < #[trigger] weights[i] by {
        assert(weights[i] == curve(spreads[i].negated()));
    }
    positive_weights_add_up(weights);
    assert(weights[near] == curve(spreads[near].negated()));
    assert(weights[far] == curve(spreads[far].negated()));
    let whole = crate::sequence::total(weights);
    exact::quotient_is_monotone(weights[far], weights[near], whole);
    exact::quotient_keeps_sign(weights[far], whole);
}

/// The node that is nearer in space and time has the larger share: it is no farther in
/// either, and nearer in one. Without a time, space alone decides.
pub proof fn nearer_node_has_larger_share(
    curve: spec_fn(real) -> real,
    blend: Blend<real>,
    point: Vec3<real>,
    time: Option<real>,
    near: int,
    far: int,
)
    requires
        rises(curve),
        blend.sigma != 0real,
        time is Some ==> blend.time_sigma != 0real,
        0 <= near < blend.positions.len(),
        0 <= far < blend.positions.len(),
        ({
            let (d, e) = (
                point.gap_squared(blend.positions[near]),
                point.gap_squared(blend.positions[far]),
            );
            match time {
                None => d < e,
                Some(t) => {
                    let (u, v) = (
                        (t - blend.times[near]).magnitude(),
                        (t - blend.times[far]).magnitude(),
                    );
                    d <= e && u <= v && (d < e || u < v)
                },
            }
        }),
    ensures
        blend.spread(point, time, near) < blend.spread(point, time, far),
        ({
            let weights = bells(curve, blend.spreads(point, time));
            &&& 0real < weights[far] < weights[near]
            &&& 0real < crate::warp::share(weights, far) < crate::warp::share(weights, near)
        }),
{
    let (d, e) = (
        point.gap_squared(blend.positions[near]),
        point.gap_squared(blend.positions[far]),
    );
    let k = crate::warp::falloff(blend.sigma);
    falloff_is_positive(blend.sigma);
    if d < e {
        exact::product_is_monotone(d, e, k);
    }
    if let Some(t) = time {
        let (a, b) = (t - blend.times[near], t - blend.times[far]);
        let l = crate::warp::falloff(blend.time_sigma);
        falloff_is_positive(blend.time_sigma);
        if a.magnitude() < b.magnitude() {
            smaller_magnitude_has_smaller_square(a, b);
            exact::product_is_monotone(exact::product(a, a), exact::product(b, b), l);
        } else {
            magnitude_orders_squares(a, b);
            magnitude_orders_squares(b, a);
        }
    }
    smaller_spread_has_larger_share(curve, blend.spreads(point, time), near, far);
}

/// A point between two anchors, as it moves on from the first to the second, gets farther
/// from the one and nearer to the other.
proof fn moving_on_shifts_the_spreads(
    blend: Blend<real>,
    point: Vec3<real>,
    next: Vec3<real>,
    time: Option<real>,
    next_time: Option<real>,
)
    requires
        between(blend, point, next, time, next_time),
    ensures
        blend.spread(point, time, 0) <= blend.spread(next, next_time, 0),
        blend.spread(next, next_time, 1) <= blend.spread(point, time, 1),
{
    let (a, b) = (blend.positions[0], blend.positions[1]);
    let k = crate::warp::falloff(blend.sigma);
    falloff_is_positive(blend.sigma);
    magnitude_orders_squares(point.x - a.x, next.x - a.x);
    magnitude_orders_squares(next.x - b.x, point.x - b.x);
    exact::product_keeps_order(point.gap_squared(a), next.gap_squared(a), k);
    exact::product_keeps_order(next.gap_squared(b), point.gap_squared(b), k);
    exact::product_commutes(k, point.gap_squared(a));
    exact::product_commutes(k, next.gap_squared(a));
    exact::product_commutes(k, next.gap_squared(b));
    exact::product_commutes(k, point.gap_squared(b));
    if let (Some(s), Some(t)) = (time, next_time) {
        let l = crate::warp::falloff(blend.time_sigma);
        falloff_is_positive(blend.time_sigma);
        let (sa, ta) = (s - blend.times[0], t - blend.times[0]);
        let (sb, tb) = (s - blend.times[1], t - blend.times[1]);
        magnitude_orders_squares(sa, ta);
        magnitude_orders_squares(tb, sb);
        exact::product_keeps_order(exact::product(sa, sa), exact::product(ta, ta), l);
        exact::product_keeps_order(exact::product(tb, tb), exact::product(sb, sb), l);
        exact::product_commutes(l, exact::product(sa, sa));
        exact::product_commutes(l, exact::product(ta, ta));
        exact::product_commutes(l, exact::product(tb, tb));
        exact::product_commutes(l, exact::product(sb, sb));
    }
}

/// Whether a point moves on along x, and in time where it has one, from the first of two
/// anchors to the second.
pub open spec fn between(
    blend: Blend<real>,
    point: Vec3<real>,
    next: Vec3<real>,
    time: Option<real>,
    next_time: Option<real>,
) -> bool {
    &&& blend.positions.len() == 2
    &&& blend.sigma != 0real
    &&& blend.positions[0].x <= point.x < next.x <= blend.positions[1].x
    &&& next.y == point.y
    &&& next.z == point.z
    &&& match (time, next_time) {
        (None, None) => true,
        (Some(s), Some(t)) => blend.time_sigma != 0real && blend.times[0] <= s <= t
            <= blend.times[1],
        _ => false,
    }
}

/// Of two positive weights, one that grows while the other shrinks gains in its share.
proof fn share_moves_over(v: real, w: real, next_v: real, next_w: real)
    requires
        0real < next_v <= v,
        0real < w <= next_w,
    ensures
        exact::quotient(w, v + w) <= exact::quotient(next_w, next_v + next_w),
        exact::quotient(v, v + w) + exact::quotient(w, v + w) == 1real,
        exact::quotient(next_v, next_v + next_w) + exact::quotient(next_w, next_v + next_w)
            == 1real,
{
    exact::quotient_of_sum(v, w, v + w);
    exact::quotient_of_sum(next_v, next_w, next_v + next_w);
    exact::quotient_of_sum(next_v, w, next_v + w);
    exact::quotient_by_larger(next_v, next_v + w, next_v + next_w);
    exact::quotient_by_larger(w, next_v + w, v + w);
}

/// The sum of two terms.
proof fn total_of_two(terms: Seq<real>)
    requires
        terms.len() == 2,
    ensures
        crate::sequence::total(terms) == terms[0] + terms[1],
{
    exact::small_counts();
    let one = terms.drop_last();
    assert(one.drop_last().len() == 0);
    assert(crate::sequence::total(one.drop_last()) == 0real);
    assert(crate::sequence::total(one) == terms[0]);
}

/// Where a blend under a rising curve sends a point.
pub open spec fn sent(
    curve: spec_fn(real) -> real,
    blend: Blend<real>,
    point: Vec3<real>,
    time: Option<real>,
) -> Vec3<real> {
    let (rotation, translation) = blend.under(
        point,
        time,
        bells(curve, blend.spreads(point, time)),
    );
    (Transform { translation, rotation }).moved(point)
}

/// Between two anchors whose deltas only shift, and shift the farther anchor no less far
/// along, the warp does not fold: of two points the one that is farther along stays
/// farther along. (Near enough to the anchors for the weights not to vanish.)
pub proof fn warp_does_not_fold_between_anchors(
    curve: spec_fn(real) -> real,
    blend: Blend<real>,
    point: Vec3<real>,
    next: Vec3<real>,
    time: Option<real>,
    next_time: Option<real>,
)
    requires
        rises(curve),
        between(blend, point, next, time, next_time),
        blend.rotations.len() >= 2,
        blend.translations.len() >= 2,
        blend.rotations[0] == Quat::<real>::no_turn(),
        blend.rotations[1] == Quat::<real>::no_turn(),
        blend.translations[0].x <= blend.translations[1].x,
        real::of_ratio(1, 1_000_000_000_000) < crate::sequence::total(
            bells(curve, blend.spreads(point, time)),
        ),
        real::of_ratio(1, 1_000_000_000_000) < crate::sequence::total(
            bells(curve, blend.spreads(next, next_time)),
        ),
    ensures
        ({
            let here = crate::warp::mixed_translation(
                blend.translations,
                bells(curve, blend.spreads(point, time)),
            );
            let there = crate::warp::mixed_translation(
                blend.translations,
                bells(curve, blend.spreads(next, next_time)),
            );
            point.x + here.x < next.x + there.x
        }),
        sent(curve, blend, point, time).x < sent(curve, blend, next, next_time).x,
{
    let (spreads, next_spreads) = (blend.spreads(point, time), blend.spreads(next, next_time));
    let (weights, next_weights) = (bells(curve, spreads), bells(curve, next_spreads));
    moving_on_shifts_the_spreads(blend, point, next, time, next_time);
    let (v, w) = (weights[0], weights[1]);
    let (next_v, next_w) = (next_weights[0], next_weights[1]);
    assert(v == curve(spreads[0].negated()) && w == curve(spreads[1].negated()));
    assert(next_v == curve(next_spreads[0].negated()) && next_w == curve(
        next_spreads[1].negated(),
    ));
    share_moves_over(v, w, next_v, next_w);
    shift_by_shares(blend.translations, weights);
    shift_by_shares(blend.translations, next_weights);
    let (low, high) = (blend.translations[0].x, blend.translations[1].x);
    let (q, r) = (exact::quotient(w, v + w), exact::quotient(next_w, next_v + next_w));
    exact::product_keeps_order(q, r, high - low);
    exact::product_commutes(high - low, q);
    exact::product_commutes(high - low, r);
    rotationless_blend(blend, point, time, weights);
    rotationless_blend(blend, next, next_time, next_weights);
}

/// Two shifts blend to the first and the share of the second of what lies between them.
proof fn shift_by_shares(translations: Seq<Vec3<real>>, weights: Seq<real>)
    requires
        translations.len() >= 2,
        weights.len() == 2,
        0real < weights[0],
        0real < weights[1],
    ensures
        ({
            let (low, high) = (translations[0].x, translations[1].x);
            let q = exact::quotient(weights[1], weights[0] + weights[1]);
            crate::warp::mixed_translation(translations, weights).x == low + exact::product(
                q,
                high - low,
            )
        }),
{
    let (v, w) = (weights[0], weights[1]);
    let (low, high) = (translations[0].x, translations[1].x);
    let (p, q) = (exact::quotient(v, v + w), exact::quotient(w, v + w));
    total_of_two(weights);
    exact::quotient_of_sum(v, w, v + w);
    let terms = Seq::new(2, |i: int| crate::warp::share(weights, i).times(translations[i].x));
    total_of_two(terms);
    assert(terms[0] == exact::product(p, low));
    assert(terms[1] == exact::product(q, high));
    exact::product_of_difference(q, high, low);
    exact::product_commutes(p + q, low);
    exact::product_of_sum(low, p, q);
    exact::product_commutes(low, p);
    exact::product_commutes(low, q);
    exact::product_by_constants(low);
}

/// A blend of two deltas that only shift moves a point by the blended shift.
proof fn rotationless_blend(
    blend: Blend<real>,
    point: Vec3<real>,
    time: Option<real>,
    weights: Seq<real>,
)
    requires
        blend.positions.len() == 2,
        weights.len() == 2,
        blend.rotations.len() >= 2,
        blend.rotations[0] == Quat::<real>::no_turn(),
        blend.rotations[1] == Quat::<real>::no_turn(),
        real::of_ratio(1, 1_000_000_000_000) < crate::sequence::total(weights),
    ensures
        ({
            let (rotation, translation) = blend.under(point, time, weights);
            (Transform { translation, rotation }).moved(point) == point.plus(
                crate::warp::mixed_translation(blend.translations, weights),
            )
        }),
{
    let none = Transform::<real>::stay();
    exact::small_counts();
    exact::product_by_constants(0real);
    exact::product_by_constants(1real);
    assert(exact::rotation::is_unit(none.rotation));
    let still = Seq::new(2, |i: int| none.translation);
    exact::blending::blend_of_equal_deltas_is_that_delta(
        blend.rotations,
        still,
        blend.spreads(point, time),
        weights,
        none,
    );
    exact::rotation::no_turn_turns_nothing(point);
}

/// Under exact arithmetic a thinning blends as the warp does: the blend of some members
/// at a node's anchor and time, under whatever weights, is what the warp blends there from
/// these members alone.
pub proof fn thinning_blends_as_the_warp_does(
    correction: Correction<real>,
    members: Seq<usize>,
    index: usize,
    sigma: real,
    time_sigma: real,
    weights: Seq<real>,
)
    requires
        exact::roots_exist(),
        members.len() > 0,
        weights.len() == members.len(),
        forall|i: int|
            0 <= i < members.len() ==> exact::rotation::is_unit(
                correction.rotations()[#[trigger] members[i] as int],
            ),
    ensures
        ({
            let part = correction.blend_of(members, sigma, time_sigma);
            let (point, time) = (
                correction.positions()[index as int],
                Some(correction.times()[index as int]),
            );
            &&& correction.spreads(members, index, sigma, time_sigma) == part.spreads(point, time)
            &&& correction.blended_under(members, index, sigma, time_sigma, weights)
                == part.under(point, time, weights)
        }),
{
    let part = correction.blend_of(members, sigma, time_sigma);
    let (point, time) = (correction.positions()[index as int], correction.times()[index as int]);
    let spreads = correction.spreads(members, index, sigma, time_sigma);
    assert forall|i: int| 0 <= i < members.len() implies spreads[i] == part.spreads(
        point,
        Some(time),
    )[i] by {
        let other = correction.positions()[members[i] as int];
        exact::square_is_positive(point.x - other.x);
        exact::square_is_positive(point.y - other.y);
        exact::square_is_positive(point.z - other.z);
        let square = point.gap_squared(other);
        assert(exact::is_root(square, square.root()));
        assert(part.positions[i] == other);
    }
    assert(spreads =~= part.spreads(point, Some(time)));
    if members.len() == 1 {
        assert(exact::rotation::is_unit(correction.rotations()[members[0] as int]));
        let delta = Transform {
            rotation: part.rotations[0],
            translation: part.translations[0],
        };
        exact::blending::blend_of_equal_deltas_is_that_delta(
            part.rotations,
            part.translations,
            spreads,
            weights,
            delta,
        );
    }
}

/// A thinning measures its errors with the bandwidths that the warp would pick, however
/// few the nodes.
pub proof fn thinning_picks_the_bandwidths_of_the_warp<P>(
    configured: real,
    points: Seq<P>,
    metric: spec_fn(P, P) -> real,
)
    ensures
        crate::sparsify::resolved(configured, points, metric) == crate::graph::bandwidth(
            configured,
            points,
            metric,
        ),
{
    exact::small_counts();
    exact::product_by_constants(2real);
    exact::quotient_keeps_sign(1real, 1_000_000u64 as real);
}

/// The sum of a sequence with one more term somewhere in it.
proof fn total_of_inserted(terms: Seq<real>, slot: int, term: real)
    requires
        0 <= slot <= terms.len(),
    ensures
        crate::sequence::total(terms.insert(slot, term)) == crate::sequence::total(terms) + term,
    decreases terms.len(),
{
    let longer = terms.insert(slot, term);
    exact::small_counts();
    if slot == terms.len() {
        assert(longer.drop_last() =~= terms);
    } else {
        let front = terms.drop_last();
        total_of_inserted(front, slot, term);
        assert(longer.drop_last() =~= front.insert(slot, term));
    }
}

/// A sum does not depend on the order of its terms.
proof fn total_is_blind_to_order(values: Seq<real>, keys: Seq<real>, n: nat)
    requires
        n <= keys.len() == values.len(),
        keys.len() <= usize::MAX,
    ensures
        crate::sequence::total(
            crate::selection::picked(values, crate::order::order_below(keys, n)),
        ) == crate::sequence::total(values.take(n as int)),
    decreases n,
{
    if n == 0 {
        assert(crate::selection::picked(values, crate::order::order_below(keys, 0)) =~= values.take(
            0,
        ));
    } else {
        let m = (n - 1) as nat;
        let before = crate::order::order_below(keys, m);
        total_is_blind_to_order(values, keys, m);
        crate::order::order_below_is_a_permutation(keys, m);
        crate::order::slot_is_where_it_belongs(keys, before, keys[m as int], before.len());
        let slot = crate::order::slot_for(keys, before, keys[m as int], before.len()) as int;
        assert(crate::selection::picked(values, crate::order::order_below(keys, n))
            =~= crate::selection::picked(values, before).insert(slot, values[m as int]));
        total_of_inserted(crate::selection::picked(values, before), slot, values[m as int]);
        assert(values.take(n as int).drop_last() =~= values.take(m as int));
    }
}

/// Normalizing twice is normalizing once.
proof fn normalizing_settles(q: Quat<real>)
    requires
        exact::roots_exist(),
    ensures
        exact::rotation::is_unit(q.unit_or_no_turn()),
        q.unit_or_no_turn().unit_or_no_turn() == q.unit_or_no_turn(),
{
    exact::square_is_positive(q.x);
    exact::square_is_positive(q.y);
    exact::square_is_positive(q.z);
    exact::square_is_positive(q.w);
    let square = q.inner(q);
    assert(exact::is_root(square, square.root()));
    exact::rotation::normalizing_gives_a_unit(q, square.root());
    exact::rotation::unit_is_normal(q.unit_or_no_turn());
}

/// Where the blend of some members sends the anchor of node `index`, as a thinning measures
/// it.
pub open spec fn measured(
    curve: spec_fn(real) -> real,
    correction: Correction<real>,
    kept: Seq<usize>,
    index: usize,
) -> Vec3<real> {
    let (sigma, time_sigma) = (correction.sigma_of(kept), correction.time_sigma_of(kept));
    let (rotation, translation) = correction.blended_under(
        kept,
        index,
        sigma,
        time_sigma,
        bells(curve, correction.spreads(kept, index, sigma, time_sigma)),
    );
    (Transform { translation, rotation }).moved(correction.positions()[index as int])
}

/// Whether the kept nodes stand in the order of their times.
pub open spec fn in_time_order(correction: Correction<real>, kept: Seq<usize>) -> bool {
    forall|i: int, j: int|
        0 <= i < j < kept.len() ==> correction.times()[#[trigger] kept[i] as int]
            <= correction.times()[#[trigger] kept[j] as int]
}

/// Whether one weight is the greatest, ahead of every other.
pub open spec fn has_sole_leader(weights: Seq<real>) -> bool {
    exists|lead: int| #[trigger] leads_alone(weights, lead)
}

pub open spec fn leads_alone(weights: Seq<real>, lead: int) -> bool {
    &&& 0 <= lead < weights.len()
    &&& real::unbounded().negated() < weights[lead]
    &&& forall|j: int|
        0 <= j < weights.len() && j != lead ==> #[trigger] weights[j] < weights[lead]
}

/// Whether one spread is the least, short of every other.
pub open spec fn has_sole_nearest(spreads: Seq<real>) -> bool {
    exists|near: int| #[trigger] is_nearest_alone(spreads, near)
}

pub open spec fn is_nearest_alone(spreads: Seq<real>, near: int) -> bool {
    &&& 0 <= near < spreads.len()
    &&& spreads[near] < real::unbounded()
    &&& forall|j: int|
        0 <= j < spreads.len() && j != near ==> spreads[near] < #[trigger] spreads[j]
}

/// Whether no two rotations lie on opposite sides.
pub open spec fn on_one_side(rotations: Seq<Quat<real>>) -> bool {
    forall|i: int, j: int|
        0 <= i < rotations.len() && 0 <= j < rotations.len() ==> 0real
            <= #[trigger] rotations[i].inner(rotations[j])
}

/// Whether the blend of the kept nodes at the anchor of node `index` does not depend on
/// their order: no two of them tie where the first of a tie would be taken. A tie for the
/// greatest weight does not matter where the rotations lie on one side.
pub open spec fn order_is_immaterial(
    curve: spec_fn(real) -> real,
    correction: Correction<real>,
    kept: Seq<usize>,
    index: usize,
) -> bool {
    let spreads = correction.spreads(
        kept,
        index,
        correction.sigma_of(kept),
        correction.time_sigma_of(kept),
    );
    let weights = bells(curve, spreads);
    if real::of_ratio(1, 1_000_000_000_000) < crate::sequence::total(weights) {
        has_sole_leader(weights) || on_one_side(
            crate::selection::picked(correction.rotations(), kept),
        )
    } else {
        has_sole_nearest(spreads)
    }
}

/// A sole leader leads in every order.
proof fn sole_leader_leads(weights: Seq<real>, order: Seq<usize>, lead: int)
    requires
        weights.len() <= usize::MAX,
        crate::order::is_permutation(order, weights.len()),
        leads_alone(weights, lead),
    ensures
        crate::warp::leader(weights) == lead,
        ({
            let slot = crate::warp::leader(crate::selection::picked(weights, order));
            0 <= slot < order.len() && order[slot] == lead
        }),
{
    let sorted = crate::selection::picked(weights, order);
    exact::reals_are_ordered();
    crate::sequence::highest_is_greatest(weights);
    crate::sequence::highest_names_a_position(weights, lead);
    assert(order.contains(lead as usize));
    let slot = choose|slot: int| 0 <= slot < order.len() && order[slot] == lead as usize;
    assert(sorted[slot] == weights[lead]);
    crate::sequence::highest_is_greatest(sorted);
    crate::sequence::highest_names_a_position(sorted, slot);
    let first = crate::warp::leader(sorted);
    assert(!sorted[first].below(sorted[slot]));
    assert(sorted[first] == weights[order[first] as int]);
}

/// A sole nearest member is nearest in every order.
proof fn sole_nearest_is_nearest(
    spreads: Seq<real>,
    weights: Seq<real>,
    order: Seq<usize>,
    near: int,
)
    requires
        weights.len() == spreads.len() <= usize::MAX,
        crate::order::is_permutation(order, spreads.len()),
        is_nearest_alone(spreads, near),
    ensures
        crate::warp::closest(spreads, weights) == near,
        ({
            let slot = crate::warp::closest(
                crate::selection::picked(spreads, order),
                crate::selection::picked(weights, order),
            );
            0 <= slot < order.len() && order[slot] == near
        }),
{
    let sorted = crate::selection::picked(spreads, order);
    exact::reals_are_ordered();
    crate::sequence::lowest_is_least(spreads);
    assert(spreads[near].below(real::unbounded()));
    assert(order.contains(near as usize));
    let slot = choose|slot: int| 0 <= slot < order.len() && order[slot] == near as usize;
    assert(sorted[slot] == spreads[near]);
    crate::sequence::lowest_is_least(sorted);
    assert(sorted[slot].below(real::unbounded()));
    let first = crate::sequence::lowest(sorted)->0 as int;
    assert(!sorted[slot].below(sorted[first]));
    assert(sorted[first] == spreads[order[first] as int]);
}

/// The thinned correction's own blend form is that of the kept members, sorted by time.
proof fn thinned_blend_is_sorted_members(correction: Correction<real>, kept: Seq<usize>)
    requires
        exact::roots_exist(),
        kept.len() <= usize::MAX,
        correction.aligned(),
        crate::selection::in_range(kept, correction.nodes.len()),
    ensures
        ({
            let sorted = correction.only(kept).blend();
            let order = correction.only(kept).time_order();
            let part = correction.blend_of(
                kept,
                correction.sigma_of(kept),
                correction.time_sigma_of(kept),
            );
            &&& crate::order::is_permutation(order, kept.len())
            &&& order == crate::order::stable_order(part.times)
            &&& sorted.positions == crate::selection::picked(part.positions, order)
            &&& sorted.times == crate::selection::picked(part.times, order)
            &&& sorted.rotations == crate::selection::picked(part.rotations, order)
            &&& sorted.translations == crate::selection::picked(part.translations, order)
            &&& sorted.sigma == part.sigma
            &&& sorted.time_sigma == part.time_sigma
            &&& forall|i: int|
                0 <= i < kept.len() ==> exact::rotation::is_unit(#[trigger] part.rotations[i])
        }),
{
    let thinned = correction.only(kept);
    let order = thinned.time_order();
    let sorted = thinned.blend();
    let part = correction.blend_of(
        kept,
        correction.sigma_of(kept),
        correction.time_sigma_of(kept),
    );
    assert forall|i: int| 0 <= i < kept.len() implies #[trigger] kept[i]
        < correction.transforms.len() by {}
    assert(thinned.positions() =~= part.positions);
    assert(thinned.times() =~= part.times);
    assert(thinned.translations() =~= part.translations) by {
        assert forall|i: int| 0 <= i < kept.len() implies #[trigger] thinned.translations()[i]
            == part.translations[i] by {
            assert(kept[i] < correction.transforms.len());
        }
    }
    assert forall|i: int| 0 <= i < kept.len() implies exact::rotation::is_unit(
        #[trigger] part.rotations[i],
    ) && thinned.rotations()[i] == part.rotations[i] by {
        assert(kept[i] < correction.transforms.len());
        normalizing_settles(correction.transforms[kept[i] as int].rotation);
    }
    assert(thinned.rotations() =~= part.rotations);
    crate::order::stable_order_is_a_permutation(thinned.times());
    assert(sorted.positions =~= crate::selection::picked(part.positions, order));
    assert(sorted.times =~= crate::selection::picked(part.times, order));
    assert(sorted.rotations =~= crate::selection::picked(part.rotations, order));
    assert(sorted.translations =~= crate::selection::picked(part.translations, order));
    thinning_picks_the_bandwidths_of_the_warp(
        correction.blend_sigma,
        part.positions,
        crate::graph::space_metric(),
    );
    thinning_picks_the_bandwidths_of_the_warp(
        correction.blend_time_sigma,
        part.times,
        crate::graph::time_metric(),
    );
}

/// What a thinning measures is what the thinned correction does: warped by the correction
/// that is left, an anchor goes where the thinning said it would. This holds where the kept
/// nodes stand in the order of their times, and in every order where no two of them tie.
pub proof fn thinned_warp_sends_anchors_where_measured(
    curve: spec_fn(real) -> real,
    correction: Correction<real>,
    kept: Seq<usize>,
    index: usize,
)
    requires
        exact::roots_exist(),
        0 < kept.len() <= usize::MAX,
        correction.aligned(),
        crate::selection::in_range(kept, correction.nodes.len()),
        in_time_order(correction, kept) || order_is_immaterial(curve, correction, kept, index),
    ensures
        sent(
            curve,
            correction.only(kept).blend(),
            correction.positions()[index as int],
            Some(correction.times()[index as int]),
        ) == measured(curve, correction, kept, index),
{
    let sorted = correction.only(kept).blend();
    let order = correction.only(kept).time_order();
    let (sigma, time_sigma) = (correction.sigma_of(kept), correction.time_sigma_of(kept));
    let part = correction.blend_of(kept, sigma, time_sigma);
    let (point, time) = (
        correction.positions()[index as int],
        Some(correction.times()[index as int]),
    );
    let spreads = correction.spreads(kept, index, sigma, time_sigma);
    let weights = bells(curve, spreads);
    thinned_blend_is_sorted_members(correction, kept);
    assert forall|i: int| 0 <= i < kept.len() implies exact::rotation::is_unit(
        correction.rotations()[#[trigger] kept[i] as int],
    ) by {
        assert(exact::rotation::is_unit(part.rotations[i]));
    }
    thinning_blends_as_the_warp_does(correction, kept, index, sigma, time_sigma, weights);
    if in_time_order(correction, kept) || kept.len() == 1 {
        assert forall|i: int, j: int| 0 <= i < j < part.times.len() implies !(
        #[trigger] part.times[j]).below(#[trigger] part.times[i]) by {
            let _ = (kept[i], kept[j]);
        }
        crate::order::stable_order_keeps_sorted_keys(part.times);
        assert(sorted.positions =~= part.positions);
        assert(sorted.times =~= part.times);
        assert(sorted.rotations =~= part.rotations);
        assert(sorted.translations =~= part.translations);
        assert(sorted == part);
    } else {
        assert(sorted.spreads(point, time) =~= crate::selection::picked(spreads, order)) by {
            assert forall|i: int| 0 <= i < kept.len() implies sorted.spreads(point, time)[i]
                == spreads[order[i] as int] by {
                assert(order[i] < kept.len());
                assert(sorted.positions[i] == part.positions[order[i] as int]);
                assert(sorted.times[i] == part.times[order[i] as int]);
                assert(spreads[order[i] as int] == part.spread(point, time, order[i] as int));
            }
        }
        let sorted_weights = bells(curve, sorted.spreads(point, time));
        assert(sorted_weights =~= crate::selection::picked(weights, order)) by {
            assert forall|i: int| 0 <= i < kept.len() implies sorted_weights[i]
                == weights[order[i] as int] by {
                assert(order[i] < kept.len());
            }
        }
        let sorted_spreads = sorted.spreads(point, time);
        if real::of_ratio(1, 1_000_000_000_000) < crate::sequence::total(weights) {
            sorted_blend_is_the_same(part, sorted, order, weights, sorted_weights);
        } else {
            total_is_blind_to_order(weights, part.times, kept.len());
            assert(weights.take(kept.len() as int) =~= weights);
            let near = choose|near: int| #[trigger] is_nearest_alone(spreads, near);
            sole_nearest_is_nearest(spreads, weights, order, near);
            let slot = crate::warp::closest(sorted_spreads, sorted_weights);
            assert(sorted.rotations[slot] == part.rotations[near]);
            assert(sorted.translations[slot] == part.translations[near]);
        }
    }
}

/// Blending without vanished weights does not depend on the order, where the leader is the
/// only one or the rotations lie on one side.
proof fn sorted_blend_is_the_same(
    part: Blend<real>,
    sorted: Blend<real>,
    order: Seq<usize>,
    weights: Seq<real>,
    sorted_weights: Seq<real>,
)
    requires
        0 < weights.len() <= usize::MAX,
        part.times.len() == weights.len(),
        part.rotations.len() == weights.len(),
        part.translations.len() == weights.len(),
        order == crate::order::stable_order(part.times),
        crate::order::is_permutation(order, weights.len()),
        sorted.rotations == crate::selection::picked(part.rotations, order),
        sorted.translations == crate::selection::picked(part.translations, order),
        sorted_weights == crate::selection::picked(weights, order),
        has_sole_leader(weights) || on_one_side(part.rotations),
    ensures
        crate::sequence::total(sorted_weights) == crate::sequence::total(weights),
        crate::warp::mixed_rotation(sorted.rotations, sorted_weights)
            == crate::warp::mixed_rotation(part.rotations, weights),
        crate::warp::mixed_translation(sorted.translations, sorted_weights)
            == crate::warp::mixed_translation(part.translations, weights),
{
    let n = weights.len();
    let keys = part.times;
    exact::small_counts();
    total_is_blind_to_order(weights, keys, n);
    assert(weights.take(n as int) =~= weights);
    crate::sequence::highest_in_range(weights);
    crate::sequence::highest_in_range(sorted_weights);
    let (lead, sorted_lead) = (crate::warp::leader(weights), crate::warp::leader(sorted_weights));
    if has_sole_leader(weights) {
        let sole = choose|sole: int| #[trigger] leads_alone(weights, sole);
        sole_leader_leads(weights, order, sole);
    }
    assert forall|i: int| 0 <= i < n implies #[trigger] crate::warp::signed_share(
        sorted.rotations,
        sorted_weights,
        i,
    ) == crate::warp::signed_share(part.rotations, weights, order[i] as int) by {
        assert(order[i] < n && order[sorted_lead] < n);
        if !has_sole_leader(weights) {
            let k = order[i] as int;
            assert(0real <= part.rotations[k].inner(part.rotations[order[sorted_lead] as int]));
            assert(0real <= part.rotations[k].inner(part.rotations[lead]));
        }
    }
    let xs = Seq::new(
        n,
        |i: int| crate::warp::signed_share(part.rotations, weights, i).times(part.rotations[i].x),
    );
    let ys = Seq::new(
        n,
        |i: int| crate::warp::signed_share(part.rotations, weights, i).times(part.rotations[i].y),
    );
    let zs = Seq::new(
        n,
        |i: int| crate::warp::signed_share(part.rotations, weights, i).times(part.rotations[i].z),
    );
    let ws = Seq::new(
        n,
        |i: int| crate::warp::signed_share(part.rotations, weights, i).times(part.rotations[i].w),
    );
    let us = Seq::new(
        n,
        |i: int| crate::warp::share(weights, i).times(part.translations[i].x),
    );
    let vs = Seq::new(
        n,
        |i: int| crate::warp::share(weights, i).times(part.translations[i].y),
    );
    let ts = Seq::new(
        n,
        |i: int| crate::warp::share(weights, i).times(part.translations[i].z),
    );
    total_is_blind_to_order(xs, keys, n);
    total_is_blind_to_order(ys, keys, n);
    total_is_blind_to_order(zs, keys, n);
    total_is_blind_to_order(ws, keys, n);
    total_is_blind_to_order(us, keys, n);
    total_is_blind_to_order(vs, keys, n);
    total_is_blind_to_order(ts, keys, n);
    assert(xs.take(n as int) =~= xs && ys.take(n as int) =~= ys && zs.take(n as int) =~= zs
        && ws.take(n as int) =~= ws);
    assert(us.take(n as int) =~= us && vs.take(n as int) =~= vs && ts.take(n as int) =~= ts);
    assert forall|i: int| 0 <= i < n implies #[trigger] order[i] < n by {}
    assert(Seq::new(
        n,
        |i: int|
            crate::warp::signed_share(sorted.rotations, sorted_weights, i).times(
                sorted.rotations[i].x,
            ),
    ) =~= crate::selection::picked(xs, order));
    assert(Seq::new(
        n,
        |i: int|
            crate::warp::signed_share(sorted.rotations, sorted_weights, i).times(
                sorted.rotations[i].y,
            ),
    ) =~= crate::selection::picked(ys, order));
    assert(Seq::new(
        n,
        |i: int|
            crate::warp::signed_share(sorted.rotations, sorted_weights, i).times(
                sorted.rotations[i].z,
            ),
    ) =~= crate::selection::picked(zs, order));
    assert(Seq::new(
        n,
        |i: int|
            crate::warp::signed_share(sorted.rotations, sorted_weights, i).times(
                sorted.rotations[i].w,
            ),
    ) =~= crate::selection::picked(ws, order));
    assert(Seq::new(
        n,
        |i: int| crate::warp::share(sorted_weights, i).times(sorted.translations[i].x),
    ) =~= crate::selection::picked(us, order));
    assert(Seq::new(
        n,
        |i: int| crate::warp::share(sorted_weights, i).times(sorted.translations[i].y),
    ) =~= crate::selection::picked(vs, order));
    assert(Seq::new(
        n,
        |i: int| crate::warp::share(sorted_weights, i).times(sorted.translations[i].z),
    ) =~= crate::selection::picked(ts, order));
}

/// Under exact arithmetic the target that a thinning scores against is where a warp by the
/// full correction sends the anchor.
pub proof fn full_warp_sends_anchors_where_measured(
    curve: spec_fn(real) -> real,
    correction: Correction<real>,
    index: usize,
)
    requires
        exact::roots_exist(),
        0 < correction.nodes.len() <= usize::MAX,
        correction.transforms.len() == correction.nodes.len(),
        ({
            let all = crate::selection::everyone(correction.nodes.len());
            in_time_order(correction, all) || order_is_immaterial(curve, correction, all, index)
        }),
    ensures
        sent(
            curve,
            correction.blend(),
            correction.positions()[index as int],
            Some(correction.times()[index as int]),
        ) == measured(
            curve,
            correction,
            crate::selection::everyone(correction.nodes.len()),
            index,
        ),
{
    let all = crate::selection::everyone(correction.nodes.len());
    let same = correction.only(all);
    thinned_warp_sends_anchors_where_measured(curve, correction, all, index);
    assert(same.nodes =~= correction.nodes);
    assert(same.translations() =~= correction.translations());
    assert forall|i: int| 0 <= i < correction.transforms.len() implies same.rotations()[i]
        == correction.rotations()[i] by {
        normalizing_settles(correction.transforms[i].rotation);
    }
    assert(same.rotations() =~= correction.rotations());
}

/// Where all nodes carry one rigid delta, every kept set sends every anchor where that delta
/// does, so that no drop is missed.
pub proof fn one_delta_is_never_missed(
    curve: spec_fn(real) -> real,
    correction: Correction<real>,
    delta: Transform<real>,
    kept: Seq<usize>,
    index: usize,
)
    requires
        correction.aligned(),
        exact::rotation::is_unit(delta.rotation),
        forall|i: int|
            0 <= i < correction.nodes.len() ==> #[trigger] correction.transforms[i] == delta,
        0 < kept.len(),
        crate::selection::in_range(kept, correction.nodes.len()),
    ensures
        measured(curve, correction, kept, index) == delta.moved(
            correction.positions()[index as int],
        ),
{
    let (sigma, time_sigma) = (correction.sigma_of(kept), correction.time_sigma_of(kept));
    let spreads = correction.spreads(kept, index, sigma, time_sigma);
    let rotations = crate::selection::picked(correction.rotations(), kept);
    let translations = crate::selection::picked(correction.translations(), kept);
    exact::rotation::unit_is_normal(delta.rotation);
    assert forall|i: int| 0 <= i < kept.len() implies #[trigger] rotations[i]
        == delta.rotation by {
        assert(kept[i] < correction.nodes.len());
        assert(correction.transforms[kept[i] as int] == delta);
    }
    assert forall|i: int| 0 <= i < kept.len() implies #[trigger] translations[i]
        == delta.translation by {
        assert(kept[i] < correction.nodes.len());
        assert(correction.transforms[kept[i] as int] == delta);
    }
    exact::blending::blend_of_equal_deltas_is_that_delta(
        rotations,
        translations,
        spreads,
        bells(curve, spreads),
        delta,
    );
}

/// A spread is made of squares: twice the squared bandwidth times the spatial spread is the
/// squared distance, and what a time adds to it is, times twice the squared temporal
/// bandwidth, the squared time difference.
pub proof fn spread_is_made_of_squares(
    blend: Blend<real>,
    point: Vec3<real>,
    observed_at: real,
    i: int,
)
    requires
        blend.sigma != 0real,
        blend.time_sigma != 0real,
    ensures
        ({
            let node = blend.positions[i];
            let (dx, dy, dz) = (point.x - node.x, point.y - node.y, point.z - node.z);
            let dt = observed_at - blend.times[i];
            let spatial = blend.spread(point, None, i);
            let timed = blend.spread(point, Some(observed_at), i);
            let (s, t) = (blend.sigma, blend.time_sigma);
            &&& exact::product(exact::product(2real, exact::product(s, s)), spatial)
                == exact::product(dx, dx) + exact::product(dy, dy) + exact::product(dz, dz)
            &&& exact::product(exact::product(2real, exact::product(t, t)), timed - spatial)
                == exact::product(dt, dt)
        }),
{
    let gap = point.gap_squared(blend.positions[i]);
    let dt = observed_at - blend.times[i];
    falloff_undoes_the_square(blend.sigma, gap);
    falloff_undoes_the_square(blend.time_sigma, exact::product(dt, dt));
}

proof fn falloff_undoes_the_square(sigma: real, square: real)
    requires
        sigma != 0real,
    ensures
        exact::product(
            exact::product(2real, exact::product(sigma, sigma)),
            exact::product(square, crate::warp::falloff(sigma)),
        ) == square,
{
    let twice = exact::product(2real, exact::product(sigma, sigma));
    let falloff = crate::warp::falloff(sigma);
    exact::small_counts();
    exact::product_regroups(2real, sigma, sigma);
    exact::square_is_positive(sigma);
    exact::product_by_constants(exact::product(sigma, sigma));
    assert(exact::product(twice, falloff) == 1real) by {
        reveal(exact::product);
        reveal(exact::quotient);
        assert(twice * (1real / twice) == 1real) by (nonlinear_arith)
            requires
                twice != 0real,
        ;
    }
    exact::product_swaps(twice, square, falloff);
    exact::product_by_constants(square);
}

/// A thinning measures spreads as the warp does: between anchors, they are made of the same
/// squares.
pub proof fn thinning_measures_spreads_as_the_warp_does(
    correction: Correction<real>,
    member: usize,
    index: usize,
    sigma: real,
    time_sigma: real,
)
    requires
        exact::roots_exist(),
    ensures
        correction.spread(member, index, sigma, time_sigma) == (Blend {
            positions: seq![correction.positions()[member as int]],
            times: seq![correction.times()[member as int]],
            rotations: Seq::empty(),
            translations: Seq::empty(),
            sigma,
            time_sigma,
        }).spread(
            correction.positions()[index as int],
            Some(correction.times()[index as int]),
            0,
        ),
{
    let (point, other) = (
        correction.positions()[index as int],
        correction.positions()[member as int],
    );
    exact::square_is_positive(point.x - other.x);
    exact::square_is_positive(point.y - other.y);
    exact::square_is_positive(point.z - other.z);
    let square = point.gap_squared(other);
    assert(exact::is_root(square, square.root()));
}

/// Where the curve turns sums into products, as the exponential does, the weight of a node
/// is the product of one for its distance and one for its time.
pub proof fn weight_is_a_product(
    curve: spec_fn(real) -> real,
    blend: Blend<real>,
    point: Vec3<real>,
    observed_at: real,
    i: int,
)
    requires
        forall|x: real, y: real| #[trigger]
            curve(x + y) == exact::product(curve(x), curve(y)),
        0 <= i < blend.positions.len(),
    ensures
        ({
            let timed = blend.spread(point, Some(observed_at), i);
            let spatial = blend.spread(point, None, i);
            bells(curve, blend.spreads(point, Some(observed_at)))[i] == exact::product(
                bells(curve, blend.spreads(point, None))[i],
                curve(0real - (timed - spatial)),
            )
        }),
{
    let timed = blend.spread(point, Some(observed_at), i);
    let spatial = blend.spread(point, None, i);
    let (x, y) = (0real - spatial, 0real - (timed - spatial));
    assert(curve(x + y) == exact::product(curve(x), curve(y)));
    assert(x + y == 0real - timed);
}

} // verus!
