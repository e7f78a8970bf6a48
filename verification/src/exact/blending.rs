//! Blends under exact arithmetic.

use crate::exact;
use crate::graph::{Correction, Transform};
use crate::math::{Quat, Vec3};
use crate::scalar::Arith;
use vstd::prelude::*;

verus! {

/// The shares of some weights, each times `k`, add up to the share of their sum
/// times `k`.
proof fn shares_add_up(weights: Seq<real>, whole: real, k: real, n: nat)
    requires
        whole != 0real,
        n <= weights.len(),
    ensures
        crate::sequence::total(
            Seq::new(n, |i: int| exact::product(exact::quotient(weights[i], whole), k)),
        ) == exact::product(
            exact::quotient(crate::sequence::total(weights.take(n as int)), whole),
            k,
        ),
    decreases n,
{
    let terms = Seq::new(n, |i: int| exact::product(exact::quotient(weights[i], whole), k));
    let front = weights.take(n as int);
    exact::small_counts();
    if n == 0 {
        exact::quotient_of_sum(0real, 0real, whole);
        exact::product_by_constants(k);
        assert(terms.len() == 0);
        assert(front.len() == 0);
    } else {
        let m = (n - 1) as nat;
        shares_add_up(weights, whole, k, m);
        let before = Seq::new(m, |i: int| exact::product(exact::quotient(weights[i], whole), k));
        assert(terms.drop_last() =~= before);
        assert(front.drop_last() =~= weights.take(m as int));
        let done = crate::sequence::total(weights.take(m as int));
        let last = weights[m as int];
        exact::quotient_of_sum(done, last, whole);
        exact::product_commutes(exact::quotient(done, whole) + exact::quotient(last, whole), k);
        exact::product_of_sum(k, exact::quotient(done, whole), exact::quotient(last, whole));
        exact::product_commutes(k, exact::quotient(done, whole));
        exact::product_commutes(k, exact::quotient(last, whole));
    }
}

/// The shares of a blend are a partition of unity.
pub proof fn shares_are_a_partition_of_unity(weights: Seq<real>)
    requires
        crate::sequence::total(weights) != 0real,
    ensures
        crate::sequence::total(
            Seq::new(weights.len(), |i: int| crate::warp::share(weights, i)),
        ) == 1real,
{
    let whole = crate::sequence::total(weights);
    shares_add_up(weights, whole, 1real, weights.len());
    let shares = Seq::new(weights.len(), |i: int| crate::warp::share(weights, i));
    let terms = Seq::new(
        weights.len(),
        |i: int| exact::product(exact::quotient(weights[i], whole), 1real),
    );
    assert forall|i: int| 0 <= i < weights.len() implies shares[i] == terms[i] by {
        exact::product_by_constants(exact::quotient(weights[i], whole));
    }
    assert(shares =~= terms);
    assert(weights.take(weights.len() as int) =~= weights);
    exact::quotient_of_sum(0real, 0real, whole);
    exact::product_by_constants(1real);
}

/// Where all blended deltas agree, the blend is that delta, whatever the weights:
/// neighbors that hold the same delta reconstruct one that was dropped.
pub proof fn blend_of_equal_deltas_is_that_delta(
    rotations: Seq<Quat<real>>,
    translations: Seq<Vec3<real>>,
    spreads: Seq<real>,
    weights: Seq<real>,
    delta: Transform<real>,
)
    requires
        spreads.len() == weights.len(),
        0 < weights.len() <= rotations.len(),
        weights.len() <= translations.len(),
        forall|i: int| 0 <= i < weights.len() ==> #[trigger] rotations[i] == delta.rotation,
        forall|i: int| 0 <= i < weights.len() ==> #[trigger] translations[i] == delta.translation,
        exact::rotation::is_unit(delta.rotation),
    ensures
        crate::warp::mixed(rotations, translations, spreads, weights) == (
            delta.rotation,
            delta.translation,
        ),
{
    let n = weights.len();
    let whole = crate::sequence::total(weights);
    let q = delta.rotation;
    let t = delta.translation;
    exact::small_counts();
    crate::sequence::highest_in_range(weights);
    crate::sequence::lowest_in_range(spreads);
    let lead = crate::warp::leader(weights);
    let near = crate::warp::closest(spreads, weights);
    assert(rotations[lead] == q && rotations[near] == q && translations[near] == t);
    let floor = real::of_ratio(1, 1_000_000_000_000);
    assert(floor > 0real) by {
        let most = 1_000_000_000_000u64 as real;
        assert(most > 0real);
        assert(1real / most > 0real) by (nonlinear_arith)
            requires
                most > 0real,
        ;
        reveal(exact::quotient);
    }
    if floor < whole {
        exact::quotient_of_sum(0real, 0real, whole);
        assert(weights.take(n as int) =~= weights);
        assert forall|i: int| 0 <= i < n implies crate::warp::signed_share(rotations, weights, i)
            == exact::quotient(weights[i], whole) by {
            assert(rotations[i] == q);
        }
        shares_add_up(weights, whole, q.x, n);
        shares_add_up(weights, whole, q.y, n);
        shares_add_up(weights, whole, q.z, n);
        shares_add_up(weights, whole, q.w, n);
        shares_add_up(weights, whole, t.x, n);
        shares_add_up(weights, whole, t.y, n);
        shares_add_up(weights, whole, t.z, n);
        exact::product_by_constants(q.x);
        exact::product_by_constants(q.y);
        exact::product_by_constants(q.z);
        exact::product_by_constants(q.w);
        exact::product_by_constants(t.x);
        exact::product_by_constants(t.y);
        exact::product_by_constants(t.z);
        assert(Seq::new(
            n,
            |i: int|
                crate::warp::signed_share(rotations, weights, i).times(rotations[i].x),
        ) =~= Seq::new(n, |i: int| exact::product(exact::quotient(weights[i], whole), q.x)));
        assert(Seq::new(
            n,
            |i: int|
                crate::warp::signed_share(rotations, weights, i).times(rotations[i].y),
        ) =~= Seq::new(n, |i: int| exact::product(exact::quotient(weights[i], whole), q.y)));
        assert(Seq::new(
            n,
            |i: int|
                crate::warp::signed_share(rotations, weights, i).times(rotations[i].z),
        ) =~= Seq::new(n, |i: int| exact::product(exact::quotient(weights[i], whole), q.z)));
        assert(Seq::new(
            n,
            |i: int|
                crate::warp::signed_share(rotations, weights, i).times(rotations[i].w),
        ) =~= Seq::new(n, |i: int| exact::product(exact::quotient(weights[i], whole), q.w)));
        assert(Seq::new(n, |i: int| crate::warp::share(weights, i).times(translations[i].x))
            =~= Seq::new(n, |i: int| exact::product(exact::quotient(weights[i], whole), t.x)));
        assert(Seq::new(n, |i: int| crate::warp::share(weights, i).times(translations[i].y))
            =~= Seq::new(n, |i: int| exact::product(exact::quotient(weights[i], whole), t.y)));
        assert(Seq::new(n, |i: int| crate::warp::share(weights, i).times(translations[i].z))
            =~= Seq::new(n, |i: int| exact::product(exact::quotient(weights[i], whole), t.z)));
        assert(crate::warp::mixed_rotation(rotations, weights) == q);
        assert(crate::warp::mixed_translation(translations, weights) == t);
        exact::rotation::unit_is_normal(q);
    }
}

/// The sum of shares, each times a value between `low` and `high`, lies between the same
/// multiples of the sum of the shares.
proof fn weighted_sum_in_range(
    weights: Seq<real>,
    whole: real,
    values: Seq<real>,
    low: real,
    high: real,
    n: nat,
)
    requires
        0real < whole,
        n <= weights.len(),
        weights.len() <= values.len(),
        forall|i: int| 0 <= i < weights.len() ==> 0real <= #[trigger] weights[i],
        forall|i: int| 0 <= i < weights.len() ==> low <= #[trigger] values[i] <= high,
    ensures
        ({
            let part = exact::quotient(
                crate::sequence::total(weights.take(n as int)),
                whole,
            );
            let sum = crate::sequence::total(
                Seq::new(
                    n,
                    |i: int| exact::product(exact::quotient(weights[i], whole), values[i]),
                ),
            );
            exact::product(part, low) <= sum <= exact::product(part, high)
        }),
    decreases n,
{
    let front = weights.take(n as int);
    let terms = Seq::new(
        n,
        |i: int| exact::product(exact::quotient(weights[i], whole), values[i]),
    );
    exact::small_counts();
    exact::quotient_of_sum(0real, 0real, whole);
    exact::product_by_constants(low);
    exact::product_by_constants(high);
    if n == 0 {
        assert(front.len() == 0);
        assert(terms.len() == 0);
    } else {
        let m = (n - 1) as nat;
        weighted_sum_in_range(weights, whole, values, low, high, m);
        let before = Seq::new(
            m,
            |i: int| exact::product(exact::quotient(weights[i], whole), values[i]),
        );
        assert(terms.drop_last() =~= before);
        assert(front.drop_last() =~= weights.take(m as int));
        let done = crate::sequence::total(weights.take(m as int));
        let last = weights[m as int];
        let (q, r) = (exact::quotient(done, whole), exact::quotient(last, whole));
        exact::quotient_of_sum(done, last, whole);
        exact::quotient_keeps_sign(last, whole);
        exact::product_keeps_order(low, values[m as int], r);
        exact::product_keeps_order(values[m as int], high, r);
        exact::product_commutes(q + r, low);
        exact::product_of_sum(low, q, r);
        exact::product_commutes(low, q);
        exact::product_commutes(low, r);
        exact::product_commutes(q + r, high);
        exact::product_of_sum(high, q, r);
        exact::product_commutes(high, q);
        exact::product_commutes(high, r);
    }
}

/// A blended translation is a mean: in every coordinate it lies between the least and
/// the greatest of the blended ones.
pub proof fn blended_translation_is_a_mean(
    translations: Seq<Vec3<real>>,
    weights: Seq<real>,
    low: Vec3<real>,
    high: Vec3<real>,
)
    requires
        0real < crate::sequence::total(weights),
        weights.len() <= translations.len(),
        forall|i: int| 0 <= i < weights.len() ==> 0real <= #[trigger] weights[i],
        forall|i: int|
            0 <= i < weights.len() ==> {
                let t = #[trigger] translations[i];
                &&& low.x <= t.x <= high.x
                &&& low.y <= t.y <= high.y
                &&& low.z <= t.z <= high.z
            },
    ensures
        ({
            let mean = crate::warp::mixed_translation(translations, weights);
            &&& low.x <= mean.x <= high.x
            &&& low.y <= mean.y <= high.y
            &&& low.z <= mean.z <= high.z
        }),
{
    let n = weights.len();
    let whole = crate::sequence::total(weights);
    let xs = translations.map_values(|t: Vec3<real>| t.x);
    let ys = translations.map_values(|t: Vec3<real>| t.y);
    let zs = translations.map_values(|t: Vec3<real>| t.z);
    weighted_sum_in_range(weights, whole, xs, low.x, high.x, n);
    weighted_sum_in_range(weights, whole, ys, low.y, high.y, n);
    weighted_sum_in_range(weights, whole, zs, low.z, high.z, n);
    assert(weights.take(n as int) =~= weights);
    exact::quotient_of_sum(0real, 0real, whole);
    exact::product_by_constants(low.x);
    exact::product_by_constants(low.y);
    exact::product_by_constants(low.z);
    exact::product_by_constants(high.x);
    exact::product_by_constants(high.y);
    exact::product_by_constants(high.z);
    assert(Seq::new(n, |i: int| crate::warp::share(weights, i).times(translations[i].x))
        =~= Seq::new(n, |i: int| exact::product(exact::quotient(weights[i], whole), xs[i])));
    assert(Seq::new(n, |i: int| crate::warp::share(weights, i).times(translations[i].y))
        =~= Seq::new(n, |i: int| exact::product(exact::quotient(weights[i], whole), ys[i])));
    assert(Seq::new(n, |i: int| crate::warp::share(weights, i).times(translations[i].z))
        =~= Seq::new(n, |i: int| exact::product(exact::quotient(weights[i], whole), zs[i])));
}

/// Whether a correction has a delta for every node, and unit rotations.
pub open spec fn is_rigid(correction: Correction<real>) -> bool {
    &&& 0 < correction.nodes.len() <= usize::MAX
    &&& correction.aligned()
    &&& forall|i: int|
        0 <= i < correction.transforms.len() ==> exact::rotation::is_unit(
            (#[trigger] correction.transforms[i]).rotation,
        )
}

/// A correction scaled to zero is the open loop: whatever the weights, no point moves.
pub proof fn open_loop_moves_nothing(
    correction: Correction<real>,
    point: Vec3<real>,
    time: Option<real>,
    weights: Seq<real>,
)
    requires
        is_rigid(correction),
        weights.len() == correction.nodes.len(),
    ensures
        ({
            let (rotation, translation) = correction.partly(0real).blend().under(
                point,
                time,
                weights,
            );
            (Transform { translation, rotation }).moved(point) == point
        }),
{
    let open = correction.partly(0real);
    let blend = open.blend();
    let order = open.time_order();
    let stay = Transform::<real>::stay();
    exact::small_counts();
    exact::product_by_constants(0real);
    exact::product_by_constants(1real);
    assert(exact::rotation::is_unit(stay.rotation));
    exact::rotation::unit_is_normal(stay.rotation);
    open.blend_is_sorted_by_time();
    assert forall|i: int| 0 <= i < weights.len() implies #[trigger] blend.rotations[i]
        == stay.rotation by {
        exact::rotation::scaled_to_zero_corrects_nothing(correction, order[i] as int);
    }
    assert forall|i: int| 0 <= i < weights.len() implies #[trigger] blend.translations[i]
        == stay.translation by {
        exact::rotation::scaled_to_zero_corrects_nothing(correction, order[i] as int);
    }
    blend_of_equal_deltas_is_that_delta(
        blend.rotations,
        blend.translations,
        blend.spreads(point, time),
        weights,
        stay,
    );
    assert(blend.rotations[0] == stay.rotation && blend.translations[0] == stay.translation);
    exact::rotation::no_turn_turns_nothing(point);
}

/// The sum of opposites is the opposite of the sum.
proof fn total_of_opposites(terms: Seq<real>, opposites: Seq<real>)
    requires
        opposites.len() == terms.len(),
        forall|i: int| 0 <= i < terms.len() ==> #[trigger] opposites[i] == 0real - terms[i],
    ensures
        crate::sequence::total(opposites) == 0real - crate::sequence::total(terms),
    decreases terms.len(),
{
    exact::small_counts();
    if terms.len() > 0 {
        assert forall|i: int| 0 <= i < terms.len() - 1 implies #[trigger] opposites.drop_last()[i]
            == 0real - terms.drop_last()[i] by {
            assert(opposites[i] == 0real - terms[i]);
        }
        total_of_opposites(terms.drop_last(), opposites.drop_last());
    }
}

/// Whether each of `others` is the quaternion in `rotations` up to its sign, and the
/// leader's sign is kept as told.
spec fn signs_differ(
    rotations: Seq<Quat<real>>,
    others: Seq<Quat<real>>,
    weights: Seq<real>,
    kept: bool,
) -> bool {
    let lead = crate::warp::leader(weights);
    &&& weights.len() <= rotations.len()
    &&& weights.len() <= others.len()
    &&& forall|i: int|
        0 <= i < weights.len() ==> (#[trigger] others[i] == rotations[i] || others[i]
            == rotations[i].opposite())
    &&& forall|i: int|
        0 <= i < weights.len() ==> #[trigger] rotations[i].inner(rotations[lead]) != 0real
    &&& 0 <= lead < weights.len()
    &&& kept ==> others[lead] == rotations[lead]
    &&& !kept ==> others[lead] == rotations[lead].opposite()
}

/// The sign of a member does not matter to its term, but for the sign of the leader.
proof fn signs_cancel(
    rotations: Seq<Quat<real>>,
    others: Seq<Quat<real>>,
    weights: Seq<real>,
    kept: bool,
    i: int,
)
    requires
        signs_differ(rotations, others, weights, kept),
        0 <= i < weights.len(),
    ensures
        ({
            let k = crate::warp::signed_share(rotations, weights, i);
            let l = crate::warp::signed_share(others, weights, i);
            let (q, p) = (rotations[i], others[i]);
            &&& kept ==> {
                &&& exact::product(l, p.x) == exact::product(k, q.x)
                &&& exact::product(l, p.y) == exact::product(k, q.y)
                &&& exact::product(l, p.z) == exact::product(k, q.z)
                &&& exact::product(l, p.w) == exact::product(k, q.w)
            }
            &&& !kept ==> {
                &&& exact::product(l, p.x) == 0real - exact::product(k, q.x)
                &&& exact::product(l, p.y) == 0real - exact::product(k, q.y)
                &&& exact::product(l, p.z) == 0real - exact::product(k, q.z)
                &&& exact::product(l, p.w) == 0real - exact::product(k, q.w)
            }
        }),
{
    let lead = crate::warp::leader(weights);
    let (q, p, r) = (rotations[i], others[i], rotations[lead]);
    let share = crate::warp::share(weights, i);
    exact::small_counts();
    assert(others[i] == rotations[i] || others[i] == rotations[i].opposite());
    assert(q.inner(r) != 0real);
    exact::rotation::inner_of_opposite(q, r);
    exact::rotation::inner_of_opposite(q, r.opposite());
    sign_moves(share, q.x);
    sign_moves(share, q.y);
    sign_moves(share, q.z);
    sign_moves(share, q.w);
}

proof fn sign_moves(a: real, b: real)
    ensures
        exact::product(0real - a, b) == 0real - exact::product(a, b),
        exact::product(a, 0real - b) == 0real - exact::product(a, b),
        exact::product(0real - a, 0real - b) == exact::product(a, b),
{
    exact::product_of_opposite(a, b);
    exact::product_of_opposite(b, a);
    exact::product_of_opposite(a, 0real - b);
}

/// Blending rotations whose signs differ turns a point alike.
proof fn signs_do_not_matter(
    rotations: Seq<Quat<real>>,
    others: Seq<Quat<real>>,
    weights: Seq<real>,
    kept: bool,
    point: Vec3<real>,
)
    requires
        signs_differ(rotations, others, weights, kept),
    ensures
        crate::warp::mixed_rotation(others, weights).unit_or_no_turn().turned(point)
            == crate::warp::mixed_rotation(rotations, weights).unit_or_no_turn().turned(point),
{
    let n = weights.len();
    let sx = Seq::new(
        n,
        |i: int| crate::warp::signed_share(rotations, weights, i).times(rotations[i].x),
    );
    let sy = Seq::new(
        n,
        |i: int| crate::warp::signed_share(rotations, weights, i).times(rotations[i].y),
    );
    let sz = Seq::new(
        n,
        |i: int| crate::warp::signed_share(rotations, weights, i).times(rotations[i].z),
    );
    let sw = Seq::new(
        n,
        |i: int| crate::warp::signed_share(rotations, weights, i).times(rotations[i].w),
    );
    let tx = Seq::new(
        n,
        |i: int| crate::warp::signed_share(others, weights, i).times(others[i].x),
    );
    let ty = Seq::new(
        n,
        |i: int| crate::warp::signed_share(others, weights, i).times(others[i].y),
    );
    let tz = Seq::new(
        n,
        |i: int| crate::warp::signed_share(others, weights, i).times(others[i].z),
    );
    let tw = Seq::new(
        n,
        |i: int| crate::warp::signed_share(others, weights, i).times(others[i].w),
    );
    assert forall|i: int| 0 <= i < n implies (kept ==> #[trigger] tx[i] == sx[i] && ty[i] == sy[i]
        && tz[i] == sz[i] && tw[i] == sw[i]) && (!kept ==> tx[i] == 0real - sx[i] && ty[i] == 0real
        - sy[i] && tz[i] == 0real - sz[i] && tw[i] == 0real - sw[i]) by {
        signs_cancel(rotations, others, weights, kept, i);
    }
    let mixed = crate::warp::mixed_rotation(rotations, weights);
    if kept {
        assert(tx =~= sx && ty =~= sy && tz =~= sz && tw =~= sw) by {
            assert forall|i: int| 0 <= i < n implies ty[i] == sy[i] && tz[i] == sz[i] && tw[i]
                == sw[i] by {
                assert(tx[i] == sx[i]);
            }
        }
        assert(crate::warp::mixed_rotation(others, weights) == mixed);
    } else {
        assert forall|i: int| 0 <= i < n implies #[trigger] ty[i] == 0real - sy[i] by {
            assert(tx[i] == 0real - sx[i]);
        }
        assert forall|i: int| 0 <= i < n implies #[trigger] tz[i] == 0real - sz[i] by {
            assert(tx[i] == 0real - sx[i]);
        }
        assert forall|i: int| 0 <= i < n implies #[trigger] tw[i] == 0real - sw[i] by {
            assert(tx[i] == 0real - sx[i]);
        }
        total_of_opposites(sx, tx);
        total_of_opposites(sy, ty);
        total_of_opposites(sz, tz);
        total_of_opposites(sw, tw);
        assert(crate::warp::mixed_rotation(others, weights) == mixed.opposite());
        exact::rotation::opposites_normalize_alike(mixed, point);
    }
}

/// A correction scaled to one is the closed loop: every point moves as under the
/// correction itself. (Where a rotation is perpendicular to the leader's, neither of its
/// two signs is the nearer one, and scaling may pick the other.)
pub proof fn closed_loop_moves_alike(
    correction: Correction<real>,
    point: Vec3<real>,
    time: Option<real>,
    weights: Seq<real>,
)
    requires
        is_rigid(correction),
        weights.len() == correction.nodes.len(),
        forall|i: int|
            0 <= i < weights.len() ==> (#[trigger] correction.blend().rotations[i]).inner(
                correction.blend().rotations[crate::warp::leader(weights)],
            ) != 0real,
    ensures
        ({
            let (rotation, translation) = correction.partly(1real).blend().under(
                point,
                time,
                weights,
            );
            let (own_rotation, own_translation) = correction.blend().under(point, time, weights);
            (Transform { translation, rotation }).moved(point) == (Transform {
                translation: own_translation,
                rotation: own_rotation,
            }).moved(point)
        }),
{
    let closed = correction.partly(1real);
    let (own, scaled) = (correction.blend(), closed.blend());
    let order = correction.time_order();
    let none = Quat::<real>::no_turn();
    let (rotations, others) = (own.rotations, scaled.rotations);
    let spreads = own.spreads(point, time);
    let lead = crate::warp::leader(weights);
    let near = crate::warp::closest(spreads, weights);
    exact::small_counts();
    crate::sequence::highest_in_range(weights);
    crate::sequence::lowest_in_range(spreads);
    correction.blend_is_sorted_by_time();
    closed.blend_is_sorted_by_time();
    assert forall|i: int| 0 <= i < weights.len() implies #[trigger] rotations[i]
        == correction.transforms[order[i] as int].rotation && others[i]
        == rotations[i].aligned_with(none) by {
        let q = correction.transforms[order[i] as int].rotation;
        exact::rotation::unit_is_normal(q);
        exact::rotation::fully_scaled_rotation(q);
        exact::rotation::unit_is_normal(q.aligned_with(none));
    }
    assert(closed.translations() =~= correction.translations()) by {
        assert forall|i: int| 0 <= i < correction.transforms.len() implies #[trigger] closed
            .translations()[i] == correction.translations()[i] by {
            exact::rotation::lerp_meets_its_ends(
                Vec3::origin(),
                correction.transforms[i].translation,
            );
        }
    }
    assert(scaled.spreads(point, time) =~= spreads);
    assert(others[near] == rotations[near].aligned_with(none)) by {
        assert(rotations[near] == correction.transforms[order[near] as int].rotation);
    }
    exact::rotation::opposite_turns_alike(rotations[near], point);
    assert(others[0] == rotations[0].aligned_with(none)) by {
        assert(rotations[0] == correction.transforms[order[0] as int].rotation);
    }
    exact::rotation::opposite_turns_alike(rotations[0], point);
    assert(others[lead] == rotations[lead].aligned_with(none)) by {
        assert(rotations[lead] == correction.transforms[order[lead] as int].rotation);
    }
    let kept = others[lead] == rotations[lead];
    assert(signs_differ(rotations, others, weights, kept)) by {
        assert forall|i: int| 0 <= i < weights.len() implies #[trigger] rotations[i].inner(
            rotations[lead],
        ) != 0real by {
            assert(correction.blend().rotations[i] == rotations[i]);
        }
        assert forall|i: int| 0 <= i < weights.len() implies (#[trigger] others[i] == rotations[i]
            || others[i] == rotations[i].opposite()) by {
            assert(correction.transforms[order[i] as int].rotation == rotations[i]);
        }
    }
    signs_do_not_matter(rotations, others, weights, kept, point);
}

/// Where all nodes carry one rigid delta, every point goes where that delta sends it, in
/// all three coordinates, whatever the weights and however many nodes there are.
pub proof fn shared_delta_moves_every_point(
    correction: Correction<real>,
    delta: Transform<real>,
    point: Vec3<real>,
    time: Option<real>,
    weights: Seq<real>,
)
    requires
        0 < correction.nodes.len() <= usize::MAX,
        correction.aligned(),
        weights.len() == correction.nodes.len(),
        exact::rotation::is_unit(delta.rotation),
        forall|i: int|
            0 <= i < correction.nodes.len() ==> #[trigger] correction.transforms[i] == delta,
    ensures
        ({
            let (rotation, translation) = correction.blend().under(point, time, weights);
            &&& rotation == delta.rotation
            &&& translation == delta.translation
            &&& (Transform { translation, rotation }).moved(point) == delta.moved(point)
        }),
{
    let blend = correction.blend();
    let order = correction.time_order();
    correction.blend_is_sorted_by_time();
    exact::rotation::unit_is_normal(delta.rotation);
    assert forall|i: int| 0 <= i < weights.len() implies #[trigger] blend.rotations[i]
        == delta.rotation by {
        assert(correction.transforms[order[i] as int] == delta);
    }
    assert forall|i: int| 0 <= i < weights.len() implies #[trigger] blend.translations[i]
        == delta.translation by {
        assert(correction.transforms[order[i] as int] == delta);
    }
    blend_of_equal_deltas_is_that_delta(
        blend.rotations,
        blend.translations,
        blend.spreads(point, time),
        weights,
        delta,
    );
    assert(blend.rotations[0] == delta.rotation && blend.translations[0] == delta.translation);
}

/// A sum of quotients, times the divisor, is the sum of the dividends' products.
proof fn shares_balance(weights: Seq<real>, whole: real, values: Seq<real>, n: nat)
    requires
        whole != 0real,
        n <= weights.len(),
        n <= values.len(),
    ensures
        exact::product(
            whole,
            crate::sequence::total(
                Seq::new(
                    n,
                    |i: int| exact::product(exact::quotient(weights[i], whole), values[i]),
                ),
            ),
        ) == crate::sequence::total(Seq::new(n, |i: int| exact::product(weights[i], values[i]))),
    decreases n,
{
    let shared = Seq::new(
        n,
        |i: int| exact::product(exact::quotient(weights[i], whole), values[i]),
    );
    let plain = Seq::new(n, |i: int| exact::product(weights[i], values[i]));
    exact::small_counts();
    exact::product_by_constants(whole);
    if n > 0 {
        let m = (n - 1) as nat;
        shares_balance(weights, whole, values, m);
        assert(shared.drop_last() =~= Seq::new(
            m,
            |i: int| exact::product(exact::quotient(weights[i], whole), values[i]),
        ));
        assert(plain.drop_last() =~= Seq::new(
            m,
            |i: int| exact::product(weights[i], values[i]),
        ));
        let (w, v) = (weights[m as int], values[m as int]);
        let share = exact::quotient(w, whole);
        exact::product_of_sum(
            whole,
            crate::sequence::total(shared.drop_last()),
            exact::product(share, v),
        );
        exact::product_regroups(whole, share, v);
        assert(exact::product(whole, share) == w) by {
            reveal(exact::product);
            reveal(exact::quotient);
            assert(whole * (w / whole) == w) by (nonlinear_arith)
                requires
                    whole != 0real,
            ;
        }
    } else {
        assert(shared.len() == 0 && plain.len() == 0);
    }
}

/// The weighted sum of some values.
pub open spec fn moment(weights: Seq<real>, values: Seq<real>) -> real {
    crate::sequence::total(Seq::new(weights.len(), |i: int| exact::product(weights[i], values[i])))
}

/// A blended translation is the center of mass of the blended ones: the total weight times
/// it is the sum of the translations, each times its weight, in every coordinate.
pub proof fn blended_translation_balances(
    rotations: Seq<Quat<real>>,
    translations: Seq<Vec3<real>>,
    spreads: Seq<real>,
    weights: Seq<real>,
)
    requires
        weights.len() <= translations.len(),
        real::of_ratio(1, 1_000_000_000_000) < crate::sequence::total(weights),
    ensures
        ({
            let whole = crate::sequence::total(weights);
            let mean = crate::warp::mixed(rotations, translations, spreads, weights).1;
            &&& exact::product(whole, mean.x) == moment(
                weights,
                translations.map_values(|t: Vec3<real>| t.x),
            )
            &&& exact::product(whole, mean.y) == moment(
                weights,
                translations.map_values(|t: Vec3<real>| t.y),
            )
            &&& exact::product(whole, mean.z) == moment(
                weights,
                translations.map_values(|t: Vec3<real>| t.z),
            )
        }),
{
    let n = weights.len();
    let whole = crate::sequence::total(weights);
    let xs = translations.map_values(|t: Vec3<real>| t.x);
    let ys = translations.map_values(|t: Vec3<real>| t.y);
    let zs = translations.map_values(|t: Vec3<real>| t.z);
    floor_is_positive();
    shares_balance(weights, whole, xs, n);
    shares_balance(weights, whole, ys, n);
    shares_balance(weights, whole, zs, n);
    assert(Seq::new(n, |i: int| crate::warp::share(weights, i).times(translations[i].x))
        =~= Seq::new(n, |i: int| exact::product(exact::quotient(weights[i], whole), xs[i])));
    assert(Seq::new(n, |i: int| crate::warp::share(weights, i).times(translations[i].y))
        =~= Seq::new(n, |i: int| exact::product(exact::quotient(weights[i], whole), ys[i])));
    assert(Seq::new(n, |i: int| crate::warp::share(weights, i).times(translations[i].z))
        =~= Seq::new(n, |i: int| exact::product(exact::quotient(weights[i], whole), zs[i])));
}

/// The weight total below which a blend gives way to the closest delta is positive.
proof fn floor_is_positive()
    ensures
        real::of_ratio(1, 1_000_000_000_000) > 0real,
{
    exact::quotient_keeps_sign(1real, 1_000_000_000_000u64 as real);
}

/// The weights, negated where a rotation lies on the far side of that of the greatest
/// weight.
pub open spec fn signed_weights(rotations: Seq<Quat<real>>, weights: Seq<real>) -> Seq<real> {
    let lead = crate::warp::leader(weights);
    Seq::new(
        weights.len(),
        |i: int|
            if rotations[i].inner(rotations[lead]) < 0real {
                0real - weights[i]
            } else {
                weights[i]
            },
    )
}

/// A blended rotation is a unit quaternion that points the way of the sum of the blended
/// ones, each times its weight and taken in the sign that lies on the side of the leader's.
pub proof fn blended_rotation_points_along_the_sum(
    rotations: Seq<Quat<real>>,
    translations: Seq<Vec3<real>>,
    spreads: Seq<real>,
    weights: Seq<real>,
)
    requires
        exact::roots_exist(),
        weights.len() <= rotations.len(),
        real::of_ratio(1, 1_000_000_000_000) < crate::sequence::total(weights),
    ensures
        ({
            let blended = crate::warp::mixed(rotations, translations, spreads, weights).0;
            let signed = signed_weights(rotations, weights);
            let sum = Quat {
                x: moment(signed, rotations.map_values(|q: Quat<real>| q.x)),
                y: moment(signed, rotations.map_values(|q: Quat<real>| q.y)),
                z: moment(signed, rotations.map_values(|q: Quat<real>| q.z)),
                w: moment(signed, rotations.map_values(|q: Quat<real>| q.w)),
            };
            &&& exact::rotation::is_unit(blended)
            &&& exact::rotation::lies_along(blended, sum)
        }),
{
    let n = weights.len();
    let whole = crate::sequence::total(weights);
    let signed = signed_weights(rotations, weights);
    let xs = rotations.map_values(|q: Quat<real>| q.x);
    let ys = rotations.map_values(|q: Quat<real>| q.y);
    let zs = rotations.map_values(|q: Quat<real>| q.z);
    let ws = rotations.map_values(|q: Quat<real>| q.w);
    floor_is_positive();
    exact::small_counts();
    assert forall|i: int| 0 <= i < n implies crate::warp::signed_share(rotations, weights, i)
        == exact::quotient(#[trigger] signed[i], whole) by {
        exact::quotient_of_sum(weights[i], 0real - weights[i], whole);
    }
    shares_balance(signed, whole, xs, n);
    shares_balance(signed, whole, ys, n);
    shares_balance(signed, whole, zs, n);
    shares_balance(signed, whole, ws, n);
    assert(Seq::new(
        n,
        |i: int| crate::warp::signed_share(rotations, weights, i).times(rotations[i].x),
    ) =~= Seq::new(n, |i: int| exact::product(exact::quotient(signed[i], whole), xs[i])));
    assert(Seq::new(
        n,
        |i: int| crate::warp::signed_share(rotations, weights, i).times(rotations[i].y),
    ) =~= Seq::new(n, |i: int| exact::product(exact::quotient(signed[i], whole), ys[i])));
    assert(Seq::new(
        n,
        |i: int| crate::warp::signed_share(rotations, weights, i).times(rotations[i].z),
    ) =~= Seq::new(n, |i: int| exact::product(exact::quotient(signed[i], whole), zs[i])));
    assert(Seq::new(
        n,
        |i: int| crate::warp::signed_share(rotations, weights, i).times(rotations[i].w),
    ) =~= Seq::new(n, |i: int| exact::product(exact::quotient(signed[i], whole), ws[i])));
    let mixed = crate::warp::mixed_rotation(rotations, weights);
    let sum = Quat {
        x: moment(signed, xs),
        y: moment(signed, ys),
        z: moment(signed, zs),
        w: moment(signed, ws),
    };
    exact::product_commutes(whole, mixed.x);
    exact::product_commutes(whole, mixed.y);
    exact::product_commutes(whole, mixed.z);
    exact::product_commutes(whole, mixed.w);
    assert(mixed.scaled_by(whole) == sum);
    exact::rotation::normalizing_keeps_the_way(mixed);
    exact::rotation::longer_points_alike(mixed.unit_or_no_turn(), mixed, whole);
}

} // verus!
