//! Rotations and rigid transforms under exact arithmetic.

use crate::exact;
use crate::graph::{Correction, Transform};
use crate::math::{Quat, Vec3};
use crate::scalar::Arith;
use vstd::prelude::*;

verus! {

/// Whether a quaternion has length one.
pub open spec fn is_unit(q: Quat<real>) -> bool {
    q.inner(q) == 1real
}

/// Interpolation starts at `start` and ends at `end`.
pub proof fn lerp_meets_its_ends(start: Vec3<real>, end: Vec3<real>)
    ensures
        start.toward(end, 0real) == start,
        start.toward(end, 1real) == end,
{
    exact::product_by_constants(end.x - start.x);
    exact::product_by_constants(end.y - start.y);
    exact::product_by_constants(end.z - start.z);
}

/// Normalizing keeps a unit quaternion.
pub proof fn unit_is_normal(q: Quat<real>)
    requires
        is_unit(q),
    ensures
        q.unit_or_no_turn() == q,
{
    exact::root_of_one();
    exact::small_counts();
    assert(exact::quotient(1real, 1real) == 1real) by {
        reveal(exact::quotient);
    }
    exact::product_by_constants(q.x);
    exact::product_by_constants(q.y);
    exact::product_by_constants(q.z);
    exact::product_by_constants(q.w);
}

/// Normalizing gives a unit quaternion, where the norm is not zero, and the identity
/// where it is.
pub proof fn normalizing_gives_a_unit(q: Quat<real>, norm: real)
    requires
        exact::is_root(q.inner(q), norm),
    ensures
        is_unit(q.unit_or_no_turn()),
        norm == 0real ==> q.unit_or_no_turn() == Quat::<real>::no_turn(),
        norm != 0real ==> q.unit_or_no_turn() == q.scaled_by(1real.over(norm)),
{
    exact::root_is_unique(q.inner(q), norm);
    exact::small_counts();
    exact::product_by_constants(0real);
    exact::product_by_constants(1real);
    if norm != 0real {
        let k = exact::quotient(1real, norm);
        scaled_square(q.x, k);
        scaled_square(q.y, k);
        scaled_square(q.z, k);
        scaled_square(q.w, k);
        let kk = exact::product(k, k);
        let (xx, yy, zz, ww) = (
            exact::product(q.x, q.x),
            exact::product(q.y, q.y),
            exact::product(q.z, q.z),
            exact::product(q.w, q.w),
        );
        exact::product_of_sum(kk, xx + yy + zz, ww);
        triple_factor(kk, xx, yy, zz);
        // k^2 norm^2 = 1.
        reveal(exact::quotient);
        assert(exact::product(k, norm) == 1real) by {
            reveal(exact::product);
            assert(k * norm == 1real) by (nonlinear_arith)
                requires
                    k == 1real / norm,
                    norm != 0real,
            ;
        }
        scaled_square(k, norm);
        exact::product_commutes(exact::product(norm, norm), kk);
    }
}

proof fn scaled_square(a: real, k: real)
    ensures
        exact::product(exact::product(a, k), exact::product(a, k)) == exact::product(
            exact::product(k, k),
            exact::product(a, a),
        ),
{
    exact::product_commutes(a, k);
    exact::product_regroups(k, a, exact::product(k, a));
    exact::product_swaps(a, k, a);
    exact::product_regroups(k, k, exact::product(a, a));
}

/// `v` stretched by a factor.
spec fn stretched(k: real, v: Vec3<real>) -> Vec3<real> {
    Vec3 { x: exact::product(k, v.x), y: exact::product(k, v.y), z: exact::product(k, v.z) }
}

/// `v` pointing the other way.
spec fn reversed(v: Vec3<real>) -> Vec3<real> {
    Vec3 { x: 0real - v.x, y: 0real - v.y, z: 0real - v.z }
}

/// The squared length of the vector part.
spec fn vector_part_squared(q: Quat<real>) -> real {
    exact::product(q.x, q.x) + exact::product(q.y, q.y) + exact::product(q.z, q.z)
}

proof fn cross_of_sum(q: Quat<real>, a: Vec3<real>, b: Vec3<real>)
    ensures
        q.cross(a.plus(b)) == q.cross(a).plus(q.cross(b)),
{
    exact::product_of_sum(q.y, a.z, b.z);
    exact::product_of_sum(q.z, a.y, b.y);
    exact::product_of_sum(q.z, a.x, b.x);
    exact::product_of_sum(q.x, a.z, b.z);
    exact::product_of_sum(q.x, a.y, b.y);
    exact::product_of_sum(q.y, a.x, b.x);
}

proof fn cross_of_stretched(q: Quat<real>, k: real, a: Vec3<real>)
    ensures
        q.cross(stretched(k, a)) == stretched(k, q.cross(a)),
{
    exact::product_swaps(q.y, k, a.z);
    exact::product_swaps(q.z, k, a.y);
    exact::product_swaps(q.z, k, a.x);
    exact::product_swaps(q.x, k, a.z);
    exact::product_swaps(q.x, k, a.y);
    exact::product_swaps(q.y, k, a.x);
    exact::product_of_difference(k, exact::product(q.y, a.z), exact::product(q.z, a.y));
    exact::product_of_difference(k, exact::product(q.z, a.x), exact::product(q.x, a.z));
    exact::product_of_difference(k, exact::product(q.x, a.y), exact::product(q.y, a.x));
}

/// Reversing the vector part reverses the cross product, and so does reversing the
/// vector.
proof fn cross_of_reversed(q: Quat<real>, p: Quat<real>, a: Vec3<real>)
    requires
        p.x == 0real - q.x,
        p.y == 0real - q.y,
        p.z == 0real - q.z,
    ensures
        p.cross(a) == reversed(q.cross(a)),
        q.cross(reversed(a)) == reversed(q.cross(a)),
{
    exact::product_of_opposite(q.y, a.z);
    exact::product_of_opposite(q.z, a.y);
    exact::product_of_opposite(q.z, a.x);
    exact::product_of_opposite(q.x, a.z);
    exact::product_of_opposite(q.x, a.y);
    exact::product_of_opposite(q.y, a.x);
    exact::product_of_opposite(a.z, q.y);
    exact::product_of_opposite(a.y, q.z);
    exact::product_of_opposite(a.x, q.z);
    exact::product_of_opposite(a.z, q.x);
    exact::product_of_opposite(a.y, q.x);
    exact::product_of_opposite(a.x, q.y);
}

/// The cross product is perpendicular to the vector part.
proof fn cross_is_perpendicular(q: Quat<real>, v: Vec3<real>)
    ensures
        ({
            let c = q.cross(v);
            exact::product(q.x, c.x) + exact::product(q.y, c.y) + exact::product(q.z, c.z) == 0real
        }),
{
    exact::product_of_difference(q.x, exact::product(q.y, v.z), exact::product(q.z, v.y));
    exact::product_of_difference(q.y, exact::product(q.z, v.x), exact::product(q.x, v.z));
    exact::product_of_difference(q.z, exact::product(q.x, v.y), exact::product(q.y, v.x));
    exact::product_swaps(q.x, q.y, v.z);
    exact::product_swaps(q.x, q.z, v.y);
    exact::product_swaps(q.y, q.z, v.x);
}

/// Crossing twice more turns a cross product round and stretches it.
proof fn cross_twice(q: Quat<real>, v: Vec3<real>)
    ensures
        q.cross(q.cross(q.cross(v))) == reversed(
            stretched(vector_part_squared(q), q.cross(v)),
        ),
{
    let c = q.cross(v);
    let n = vector_part_squared(q);
    cross_is_perpendicular(q, v);
    let (xx, yy, zz) = (
        exact::product(q.x, q.x),
        exact::product(q.y, q.y),
        exact::product(q.z, q.z),
    );
    // (xx + yy + zz) c, component by component.
    triple_sum(xx, yy, zz, c.x);
    triple_sum(xx, yy, zz, c.y);
    triple_sum(xx, yy, zz, c.z);
    exact::product_regroups(q.x, q.x, c.x);
    exact::product_regroups(q.y, q.y, c.x);
    exact::product_regroups(q.z, q.z, c.x);
    exact::product_regroups(q.x, q.x, c.y);
    exact::product_regroups(q.y, q.y, c.y);
    exact::product_regroups(q.z, q.z, c.y);
    exact::product_regroups(q.x, q.x, c.z);
    exact::product_regroups(q.y, q.y, c.z);
    exact::product_regroups(q.z, q.z, c.z);
    // The dot product with c, multiplied by each component of q.
    let (dx, dy, dz) = (
        exact::product(q.x, c.x),
        exact::product(q.y, c.y),
        exact::product(q.z, c.z),
    );
    triple_factor(q.x, dx, dy, dz);
    triple_factor(q.y, dx, dy, dz);
    triple_factor(q.z, dx, dy, dz);
    exact::product_by_constants(q.x);
    exact::product_by_constants(q.y);
    exact::product_by_constants(q.z);
    // The outer cross product, expanded.
    exact::product_of_difference(q.y, exact::product(q.x, c.y), exact::product(q.y, c.x));
    exact::product_of_difference(q.z, exact::product(q.z, c.x), exact::product(q.x, c.z));
    exact::product_of_difference(q.z, exact::product(q.y, c.z), exact::product(q.z, c.y));
    exact::product_of_difference(q.x, exact::product(q.x, c.y), exact::product(q.y, c.x));
    exact::product_of_difference(q.x, exact::product(q.z, c.x), exact::product(q.x, c.z));
    exact::product_of_difference(q.y, exact::product(q.y, c.z), exact::product(q.z, c.y));
    exact::product_swaps(q.y, q.x, c.y);
    exact::product_swaps(q.z, q.x, c.z);
    exact::product_swaps(q.z, q.y, c.z);
    exact::product_swaps(q.x, q.y, c.x);
    exact::product_swaps(q.x, q.z, c.x);
    exact::product_swaps(q.y, q.z, c.y);
}

proof fn triple_sum(a: real, b: real, c: real, k: real)
    ensures
        exact::product(a + b + c, k) == exact::product(a, k) + exact::product(b, k)
            + exact::product(c, k),
{
    exact::product_commutes(a + b + c, k);
    exact::product_of_sum(k, a + b, c);
    exact::product_of_sum(k, a, b);
    exact::product_commutes(a, k);
    exact::product_commutes(b, k);
    exact::product_commutes(c, k);
}

proof fn triple_factor(k: real, a: real, b: real, c: real)
    ensures
        exact::product(k, a + b + c) == exact::product(k, a) + exact::product(k, b)
            + exact::product(k, c),
{
    exact::product_of_sum(k, a + b, c);
    exact::product_of_sum(k, a, b);
}

/// A turned vector is `v + 2 w c + 2 d`, with `c = q_xyz x v` and `d = q_xyz x c`.
proof fn turned_expands(q: Quat<real>, v: Vec3<real>)
    ensures
        ({
            let c = q.cross(v);
            let d = q.cross(c);
            q.turned(v) == v.plus(stretched(q.w, c.plus(c))).plus(d.plus(d))
        }),
{
    let c = q.cross(v);
    exact::small_counts();
    exact::product_by_constants(c.x);
    exact::product_by_constants(c.y);
    exact::product_by_constants(c.z);
    cross_of_sum(q, c, c);
}

/// A sum is turned term by term.
pub proof fn turning_is_additive(q: Quat<real>, a: Vec3<real>, b: Vec3<real>)
    ensures
        q.turned(a.plus(b)) == q.turned(a).plus(q.turned(b)),
{
    turned_expands(q, a);
    turned_expands(q, b);
    turned_expands(q, a.plus(b));
    cross_of_sum(q, a, b);
    let (ca, cb) = (q.cross(a), q.cross(b));
    cross_of_sum(q, ca, cb);
    exact::product_of_sum(q.w, ca.x + ca.x, cb.x + cb.x);
    exact::product_of_sum(q.w, ca.y + ca.y, cb.y + cb.y);
    exact::product_of_sum(q.w, ca.z + ca.z, cb.z + cb.z);
}

/// The identity rotation turns nothing.
pub proof fn no_turn_turns_nothing(v: Vec3<real>)
    ensures
        Quat::<real>::no_turn().turned(v) == v,
{
    let q = Quat::<real>::no_turn();
    let none = Vec3 { x: 0real, y: 0real, z: 0real };
    exact::small_counts();
    exact::product_by_constants(v.x);
    exact::product_by_constants(v.y);
    exact::product_by_constants(v.z);
    exact::product_by_constants(0real);
    assert(q.cross(v) == none);
    assert(q.cross(none) == none);
    turned_expands(q, v);
}

/// Both signs of a quaternion turn a vector alike.
pub proof fn opposite_turns_alike(q: Quat<real>, v: Vec3<real>)
    ensures
        q.opposite().turned(v) == q.turned(v),
{
    let p = q.opposite();
    let c = q.cross(v);
    cross_of_reversed(q, p, v);
    cross_of_reversed(q, p, reversed(c));
    cross_of_reversed(q, p, c);
    turned_expands(q, v);
    turned_expands(p, v);
    exact::product_of_opposite(q.w, 0real - (c.x + c.x));
    exact::product_of_opposite(c.x + c.x, q.w);
    exact::product_of_opposite(q.w, 0real - (c.y + c.y));
    exact::product_of_opposite(c.y + c.y, q.w);
    exact::product_of_opposite(q.w, 0real - (c.z + c.z));
    exact::product_of_opposite(c.z + c.z, q.w);
}

/// One component of a vector that is turned and turned back.
proof fn turned_back_component(w: real, n: real, v: real, c: real, d: real)
    requires
        exact::product(w, w) + n == 1real,
    ensures
        ({
            let e = 0real - exact::product(n, c);
            let f = 0real - exact::product(n, d);
            let p = v + exact::product(w, c + c) + (d + d);
            let cp = c + exact::product(w, d + d) + (e + e);
            let dp = d + exact::product(w, e + e) + (f + f);
            p - exact::product(w, cp + cp) + (dp + dp) == v
        }),
{
    let e = 0real - exact::product(n, c);
    let wd = exact::product(w, d);
    exact::product_of_sum(w, c, c);
    exact::product_of_sum(w, d, d);
    exact::product_of_sum(w, e, e);
    exact::product_of_opposite(exact::product(n, c), w);
    let cp = c + exact::product(w, d + d) + (e + e);
    exact::product_of_sum(w, cp, cp);
    exact::product_of_sum(w, c + exact::product(w, d + d), e + e);
    exact::product_of_sum(w, c, exact::product(w, d + d));
    exact::product_of_sum(w, wd, wd);
    exact::product_regroups(w, w, d);
    exact::product_commutes(exact::product(w, w) + n, d);
    exact::product_of_sum(d, exact::product(w, w), n);
    exact::product_commutes(d, exact::product(w, w));
    exact::product_commutes(d, n);
    exact::product_by_constants(d);
}

/// The conjugate of a unit quaternion undoes its rotation.
pub proof fn conjugate_undoes_the_turn(q: Quat<real>, v: Vec3<real>)
    requires
        is_unit(q),
    ensures
        q.conjugated().turned(q.turned(v)) == v,
{
    let back = q.conjugated();
    let n = vector_part_squared(q);
    let w = q.w;
    let c = q.cross(v);
    let d = q.cross(c);
    let p = q.turned(v);
    turned_expands(q, v);
    // The cross product with the turned vector.
    let e = q.cross(d);
    cross_twice(q, v);
    let wc2 = stretched(w, c.plus(c));
    let cp = q.cross(p);
    cross_of_sum(q, v.plus(wc2), d.plus(d));
    cross_of_sum(q, v, wc2);
    cross_of_stretched(q, w, c.plus(c));
    cross_of_sum(q, c, c);
    cross_of_sum(q, d, d);
    let wd2 = stretched(w, d.plus(d));
    assert(cp == c.plus(wd2).plus(e.plus(e)));
    // And the cross product with that.
    let f = q.cross(e);
    let nc = stretched(n, c);
    cross_of_reversed(q, back, nc);
    cross_of_stretched(q, n, c);
    assert(f == reversed(stretched(n, d)));
    let dp = q.cross(cp);
    cross_of_sum(q, c.plus(wd2), e.plus(e));
    cross_of_sum(q, c, wd2);
    cross_of_stretched(q, w, d.plus(d));
    cross_of_sum(q, e, e);
    assert(dp == d.plus(stretched(w, e.plus(e))).plus(f.plus(f)));
    // Turning back.
    turned_expands(back, p);
    cross_of_reversed(q, back, p);
    cross_of_reversed(q, back, reversed(cp));
    cross_of_reversed(q, back, cp);
    assert(back.cross(back.cross(p)) == dp);
    exact::product_of_opposite(cp.x + cp.x, w);
    exact::product_of_opposite(cp.y + cp.y, w);
    exact::product_of_opposite(cp.z + cp.z, w);
    assert(exact::product(w, w) + n == 1real);
    turned_back_component(w, n, v.x, c.x, d.x);
    turned_back_component(w, n, v.y, c.y, d.y);
    turned_back_component(w, n, v.z, c.z, d.z);
}

/// The dot product of two vectors.
pub open spec fn dot(a: Vec3<real>, b: Vec3<real>) -> real {
    a.x.times(b.x).plus(a.y.times(b.y)).plus(a.z.times(b.z))
}

proof fn dot_commutes(a: Vec3<real>, b: Vec3<real>)
    ensures
        dot(a, b) == dot(b, a),
{
    exact::product_commutes(a.x, b.x);
    exact::product_commutes(a.y, b.y);
    exact::product_commutes(a.z, b.z);
}

proof fn dot_of_sum(a: Vec3<real>, b: Vec3<real>, c: Vec3<real>)
    ensures
        dot(a, b.plus(c)) == dot(a, b) + dot(a, c),
{
    exact::product_of_sum(a.x, b.x, c.x);
    exact::product_of_sum(a.y, b.y, c.y);
    exact::product_of_sum(a.z, b.z, c.z);
}

proof fn dot_of_stretched(a: Vec3<real>, k: real, b: Vec3<real>)
    ensures
        dot(a, stretched(k, b)) == exact::product(k, dot(a, b)),
{
    exact::product_swaps(a.x, k, b.x);
    exact::product_swaps(a.y, k, b.y);
    exact::product_swaps(a.z, k, b.z);
    triple_factor(k, exact::product(a.x, b.x), exact::product(a.y, b.y), exact::product(a.z, b.z));
}

/// Crossing with the vector part moves from one factor of a dot product to the other,
/// with the opposite sign.
proof fn cross_moves_across(q: Quat<real>, a: Vec3<real>, b: Vec3<real>)
    ensures
        dot(a, q.cross(b)) == 0real - dot(q.cross(a), b),
{
    let ca = q.cross(a);
    dot_commutes(ca, b);
    exact::product_of_difference(a.x, exact::product(q.y, b.z), exact::product(q.z, b.y));
    exact::product_of_difference(a.y, exact::product(q.z, b.x), exact::product(q.x, b.z));
    exact::product_of_difference(a.z, exact::product(q.x, b.y), exact::product(q.y, b.x));
    exact::product_of_difference(b.x, exact::product(q.y, a.z), exact::product(q.z, a.y));
    exact::product_of_difference(b.y, exact::product(q.z, a.x), exact::product(q.x, a.z));
    exact::product_of_difference(b.z, exact::product(q.x, a.y), exact::product(q.y, a.x));
    // Every term is a product of one component of each of the three.
    exact::product_swaps(a.x, q.y, b.z);
    exact::product_swaps(a.x, q.z, b.y);
    exact::product_swaps(a.y, q.z, b.x);
    exact::product_swaps(a.y, q.x, b.z);
    exact::product_swaps(a.z, q.x, b.y);
    exact::product_swaps(a.z, q.y, b.x);
    exact::product_swaps(b.x, q.y, a.z);
    exact::product_swaps(b.x, q.z, a.y);
    exact::product_swaps(b.y, q.z, a.x);
    exact::product_swaps(b.y, q.x, a.z);
    exact::product_swaps(b.z, q.x, a.y);
    exact::product_swaps(b.z, q.y, a.x);
    exact::product_commutes(a.x, b.z);
    exact::product_commutes(a.x, b.y);
    exact::product_commutes(a.y, b.x);
    exact::product_commutes(a.y, b.z);
    exact::product_commutes(a.z, b.y);
    exact::product_commutes(a.z, b.x);
}

/// Turning by a unit quaternion keeps the length of a vector.
pub proof fn turning_keeps_lengths(q: Quat<real>, v: Vec3<real>)
    requires
        is_unit(q),
    ensures
        dot(q.turned(v), q.turned(v)) == dot(v, v),
{
    let c = q.cross(v);
    let d = q.cross(c);
    let p = q.turned(v);
    let (w, n) = (q.w, vector_part_squared(q));
    turned_expands(q, v);
    let c2 = c.plus(c);
    let wc = stretched(w, c2);
    let d2 = d.plus(d);
    let front = v.plus(wc);
    // The dot product, multiplied out.
    dot_of_sum(p, front, d2);
    dot_commutes(p, front);
    dot_commutes(p, d2);
    dot_of_sum(front, front, d2);
    dot_of_sum(d2, front, d2);
    dot_commutes(front, d2);
    dot_of_sum(front, v, wc);
    dot_commutes(front, v);
    dot_commutes(front, wc);
    dot_of_sum(v, v, wc);
    dot_of_sum(wc, v, wc);
    dot_commutes(v, wc);
    dot_of_sum(d2, v, wc);
    dot_of_stretched(v, w, c2);
    dot_of_stretched(wc, w, c2);
    dot_of_stretched(c2, w, c2);
    dot_commutes(wc, c2);
    dot_of_stretched(d2, w, c2);
    dot_commutes(d2, v);
    dot_of_sum(v, c, c);
    dot_of_sum(v, d, d);
    dot_of_sum(c2, c, c);
    dot_commutes(c2, c);
    dot_of_sum(c, c, c);
    dot_of_sum(d2, c, c);
    dot_commutes(d2, c);
    dot_of_sum(c, d, d);
    dot_of_sum(d2, d, d);
    dot_commutes(d2, d);
    dot_of_sum(d, d, d);
    let cc = dot(c, c);
    // What the cross products say of the terms.
    cross_moves_across(q, v, v);
    dot_commutes(c, v);
    assert(dot(v, c) == 0real);
    cross_moves_across(q, c, c);
    dot_commutes(d, c);
    assert(dot(c, d) == 0real);
    cross_moves_across(q, v, c);
    assert(dot(v, d) == 0real - cc);
    cross_moves_across(q, d, c);
    cross_twice(q, v);
    let nc = stretched(n, c);
    dot_commutes(reversed(nc), c);
    dot_of_stretched(c, n, c);
    exact::product_of_opposite(nc.x, c.x);
    exact::product_of_opposite(nc.y, c.y);
    exact::product_of_opposite(nc.z, c.z);
    assert(dot(d, d) == exact::product(n, cc));
    assert(dot(d2, d2) == exact::product(n, cc) + exact::product(n, cc) + exact::product(n, cc)
        + exact::product(n, cc));
    // The factor of the remaining terms is one.
    exact::product_by_constants(w);
    let cc4 = cc + cc + cc + cc;
    assert(dot(c2, c2) == cc4);
    exact::product_regroups(w, w, cc4);
    assert(dot(wc, wc) == exact::product(exact::product(w, w), cc4));
    exact::product_of_sum(exact::product(w, w), cc + cc, cc + cc);
    exact::product_of_sum(exact::product(w, w), cc, cc);
    exact::product_commutes(exact::product(w, w) + n, cc);
    exact::product_of_sum(cc, exact::product(w, w), n);
    exact::product_commutes(cc, exact::product(w, w));
    exact::product_commutes(cc, n);
    exact::product_by_constants(cc);
    assert(exact::product(w, w) + n == 1real);
}

/// A rigid transform keeps the distance between any two points: points that share a
/// correction keep their shape.
pub proof fn rigid_transforms_keep_distances(
    transform: Transform<real>,
    a: Vec3<real>,
    b: Vec3<real>,
)
    requires
        is_unit(transform.rotation),
    ensures
        transform.moved(a).gap_squared(transform.moved(b)) == a.gap_squared(b),
{
    let q = transform.rotation;
    let apart = Vec3 { x: a.x - b.x, y: a.y - b.y, z: a.z - b.z };
    assert(b.plus(apart) == a);
    turning_is_additive(q, b, apart);
    turning_keeps_lengths(q, apart);
    let (ma, mb, turned) = (transform.moved(a), transform.moved(b), q.turned(apart));
    assert(ma.x - mb.x == turned.x);
    assert(ma.y - mb.y == turned.y);
    assert(ma.z - mb.z == turned.z);
}

/// Interpolation between rotations starts at `start` and ends at `end`, in the sign that
/// lies on the side of `start`.
pub proof fn nlerp_meets_its_ends(start: Quat<real>, end: Quat<real>)
    requires
        is_unit(start),
        is_unit(end),
    ensures
        start.toward(end, 0real) == start,
        start.toward(end, 1real) == if start.inner(end) < 0real {
            end.opposite()
        } else {
            end
        },
{
    let target = end.aligned_with(start);
    exact::small_counts();
    opposite_is_unit(end);
    exact::product_by_constants(target.x - start.x);
    exact::product_by_constants(target.y - start.y);
    exact::product_by_constants(target.z - start.z);
    exact::product_by_constants(target.w - start.w);
    unit_is_normal(start);
    unit_is_normal(target);
}

/// Interpolation takes the short path whichever sign the end has.
pub proof fn nlerp_ignores_the_sign_of_the_end(start: Quat<real>, end: Quat<real>, amount: real)
    requires
        start.inner(end) != 0real,
    ensures
        start.toward(end.opposite(), amount) == start.toward(end, amount),
{
    exact::small_counts();
    inner_of_opposite(start, end);
    assert(end.opposite().opposite() == end);
    assert(end.opposite().aligned_with(start) == end.aligned_with(start));
}

/// Interpolation gives a unit quaternion, also where it extrapolates.
pub proof fn nlerp_gives_a_unit(start: Quat<real>, end: Quat<real>, amount: real)
    requires
        exact::roots_exist(),
    ensures
        is_unit(start.toward(end, amount)),
{
    let target = end.aligned_with(start);
    let blended = Quat {
        x: start.x.plus(target.x.minus(start.x).times(amount)),
        y: start.y.plus(target.y.minus(start.y).times(amount)),
        z: start.z.plus(target.z.minus(start.z).times(amount)),
        w: start.w.plus(target.w.minus(start.w).times(amount)),
    };
    exact::square_is_positive(blended.x);
    exact::square_is_positive(blended.y);
    exact::square_is_positive(blended.z);
    exact::square_is_positive(blended.w);
    let square = blended.inner(blended);
    assert(exact::is_root(square, square.root()));
    normalizing_gives_a_unit(blended, square.root());
}

/// The inverse of a rigid transform undoes it: warping a drifted point by the
/// correction that is stored for its drift puts it back.
pub proof fn inverse_undoes_the_transform(transform: Transform<real>, point: Vec3<real>)
    requires
        is_unit(transform.rotation),
    ensures
        transform.undone().moved(transform.moved(point)) == point,
{
    let back = transform.rotation.conjugated();
    let turned = transform.rotation.turned(point);
    turning_is_additive(back, turned, transform.translation);
    conjugate_undoes_the_turn(transform.rotation, point);
}

/// The opposite of a unit quaternion is a unit quaternion.
proof fn opposite_is_unit(q: Quat<real>)
    requires
        is_unit(q),
    ensures
        is_unit(q.opposite()),
{
    exact::product_of_opposite(q.x, 0real - q.x);
    exact::product_of_opposite(q.x, q.x);
    exact::product_of_opposite(q.y, 0real - q.y);
    exact::product_of_opposite(q.y, q.y);
    exact::product_of_opposite(q.z, 0real - q.z);
    exact::product_of_opposite(q.z, q.z);
    exact::product_of_opposite(q.w, 0real - q.w);
    exact::product_of_opposite(q.w, q.w);
}

/// Scaling a unit rotation fully keeps it, up to the sign that lies on the side of the
/// identity.
pub(crate) proof fn fully_scaled_rotation(q: Quat<real>)
    requires
        is_unit(q),
    ensures
        Quat::<real>::no_turn().toward(q, 1real) == q.aligned_with(Quat::<real>::no_turn()),
        is_unit(q.aligned_with(Quat::<real>::no_turn())),
{
    let none = Quat::<real>::no_turn();
    let target = q.aligned_with(none);
    exact::small_counts();
    opposite_is_unit(q);
    exact::product_by_constants(target.x - none.x);
    exact::product_by_constants(target.y - none.y);
    exact::product_by_constants(target.z - none.z);
    exact::product_by_constants(target.w - none.w);
    unit_is_normal(target);
}

/// Opposite quaternions have opposite dot products with a third.
pub(crate) proof fn inner_of_opposite(a: Quat<real>, b: Quat<real>)
    ensures
        a.opposite().inner(b) == 0real - a.inner(b),
        a.inner(b.opposite()) == 0real - a.inner(b),
{
    exact::product_of_opposite(a.x, b.x);
    exact::product_of_opposite(a.y, b.y);
    exact::product_of_opposite(a.z, b.z);
    exact::product_of_opposite(a.w, b.w);
    exact::product_of_opposite(b.x, a.x);
    exact::product_of_opposite(b.y, a.y);
    exact::product_of_opposite(b.z, a.z);
    exact::product_of_opposite(b.w, a.w);
}

/// Normalizing opposite quaternions gives rotations that turn alike.
pub(crate) proof fn opposites_normalize_alike(q: Quat<real>, v: Vec3<real>)
    ensures
        q.opposite().unit_or_no_turn().turned(v) == q.unit_or_no_turn().turned(v),
{
    let p = q.opposite();
    inner_of_opposite(q, p);
    inner_of_opposite(q, q);
    assert(p.inner(p) == q.inner(q));
    let k = exact::quotient(1real, q.inner(q).root());
    exact::product_of_opposite(q.x, k);
    exact::product_of_opposite(q.y, k);
    exact::product_of_opposite(q.z, k);
    exact::product_of_opposite(q.w, k);
    assert(p.scaled_by(k) == q.scaled_by(k).opposite());
    exact::small_counts();
    opposite_turns_alike(q.scaled_by(k), v);
}

/// A delta scaled by zero is the identity; scaled by one it moves every point as the
/// delta itself does.
pub proof fn scaling_meets_its_ends(transform: Transform<real>, point: Vec3<real>)
    requires
        is_unit(transform.rotation),
    ensures
        transform.partly(0real) == Transform::<real>::stay(),
        transform.partly(0real).moved(point) == point,
        transform.partly(1real).moved(point) == transform.moved(point),
{
    exact::small_counts();
    let none = Quat::<real>::no_turn();
    let q = transform.rotation;
    let target = q.aligned_with(none);
    lerp_meets_its_ends(Vec3::origin(), transform.translation);
    exact::product_by_constants(0real);
    exact::product_by_constants(1real);
    assert(is_unit(none));
    unit_is_normal(none);
    exact::product_by_constants(target.x - none.x);
    exact::product_by_constants(target.y - none.y);
    exact::product_by_constants(target.z - none.z);
    exact::product_by_constants(target.w - none.w);
    assert(none.toward(q, 0real) == none);
    no_turn_turns_nothing(point);
    opposite_is_unit(q);
    opposite_turns_alike(q, point);
    unit_is_normal(target);
    assert(none.toward(q, 1real) == target);
}

/// Scaling a correction by zero leaves every node in place.
pub proof fn scaled_to_zero_corrects_nothing(correction: Correction<real>, i: int)
    requires
        0 <= i < correction.transforms.len(),
        is_unit(correction.transforms[i].rotation),
    ensures
        correction.partly(0real).transforms[i] == Transform::<real>::stay(),
        correction.partly(0real).nodes == correction.nodes,
{
    scaling_meets_its_ends(correction.transforms[i], Vec3::origin());
}

/// A scaled translation is proportional to the amount: each of its coordinates is the
/// amount times that of the full one, also where the amount lies outside of `[0, 1]`. So
/// the scaled translation is linear in the amount.
pub proof fn scaled_translation_is_linear(transform: Transform<real>, a: real, b: real)
    ensures
        ({
            let full = transform.translation;
            let part = transform.partly(a).translation;
            &&& part.x == exact::product(a, full.x)
            &&& part.y == exact::product(a, full.y)
            &&& part.z == exact::product(a, full.z)
        }),
        transform.partly(a + b).translation == transform.partly(a).translation.plus(
            transform.partly(b).translation,
        ),
{
    let full = transform.translation;
    exact::small_counts();
    exact::product_commutes(full.x - 0real, a);
    exact::product_commutes(full.y - 0real, a);
    exact::product_commutes(full.z - 0real, a);
    exact::product_of_sum(full.x, a, b);
    exact::product_of_sum(full.y, a, b);
    exact::product_of_sum(full.z, a, b);
}

/// Every delta of a scaled correction is the delta of the same node, scaled: it shifts by
/// the amount times the full shift, and turns along the chord from no turn to the full
/// turn. The nodes and the bandwidths stay as they are.
pub proof fn scaling_is_delta_by_delta(correction: Correction<real>, amount: real, i: int)
    requires
        exact::roots_exist(),
        0 <= i < correction.transforms.len(),
    ensures
        ({
            let scaled = correction.partly(amount);
            let full = correction.transforms[i];
            let part = scaled.transforms[i];
            &&& scaled.nodes == correction.nodes
            &&& scaled.transforms.len() == correction.transforms.len()
            &&& scaled.blend_sigma == correction.blend_sigma
            &&& scaled.blend_time_sigma == correction.blend_time_sigma
            &&& part.translation.x == exact::product(amount, full.translation.x)
            &&& part.translation.y == exact::product(amount, full.translation.y)
            &&& part.translation.z == exact::product(amount, full.translation.z)
            &&& is_unit(part.rotation)
            &&& lies_along(
                part.rotation,
                chord(
                    Quat::<real>::no_turn(),
                    if full.rotation.w < 0real {
                        full.rotation.opposite()
                    } else {
                        full.rotation
                    },
                    amount,
                ),
            )
        }),
{
    let full = correction.transforms[i];
    let none = Quat::<real>::no_turn();
    exact::small_counts();
    scaled_translation_is_linear(full, amount, 0real);
    nlerp_stays_on_the_chord(none, full.rotation, amount);
    exact::product_by_constants(full.rotation.x);
    exact::product_by_constants(full.rotation.y);
    exact::product_by_constants(full.rotation.z);
    exact::product_by_constants(full.rotation.w);
}

/// The point `amount` of the way along the straight line from one quaternion to another.
pub open spec fn chord(start: Quat<real>, end: Quat<real>, amount: real) -> Quat<real> {
    let rest = 1real - amount;
    Quat {
        x: exact::product(rest, start.x) + exact::product(amount, end.x),
        y: exact::product(rest, start.y) + exact::product(amount, end.y),
        z: exact::product(rest, start.z) + exact::product(amount, end.z),
        w: exact::product(rest, start.w) + exact::product(amount, end.w),
    }
}

/// Whether `unit` points the way `q` does: `q` is a positive multiple of it. A `q` without
/// length points no way, and the identity stands for it.
pub open spec fn lies_along(unit: Quat<real>, q: Quat<real>) -> bool {
    if q == (Quat { x: 0real, y: 0real, z: 0real, w: 0real }) {
        unit == Quat::<real>::no_turn()
    } else {
        exists|length: real| 0real < length && #[trigger] unit.scaled_by(length) == q
    }
}

/// Normalizing keeps the way a quaternion points.
pub proof fn normalizing_keeps_the_way(q: Quat<real>)
    requires
        exact::roots_exist(),
    ensures
        is_unit(q.unit_or_no_turn()),
        lies_along(q.unit_or_no_turn(), q),
{
    let square = q.inner(q);
    exact::square_is_positive(q.x);
    exact::square_is_positive(q.y);
    exact::square_is_positive(q.z);
    exact::square_is_positive(q.w);
    exact::product_by_constants(0real);
    let norm = square.root();
    assert(exact::is_root(square, norm));
    normalizing_gives_a_unit(q, norm);
    if q == (Quat { x: 0real, y: 0real, z: 0real, w: 0real }) {
        if norm != 0real {
            exact::square_is_positive(norm);
        }
    } else {
        assert(norm != 0real) by {
            exact::product_by_constants(norm);
        }
        let k = exact::quotient(1real, norm);
        let unit = q.unit_or_no_turn();
        exact::small_counts();
        assert(exact::product(k, norm) == 1real) by {
            reveal(exact::quotient);
            reveal(exact::product);
            assert((1real / norm) * norm == 1real) by (nonlinear_arith)
                requires
                    norm != 0real,
            ;
        }
        exact::product_regroups(q.x, k, norm);
        exact::product_regroups(q.y, k, norm);
        exact::product_regroups(q.z, k, norm);
        exact::product_regroups(q.w, k, norm);
        exact::product_by_constants(q.x);
        exact::product_by_constants(q.y);
        exact::product_by_constants(q.z);
        exact::product_by_constants(q.w);
        assert(unit.scaled_by(norm) == q);
    }
}

/// Interpolation between rotations points the way of the straight line from the start to
/// the end on its side, for every amount.
pub proof fn nlerp_stays_on_the_chord(start: Quat<real>, end: Quat<real>, amount: real)
    requires
        exact::roots_exist(),
    ensures
        is_unit(start.toward(end, amount)),
        lies_along(
            start.toward(end, amount),
            chord(
                start,
                if start.inner(end) < 0real {
                    end.opposite()
                } else {
                    end
                },
                amount,
            ),
        ),
{
    let target = end.aligned_with(start);
    exact::small_counts();
    let blended = chord(start, target, amount);
    lerp_is_a_mean(start.x, target.x, amount);
    lerp_is_a_mean(start.y, target.y, amount);
    lerp_is_a_mean(start.z, target.z, amount);
    lerp_is_a_mean(start.w, target.w, amount);
    normalizing_keeps_the_way(blended);
    assert(start.toward(end, amount) == blended.unit_or_no_turn());
}

proof fn lerp_is_a_mean(start: real, end: real, amount: real)
    ensures
        start + exact::product(end - start, amount) == exact::product(1real - amount, start)
            + exact::product(amount, end),
{
    exact::product_commutes(end - start, amount);
    exact::product_of_difference(amount, end, start);
    exact::product_commutes(1real - amount, start);
    exact::product_of_difference(start, 1real, amount);
    exact::product_by_constants(start);
    exact::product_commutes(start, amount);
}

/// Interpolation between points follows the straight line from one to the other, in every
/// coordinate and for every amount.
pub proof fn lerp_follows_the_line(start: Vec3<real>, end: Vec3<real>, amount: real)
    ensures
        ({
            let at = start.toward(end, amount);
            let rest = 1real - amount;
            &&& at.x == exact::product(rest, start.x) + exact::product(amount, end.x)
            &&& at.y == exact::product(rest, start.y) + exact::product(amount, end.y)
            &&& at.z == exact::product(rest, start.z) + exact::product(amount, end.z)
        }),
{
    lerp_is_a_mean(start.x, end.x, amount);
    lerp_is_a_mean(start.y, end.y, amount);
    lerp_is_a_mean(start.z, end.z, amount);
}

/// A quaternion about the vertical axis turns the plane counterclockwise by twice the angle
/// of which it holds the sine and the cosine, and keeps every height.
pub proof fn vertical_turn(s: real, c: real, v: Vec3<real>)
    requires
        exact::product(s, s) + exact::product(c, c) == 1real,
    ensures
        ({
            let q = Quat { x: 0real, y: 0real, z: s, w: c };
            let cosine = exact::product(c, c) - exact::product(s, s);
            let sine = exact::product(2real, exact::product(s, c));
            &&& is_unit(q)
            &&& q.turned(v).x == exact::product(cosine, v.x) - exact::product(sine, v.y)
            &&& q.turned(v).y == exact::product(sine, v.x) + exact::product(cosine, v.y)
            &&& q.turned(v).z == v.z
        }),
{
    let q = Quat { x: 0real, y: 0real, z: s, w: c };
    let (ss, cc, sc) = (exact::product(s, s), exact::product(c, c), exact::product(s, c));
    let (sx, sy) = (exact::product(s, v.x), exact::product(s, v.y));
    exact::product_by_constants(0real);
    exact::product_by_constants(v.x);
    exact::product_by_constants(v.y);
    exact::product_by_constants(v.z);
    exact::product_by_constants(sx);
    exact::product_by_constants(sy);
    exact::product_by_constants(0real - sy);
    exact::product_by_constants(sc);
    exact::product_by_constants(c);
    exact::product_by_constants(s);
    turned_expands(q, v);
    let c1 = q.cross(v);
    assert(c1.x == 0real - sy && c1.y == sx && c1.z == 0real);
    exact::product_of_opposite(sy, s);
    let c2 = q.cross(c1);
    assert(c2.x == 0real - exact::product(s, sx) && c2.y == 0real - exact::product(s, sy) && c2.z
        == 0real);
    exact::product_regroups(s, s, v.x);
    exact::product_regroups(s, s, v.y);
    // The terms with the real part.
    exact::product_of_sum(c, 0real - sy, 0real - sy);
    exact::product_of_sum(c, sx, sx);
    exact::product_of_opposite(sy, c);
    exact::product_regroups(c, s, v.x);
    exact::product_regroups(c, s, v.y);
    exact::product_commutes(c, s);
    exact::product_commutes(cc - ss, v.x);
    exact::product_of_difference(v.x, cc, ss);
    exact::product_commutes(v.x, cc);
    exact::product_commutes(v.x, ss);
    exact::product_commutes(cc - ss, v.y);
    exact::product_of_difference(v.y, cc, ss);
    exact::product_commutes(v.y, cc);
    exact::product_commutes(v.y, ss);
    exact::product_commutes(sc + sc, v.x);
    exact::product_of_sum(v.x, sc, sc);
    exact::product_commutes(v.x, sc);
    exact::product_commutes(sc + sc, v.y);
    exact::product_of_sum(v.y, sc, sc);
    exact::product_commutes(v.y, sc);
    // A coordinate is the sum of its two parts.
    exact::product_commutes(ss + cc, v.x);
    exact::product_of_sum(v.x, ss, cc);
    exact::product_commutes(ss + cc, v.y);
    exact::product_of_sum(v.y, ss, cc);
}

/// A rotation about any axis is one about the vertical, with the coordinates taken round:
/// renaming x, y, z to y, z, x throughout renames the result.
pub proof fn turning_treats_the_axes_alike(q: Quat<real>, v: Vec3<real>)
    ensures
        ({
            let round = Quat { x: q.z, y: q.x, z: q.y, w: q.w };
            let turned = q.turned(v);
            round.turned(Vec3 { x: v.z, y: v.x, z: v.y }) == (Vec3 {
                x: turned.z,
                y: turned.x,
                z: turned.y,
            })
        }),
{
}

/// A transform turns about the origin and then shifts: the origin goes to the translation,
/// and a step from any point becomes the turned step.
pub proof fn transform_turns_and_then_shifts(
    transform: Transform<real>,
    point: Vec3<real>,
    step: Vec3<real>,
)
    ensures
        transform.moved(Vec3::origin()) == transform.translation,
        transform.moved(point.plus(step)) == transform.moved(point).plus(
            transform.rotation.turned(step),
        ),
{
    let origin = Vec3::<real>::origin();
    exact::small_counts();
    turning_is_additive(transform.rotation, point, step);
    turning_is_additive(transform.rotation, origin, origin);
    assert(origin.plus(origin) == origin);
}

/// A positive multiple of a quaternion points the same way.
pub(crate) proof fn longer_points_alike(unit: Quat<real>, q: Quat<real>, factor: real)
    requires
        0real < factor,
        lies_along(unit, q),
    ensures
        lies_along(unit, q.scaled_by(factor)),
{
    let none = Quat { x: 0real, y: 0real, z: 0real, w: 0real };
    let longer = q.scaled_by(factor);
    exact::product_by_constants(factor);
    if q != none {
        let length = choose|length: real|
            0real < length && #[trigger] unit.scaled_by(length) == q;
        let total = exact::product(length, factor);
        exact::product_is_monotone(0real, length, factor);
        exact::product_regroups(unit.x, length, factor);
        exact::product_regroups(unit.y, length, factor);
        exact::product_regroups(unit.z, length, factor);
        exact::product_regroups(unit.w, length, factor);
        assert(unit.scaled_by(total) == longer);
        if longer == none {
            factor_vanishes(q.x, factor);
            factor_vanishes(q.y, factor);
            factor_vanishes(q.z, factor);
            factor_vanishes(q.w, factor);
        }
    }
}

proof fn factor_vanishes(a: real, factor: real)
    requires
        0real < factor,
        exact::product(a, factor) == 0real,
    ensures
        a == 0real,
{
    exact::product_by_constants(factor);
    if a < 0real {
        exact::product_is_monotone(a, 0real, factor);
    } else if 0real < a {
        exact::product_is_monotone(0real, a, factor);
    }
}

} // verus!
