//! Small SE(3) math: vectors, quaternions, and the blend primitives (nlerp for
//! rotation, lerp for translation). Blend parameters are allowed outside [0, 1]
//! so callers can extrapolate past the ends of the node range.

use crate::scalar::{Arith, Scalar};
use vstd::prelude::*;

verus! {

#[derive(Clone, Copy, Debug, PartialEq)]
pub struct Vec3<S> {
    pub x: S,
    pub y: S,
    pub z: S,
}

impl<A: Arith> Vec3<A> {
    /// The zero vector.
    pub open spec fn origin() -> Self {
        Vec3 { x: A::of_count(0), y: A::of_count(0), z: A::of_count(0) }
    }

    /// The point that lies `amount` of the way from `self` to `end`.
    pub open spec fn toward(self, end: Self, amount: A) -> Self {
        Vec3 {
            x: self.x.plus(end.x.minus(self.x).times(amount)),
            y: self.y.plus(end.y.minus(self.y).times(amount)),
            z: self.z.plus(end.z.minus(self.z).times(amount)),
        }
    }

    pub open spec fn plus(self, other: Self) -> Self {
        Vec3 { x: self.x.plus(other.x), y: self.y.plus(other.y), z: self.z.plus(other.z) }
    }

    /// The squared distance between two points.
    pub open spec fn gap_squared(self, other: Self) -> A {
        let dx = self.x.minus(other.x);
        let dy = self.y.minus(other.y);
        let dz = self.z.minus(other.z);
        dx.times(dx).plus(dy.times(dy)).plus(dz.times(dz))
    }

    /// The Euclidean distance between two points.
    pub open spec fn gap(self, other: Self) -> A {
        self.gap_squared(other).root()
    }
}

impl<S: Scalar> Vec3<S> {
    pub fn new(x: S, y: S, z: S) -> (r: Self)
        ensures
            r == (Vec3 { x, y, z }),
    {
        Vec3 { x, y, z }
    }

    /// The zero vector.
    pub fn zero() -> (r: Self)
        ensures
            r == Self::origin(),
    {
        Vec3 { x: S::from_count(0), y: S::from_count(0), z: S::from_count(0) }
    }
}

/// Linear interpolation/extrapolation between two translations. `amount`
/// outside [0, 1] extrapolates along the same line.
pub fn lerp_vec3<S: Scalar>(start: Vec3<S>, end: Vec3<S>, amount: S) -> (r: Vec3<S>)
    ensures
        r == start.toward(end, amount),
{
    Vec3 {
        x: start.x.add(end.x.sub(start.x).mul(amount)),
        y: start.y.add(end.y.sub(start.y).mul(amount)),
        z: start.z.add(end.z.sub(start.z).mul(amount)),
    }
}

/// The Euclidean distance between two points.
pub(crate) fn distance<S: Scalar>(a: Vec3<S>, b: Vec3<S>) -> (r: S)
    ensures
        r == a.gap(b),
{
    let dx = a.x.sub(b.x);
    let dy = a.y.sub(b.y);
    let dz = a.z.sub(b.z);
    dx.mul(dx).add(dy.mul(dy)).add(dz.mul(dz)).sqrt()
}

/// Quaternion in (x, y, z, w) order.
#[derive(Clone, Copy, Debug, PartialEq)]
pub struct Quat<S> {
    pub x: S,
    pub y: S,
    pub z: S,
    pub w: S,
}

impl<A: Arith> Quat<A> {
    /// The rotation that moves nothing.
    pub open spec fn no_turn() -> Self {
        Quat { x: A::of_count(0), y: A::of_count(0), z: A::of_count(0), w: A::of_count(1) }
    }

    /// The four-dimensional dot product.
    pub open spec fn inner(self, other: Self) -> A {
        self.x.times(other.x).plus(self.y.times(other.y)).plus(self.z.times(other.z)).plus(
            self.w.times(other.w),
        )
    }

    pub open spec fn scaled_by(self, factor: A) -> Self {
        Quat {
            x: self.x.times(factor),
            y: self.y.times(factor),
            z: self.z.times(factor),
            w: self.w.times(factor),
        }
    }

    /// `self` over its norm, or the identity for a quaternion without length.
    pub open spec fn unit_or_no_turn(self) -> Self {
        let norm = self.inner(self).root();
        if norm.same(A::of_count(0)) {
            Self::no_turn()
        } else {
            self.scaled_by(A::of_count(1).over(norm))
        }
    }

    /// The same rotation with every component negated.
    pub open spec fn opposite(self) -> Self {
        Quat {
            x: self.x.negated(),
            y: self.y.negated(),
            z: self.z.negated(),
            w: self.w.negated(),
        }
    }

    /// Inverse rotation for a unit quaternion.
    pub open spec fn conjugated(self) -> Self {
        Quat { x: self.x.negated(), y: self.y.negated(), z: self.z.negated(), w: self.w }
    }

    /// The cross product of the vector part with `v`.
    pub open spec fn cross(self, v: Vec3<A>) -> Vec3<A> {
        Vec3 {
            x: self.y.times(v.z).minus(self.z.times(v.y)),
            y: self.z.times(v.x).minus(self.x.times(v.z)),
            z: self.x.times(v.y).minus(self.y.times(v.x)),
        }
    }

    /// `v` turned by this (assumed unit) quaternion: with `t = 2 (q_xyz x v)`,
    /// the result is `v + q_w t + q_xyz x t`.
    pub open spec fn turned(self, v: Vec3<A>) -> Vec3<A> {
        let c = self.cross(v);
        let two = A::of_count(2);
        let t = Vec3 { x: two.times(c.x), y: two.times(c.y), z: two.times(c.z) };
        let ct = self.cross(t);
        Vec3 {
            x: v.x.plus(self.w.times(t.x)).plus(ct.x),
            y: v.y.plus(self.w.times(t.y)).plus(ct.y),
            z: v.z.plus(self.w.times(t.z)).plus(ct.z),
        }
    }

    /// The sign of `self` that lies on the same side as `start`, so that the
    /// shorter of the two paths between them is taken.
    pub open spec fn aligned_with(self, start: Self) -> Self {
        if start.inner(self).below(A::of_count(0)) {
            self.opposite()
        } else {
            self
        }
    }

    /// The unit quaternion `amount` of the way from `self` to `end`.
    pub open spec fn toward(self, end: Self, amount: A) -> Self {
        let target = end.aligned_with(self);
        (Quat {
            x: self.x.plus(target.x.minus(self.x).times(amount)),
            y: self.y.plus(target.y.minus(self.y).times(amount)),
            z: self.z.plus(target.z.minus(self.z).times(amount)),
            w: self.w.plus(target.w.minus(self.w).times(amount)),
        }).unit_or_no_turn()
    }
}

impl<S: Scalar> Quat<S> {
    pub fn new(x: S, y: S, z: S, w: S) -> (r: Self)
        ensures
            r == (Quat { x, y, z, w }),
    {
        Quat { x, y, z, w }
    }

    /// The rotation that moves nothing.
    pub fn identity() -> (r: Self)
        ensures
            r == Self::no_turn(),
    {
        Quat { x: S::from_count(0), y: S::from_count(0), z: S::from_count(0), w: S::from_count(1) }
    }

    /// Normalize, falling back to identity for a zero-norm quaternion.
    pub fn normalized_or_identity(self) -> (r: Self)
        ensures
            r == self.unit_or_no_turn(),
    {
        let norm = self.dot(self).sqrt();
        if norm.eq(S::from_count(0)) {
            Quat::identity()
        } else {
            let inverse = S::from_count(1).div(norm);
            Quat {
                x: self.x.mul(inverse),
                y: self.y.mul(inverse),
                z: self.z.mul(inverse),
                w: self.w.mul(inverse),
            }
        }
    }

    pub(crate) fn dot(self, other: Self) -> (r: S)
        ensures
            r == self.inner(other),
    {
        self.x.mul(other.x).add(self.y.mul(other.y)).add(self.z.mul(other.z)).add(
            self.w.mul(other.w),
        )
    }

    fn negated(self) -> (r: Self)
        ensures
            r == self.opposite(),
    {
        Quat { x: self.x.neg(), y: self.y.neg(), z: self.z.neg(), w: self.w.neg() }
    }

    /// Inverse rotation for a unit quaternion.
    pub fn conjugate(self) -> (r: Self)
        ensures
            r == self.conjugated(),
    {
        Quat { x: self.x.neg(), y: self.y.neg(), z: self.z.neg(), w: self.w }
    }

    /// Rotate a vector by this (assumed unit) quaternion: q * v * q^-1.
    pub fn rotate(self, vector: Vec3<S>) -> (r: Vec3<S>)
        ensures
            r == self.turned(vector),
    {
        // t = 2 * cross(q_xyz, v); result = v + q_w * t + cross(q_xyz, t)
        let cross_x = self.y.mul(vector.z).sub(self.z.mul(vector.y));
        let cross_y = self.z.mul(vector.x).sub(self.x.mul(vector.z));
        let cross_z = self.x.mul(vector.y).sub(self.y.mul(vector.x));

        let two = S::from_count(2);
        let t_x = two.mul(cross_x);
        let t_y = two.mul(cross_y);
        let t_z = two.mul(cross_z);

        let cross_t_x = self.y.mul(t_z).sub(self.z.mul(t_y));
        let cross_t_y = self.z.mul(t_x).sub(self.x.mul(t_z));
        let cross_t_z = self.x.mul(t_y).sub(self.y.mul(t_x));

        Vec3 {
            x: vector.x.add(self.w.mul(t_x)).add(cross_t_x),
            y: vector.y.add(self.w.mul(t_y)).add(cross_t_y),
            z: vector.z.add(self.w.mul(t_z)).add(cross_t_z),
        }
    }
}

/// Normalized linear interpolation between two rotations. Cheaper than slerp;
/// the double-cover sign is resolved so the short path is taken. `amount`
/// outside [0, 1] extrapolates (still renormalized to a unit quaternion).
pub fn nlerp<S: Scalar>(start: Quat<S>, end: Quat<S>, amount: S) -> (r: Quat<S>)
    ensures
        r == start.toward(end, amount),
{
    let aligned_end = if start.dot(end).lt(S::from_count(0)) {
        end.negated()
    } else {
        end
    };
    let blended = Quat {
        x: start.x.add(aligned_end.x.sub(start.x).mul(amount)),
        y: start.y.add(aligned_end.y.sub(start.y).mul(amount)),
        z: start.z.add(aligned_end.z.sub(start.z).mul(amount)),
        w: start.w.add(aligned_end.w.sub(start.w).mul(amount)),
    };
    blended.normalized_or_identity()
}

} // verus!
