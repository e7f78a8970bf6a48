//! The arithmetic that the library computes with.
//!
//! [`Arith`] names what each operation means; [`Scalar`] runs it. Nothing is asked
//! of an operation but that its result is a function of its operands, so every
//! contract below holds under rounding, and where an implementation approximates, as
//! well as under exact arithmetic. The formulas can be read over the mathematical reals
//! too (see `exact`).

use vstd::prelude::*;

verus! {

/// What the operations of a number type mean.
pub trait Arith: Sized {
    /// The number that stands for the count `n`.
    spec fn of_count(n: u64) -> Self;

    /// The number that stands for the fraction `n / d`.
    spec fn of_ratio(n: u64, d: u64) -> Self;

    /// A bound that no ordinary value reaches, where the number type has one:
    /// `x.below(unbounded())` tells whether `x` can be compared at all.
    spec fn unbounded() -> Self;

    spec fn plus(self, other: Self) -> Self;

    spec fn minus(self, other: Self) -> Self;

    spec fn times(self, other: Self) -> Self;

    spec fn over(self, other: Self) -> Self;

    spec fn negated(self) -> Self;

    /// Absolute value.
    spec fn magnitude(self) -> Self;

    /// Square root.
    spec fn root(self) -> Self;

    /// The larger of two values.
    spec fn larger(self, other: Self) -> Self;

    /// The smaller of two values.
    spec fn smaller(self, other: Self) -> Self;

    /// `self < other`.
    spec fn below(self, other: Self) -> bool;

    /// `self <= other`.
    spec fn at_most(self, other: Self) -> bool;

    /// `self == other`, as the number type compares.
    spec fn same(self, other: Self) -> bool;
}

/// A number type that programs can compute with.
pub trait Scalar: Arith + Copy + Send + Sync {
    /// The storage form of a coordinate, which may hold fewer digits.
    type Narrow: Copy + Send + Sync;

    /// `e` to the power of `self`, as closely as the number type comes to it.
    spec fn exponential(self) -> Self;

    /// The sine of an angle in radians, as closely as the number type comes to it.
    spec fn sine(self) -> Self;

    /// The cosine of an angle in radians, as closely as the number type comes to it.
    spec fn cosine(self) -> Self;

    /// The largest whole number that is not above `self`.
    spec fn whole(self) -> Self;

    /// The remainder of `self` in `[0, modulus)`.
    spec fn wrapped(self, modulus: Self) -> Self;

    /// One full turn in radians.
    spec fn full_turn() -> Self;

    /// The stored form of `self`.
    spec fn narrowed(self) -> Self::Narrow;

    /// The number that a stored form holds.
    spec fn widened(stored: Self::Narrow) -> Self;

    /// The index that a whole number stands for.
    spec fn index(self) -> usize;

    fn from_count(n: u64) -> (r: Self)
        ensures
            r == Self::of_count(n),
    ;

    fn from_ratio(n: u64, d: u64) -> (r: Self)
        ensures
            r == Self::of_ratio(n, d),
    ;

    fn infinity() -> (r: Self)
        ensures
            r == Self::unbounded(),
    ;

    fn add(self, other: Self) -> (r: Self)
        ensures
            r == self.plus(other),
    ;

    fn sub(self, other: Self) -> (r: Self)
        ensures
            r == self.minus(other),
    ;

    fn mul(self, other: Self) -> (r: Self)
        ensures
            r == self.times(other),
    ;

    fn div(self, other: Self) -> (r: Self)
        ensures
            r == self.over(other),
    ;

    fn neg(self) -> (r: Self)
        ensures
            r == self.negated(),
    ;

    fn abs(self) -> (r: Self)
        ensures
            r == self.magnitude(),
    ;

    fn sqrt(self) -> (r: Self)
        ensures
            r == self.root(),
    ;

    fn max(self, other: Self) -> (r: Self)
        ensures
            r == self.larger(other),
    ;

    fn min(self, other: Self) -> (r: Self)
        ensures
            r == self.smaller(other),
    ;

    fn lt(self, other: Self) -> (r: bool)
        ensures
            r == self.below(other),
    ;

    fn le(self, other: Self) -> (r: bool)
        ensures
            r == self.at_most(other),
    ;

    fn eq(self, other: Self) -> (r: bool)
        ensures
            r == self.same(other),
    ;

    fn exp(self) -> (r: Self)
        ensures
            r == self.exponential(),
    ;

    fn sin(self) -> (r: Self)
        ensures
            r == self.sine(),
    ;

    fn cos(self) -> (r: Self)
        ensures
            r == self.cosine(),
    ;

    fn floor(self) -> (r: Self)
        ensures
            r == self.whole(),
    ;

    fn rem_euclid(self, modulus: Self) -> (r: Self)
        ensures
            r == self.wrapped(modulus),
    ;

    fn tau() -> (r: Self)
        ensures
            r == Self::full_turn(),
    ;

    fn narrow(self) -> (r: Self::Narrow)
        ensures
            r == self.narrowed(),
    ;

    fn widen(stored: Self::Narrow) -> (r: Self)
        ensures
            r == Self::widened(stored),
    ;

    fn to_index(self) -> (r: usize)
        ensures
            r == self.index(),
    ;
}

} // verus!
