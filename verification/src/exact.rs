//! The library's formulas under exact arithmetic.
//!
//! The formulas that the contracts speak of are read here over the mathematical
//! reals. What holds of them exactly holds up to rounding of any number type that
//! comes close to the reals.

use crate::scalar::Arith;
use vstd::prelude::*;

pub mod blending;
pub mod proximity;
pub mod rotation;
pub mod scene;

verus! {

/// The product of two reals.
#[verifier::opaque]
pub open spec fn product(a: real, b: real) -> real {
    a * b
}

/// The quotient of two reals.
#[verifier::opaque]
pub open spec fn quotient(a: real, b: real) -> real {
    a / b
}

/// Whether `r` is the nonnegative square root of `x`.
pub open spec fn is_root(x: real, r: real) -> bool {
    0real <= r && product(r, r) == x
}

/// Whether every real that is not negative has a square root. It is true of the reals;
/// laws that need it ask for it, since nothing here derives it from the other operations.
pub open spec fn roots_exist() -> bool {
    forall|x: real| 0real <= x ==> is_root(x, #[trigger] x.root())
}

/// Exact arithmetic.
impl Arith for real {
    open spec fn of_count(n: u64) -> real {
        n as real
    }

    open spec fn of_ratio(n: u64, d: u64) -> real {
        quotient(n as real, d as real)
    }

    /// Some real, of which nothing is known: no real lies above all others. So a search
    /// that starts from this bound (`lowest`, `highest`, `nearest_gap`, and what is made
    /// of them) may pass over terms when read over the reals; the laws over the reals
    /// hold whatever it finds.
    open spec fn unbounded() -> real {
        arbitrary()
    }

    open spec fn plus(self, other: real) -> real {
        self + other
    }

    open spec fn minus(self, other: real) -> real {
        self - other
    }

    open spec fn times(self, other: real) -> real {
        product(self, other)
    }

    open spec fn over(self, other: real) -> real {
        quotient(self, other)
    }

    open spec fn negated(self) -> real {
        0real - self
    }

    open spec fn magnitude(self) -> real {
        if self < 0real {
            0real - self
        } else {
            self
        }
    }

    open spec fn root(self) -> real {
        choose|r: real| is_root(self, r)
    }

    open spec fn larger(self, other: real) -> real {
        if self < other {
            other
        } else {
            self
        }
    }

    open spec fn smaller(self, other: real) -> real {
        if other < self {
            other
        } else {
            self
        }
    }

    open spec fn below(self, other: real) -> bool {
        self < other
    }

    open spec fn at_most(self, other: real) -> bool {
        self <= other
    }

    open spec fn same(self, other: real) -> bool {
        self == other
    }
}

pub(crate) proof fn product_commutes(a: real, b: real)
    ensures
        product(a, b) == product(b, a),
{
    reveal(product);
    assert(a * b == b * a) by (nonlinear_arith);
}

pub(crate) proof fn product_regroups(a: real, b: real, c: real)
    ensures
        product(a, product(b, c)) == product(product(a, b), c),
{
    reveal(product);
    assert(a * (b * c) == (a * b) * c) by (nonlinear_arith);
}

pub(crate) proof fn product_of_sum(a: real, b: real, c: real)
    ensures
        product(a, b + c) == product(a, b) + product(a, c),
{
    reveal(product);
    assert(a * (b + c) == a * b + a * c) by (nonlinear_arith);
}

pub(crate) proof fn product_of_difference(a: real, b: real, c: real)
    ensures
        product(a, b - c) == product(a, b) - product(a, c),
{
    reveal(product);
    assert(a * (b - c) == a * b - a * c) by (nonlinear_arith);
}

pub(crate) proof fn product_by_constants(a: real)
    ensures
        product(a, 0real) == 0real,
        product(0real, a) == 0real,
        product(a, 1real) == a,
        product(1real, a) == a,
        product(2real, a) == a + a,
{
    reveal(product);
}

/// A factor moves past another.
pub(crate) proof fn product_swaps(a: real, b: real, c: real)
    ensures
        product(a, product(b, c)) == product(b, product(a, c)),
{
    product_regroups(a, b, c);
    product_regroups(b, a, c);
    product_commutes(a, b);
}

/// The product of two products, paired otherwise.
pub(crate) proof fn product_of_products(a: real, b: real, c: real, d: real)
    ensures
        product(product(a, b), product(c, d)) == product(product(a, c), product(b, d)),
{
    product_regroups(a, b, product(c, d));
    product_swaps(b, c, d);
    product_regroups(a, c, product(b, d));
}

/// A sign moves out of a product.
pub(crate) proof fn product_of_opposite(a: real, b: real)
    ensures
        product(0real - a, b) == 0real - product(a, b),
        product(b, 0real - a) == 0real - product(b, a),
{
    product_commutes(0real - a, b);
    product_commutes(a, b);
    product_of_difference(b, 0real, a);
    product_by_constants(b);
}

/// There is one square root.
pub(crate) proof fn root_is_unique(x: real, r: real)
    requires
        is_root(x, r),
    ensures
        x.root() == r,
{
    let s = x.root();
    assert(is_root(x, s));
    reveal(product);
    assert(s == r) by (nonlinear_arith)
        requires
            0real <= r,
            0real <= s,
            r * r == s * s,
    ;
}

/// The root of one is one.
pub(crate) proof fn root_of_one()
    ensures
        1real.root() == 1real,
{
    product_by_constants(1real);
    root_is_unique(1real, 1real);
}

/// The counts that the formulas use as constants.
pub(crate) proof fn small_counts()
    ensures
        real::of_count(0) == 0real,
        real::of_count(1) == 1real,
        real::of_count(2) == 2real,
{
}

pub(crate) proof fn quotient_of_sum(a: real, b: real, c: real)
    requires
        c != 0real,
    ensures
        quotient(a + b, c) == quotient(a, c) + quotient(b, c),
        quotient(c, c) == 1real,
        quotient(0real, c) == 0real,
{
    reveal(quotient);
    let (x, y, z) = (a / c, b / c, (a + b) / c);
    assert(x * c == a) by (nonlinear_arith)
        requires
            x == a / c,
            c != 0real,
    ;
    assert(y * c == b) by (nonlinear_arith)
        requires
            y == b / c,
            c != 0real,
    ;
    assert(z * c == a + b) by (nonlinear_arith)
        requires
            z == (a + b) / c,
            c != 0real,
    ;
    assert((x + y) * c == x * c + y * c) by (nonlinear_arith);
    assert(z == x + y) by (nonlinear_arith)
        requires
            z * c == (x + y) * c,
            c != 0real,
    ;
    assert(c / c == 1real) by (nonlinear_arith)
        requires
            c != 0real,
    ;
    assert(0real / c == 0real) by (nonlinear_arith)
        requires
            c != 0real,
    ;
}

/// A larger number times a positive factor is larger.
pub(crate) proof fn product_is_monotone(a: real, b: real, k: real)
    requires
        a < b,
        0real < k,
    ensures
        product(a, k) < product(b, k),
{
    reveal(product);
    assert(a * k < b * k) by (nonlinear_arith)
        requires
            a < b,
            0real < k,
    ;
}

/// A number that is no smaller, times a factor that is not negative, is no smaller.
pub(crate) proof fn product_keeps_order(a: real, b: real, k: real)
    requires
        a <= b,
        0real <= k,
    ensures
        product(k, a) <= product(k, b),
{
    reveal(product);
    assert(k * a <= k * b) by (nonlinear_arith)
        requires
            a <= b,
            0real <= k,
    ;
}

/// A square is positive, but for that of zero.
pub(crate) proof fn square_is_positive(a: real)
    ensures
        0real <= product(a, a),
        a != 0real ==> 0real < product(a, a),
{
    reveal(product);
    assert(0real <= a * a) by (nonlinear_arith);
    if a != 0real {
        assert(0real < a * a) by (nonlinear_arith)
            requires
                a != 0real,
        ;
    }
}

/// A quotient has the sign of its dividend, where the divisor is positive.
pub(crate) proof fn quotient_keeps_sign(a: real, b: real)
    requires
        0real < b,
    ensures
        0real <= a ==> 0real <= quotient(a, b),
        0real < a ==> 0real < quotient(a, b),
        a < b ==> quotient(a, b) < 1real,
{
    reveal(quotient);
    let q = a / b;
    assert(q * b == a) by (nonlinear_arith)
        requires
            q == a / b,
            0real < b,
    ;
    assert(0real <= a ==> 0real <= q) by (nonlinear_arith)
        requires
            q * b == a,
            0real < b,
    ;
    assert(0real < a ==> 0real < q) by (nonlinear_arith)
        requires
            q * b == a,
            0real < b,
    ;
    assert(a < b ==> q < 1real) by (nonlinear_arith)
        requires
            q * b == a,
            0real < b,
    ;
}

/// The reals are ordered. What a law on `lowest` or `highest` then says of them still
/// depends on the bound that the search starts from, which is a real like any other.
pub proof fn reals_are_ordered()
    ensures
        crate::sequence::below_is_an_order::<real>(),
        crate::sequence::at_most_is_transitive::<real>(),
        crate::sequence::limits_separate::<real>(),
        forall|keys: Seq<real>| #[trigger] crate::order::ranked(keys),
{
}

/// Zero and one are plain among the reals.
pub proof fn real_zero_and_one_are_plain()
    ensures
        crate::sweep::zero_is_plain::<real>(),
        crate::sweep::one_is_plain::<real>(),
{
    small_counts();
    assert forall|a: real| #[trigger] a.times(real::of_count(0)) == real::of_count(0) by {
        product_by_constants(a);
    }
    assert forall|a: real| #[trigger] real::of_count(0).times(a) == real::of_count(0) by {
        product_by_constants(a);
    }
    assert forall|a: real| #[trigger] a.times(real::of_count(1)) == a by {
        product_by_constants(a);
    }
}

/// Zero vanishes among the reals, and every one of them is ordinary.
pub proof fn real_zero_vanishes()
    ensures
        crate::open_loop::zero_vanishes::<real>(),
        forall|a: real| #[trigger] crate::open_loop::is_ordinary(a),
{
    reveal(crate::open_loop::zero_vanishes);
    reveal(crate::open_loop::is_ordinary);
    real_zero_and_one_are_plain();
    small_counts();
    root_of_one();
    assert forall|a: real| #[trigger] crate::open_loop::is_ordinary(a) by {
        assert(a.times(real::of_count(0)) == real::of_count(0));
    }
    assert(1real.over(1real) == 1real) by {
        reveal(quotient);
    }
}

/// Dividing by a positive divisor keeps the order.
pub(crate) proof fn quotient_is_monotone(a: real, b: real, c: real)
    requires
        a < b,
        0real < c,
    ensures
        quotient(a, c) < quotient(b, c),
{
    quotient_of_sum(a, b - a, c);
    quotient_keeps_sign(b - a, c);
}

/// A larger divisor gives no larger a quotient.
pub(crate) proof fn quotient_by_larger(a: real, c: real, d: real)
    requires
        0real <= a,
        0real < c <= d,
    ensures
        quotient(a, d) <= quotient(a, c),
{
    reveal(quotient);
    let (p, q) = (a / c, a / d);
    assert(p * c == a) by (nonlinear_arith)
        requires
            p == a / c,
            0real < c,
    ;
    assert(q * d == a) by (nonlinear_arith)
        requires
            q == a / d,
            0real < d,
    ;
    assert(q <= p) by (nonlinear_arith)
        requires
            p * c == a,
            q * d == a,
            0real <= a,
            0real < c <= d,
    ;
}

/// The generator draws from `[0, 1)`, and its symmetric form from `[-1, 1)`.
pub proof fn draws_lie_in_range(state: u64)
    ensures
        0real <= crate::synthetic::drawn::<real>(state) < 1real,
        -1real <= crate::synthetic::drawn_unit::<real>(state) < 1real,
{
    crate::synthetic::numerator_fits(state);
    let top = crate::synthetic::output_bits(crate::synthetic::next_state(state)) >> 11;
    small_counts();
    let (n, d) = (top as real, 0x20_0000_0000_0000u64 as real);
    assert(0real <= n < d);
    quotient_keeps_sign(n, d);
    let drawn = crate::synthetic::drawn::<real>(state);
    product_commutes(drawn, 2real);
    product_by_constants(drawn);
}

} // verus!
