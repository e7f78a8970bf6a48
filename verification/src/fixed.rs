//! Fixed-point numbers: a scalar for targets without floating point, and for runs
//! that must agree bit for bit on every machine.

use crate::graph::Correction;
use crate::scalar::{Arith, Scalar};
use vstd::arithmetic::div_mod::lemma_fundamental_div_mod;
use vstd::arithmetic::div_mod::lemma_fundamental_div_mod_converse;
use vstd::prelude::*;

pub mod accuracy;

verus! {

/// A number with 32 binary places: `raw / 2^32`. Results are rounded down, and
/// held at the ends of the range where they would leave it.
#[derive(Clone, Copy, Debug, PartialEq, Eq, Structural)]
pub struct Fixed {
    pub raw: i64,
}

/// `2^32`, the raw form of one.
pub const UNIT: i64 = 0x1_0000_0000;

/// The raw form of a quarter turn.
pub const QUARTER_TURN: i64 = 6_746_518_852;

/// The raw form of a half turn.
pub const HALF_TURN: i64 = 13_493_037_705;

/// The raw form of a full turn.
pub const FULL_TURN: i64 = 26_986_075_409;

/// The raw form of the binary logarithm of `e`.
pub const LOG2_E: i64 = 6_196_328_019;

/// The raw form of the natural logarithm of two.
pub const LN_2: i64 = 2_977_044_472;

/// How many terms of the exponential series are added up.
pub const GROWTH_TERMS: u64 = 12;

/// How many terms of the sine series are added up.
pub const SWING_TERMS: u64 = 7;

/// The representable number nearest to `raw / 2^32`.
pub open spec fn held(raw: int) -> Fixed {
    Fixed {
        raw: if raw > i64::MAX {
            i64::MAX
        } else if raw < i64::MIN {
            i64::MIN
        } else {
            raw as i64
        },
    }
}

/// Whether `r` is the square root of `n`, rounded down.
pub open spec fn is_floor_root(n: int, r: int) -> bool {
    0 <= r && r * r <= n < (r + 1) * (r + 1)
}

/// The square root of `n`, rounded down.
pub open spec fn rounded_root(n: int) -> int {
    choose|r: int| is_floor_root(n, r)
}

/// The exponential series from term `k` on:
/// `1 + t / k (1 + t / (k + 1) (1 + ..))`, up to term `last`.
pub open spec fn growth(t: Fixed, k: nat, last: nat) -> Fixed
    decreases last + 1 - k,
{
    if k > last {
        Fixed::of_count(1)
    } else {
        Fixed::of_count(1).plus(t.times(growth(t, k + 1, last)).over(Fixed::of_count(k as u64)))
    }
}

/// `m 2^shift`, rounded down, as far as it matters: a mantissa between one and two that is
/// shifted further leaves the range, or nothing.
pub open spec fn shifted(m: int, shift: int) -> int {
    if shift >= 31 {
        i64::MAX as int
    } else if shift >= 0 {
        m * vstd::arithmetic::power2::pow2(shift as nat)
    } else if shift >= -33 {
        m / (vstd::arithmetic::power2::pow2((-shift) as nat) as int)
    } else {
        0
    }
}

/// The sine series, over the angle, from term `k` on:
/// `1 - s / (2 k (2 k + 1)) (1 - s / ((2 k + 2) (2 k + 3)) (1 - ..))`, up to term `last`,
/// where `s` is the squared angle.
pub open spec fn swing(s: Fixed, k: nat, last: nat) -> Fixed
    decreases last + 1 - k,
{
    if k > last {
        Fixed::of_count(1)
    } else {
        Fixed::of_count(1).minus(
            s.times(swing(s, k + 1, last)).over(Fixed::of_count((2 * k * (2 * k + 1)) as u64)),
        )
    }
}

/// The sine of an angle in the first quarter, by its series.
pub open spec fn rise(angle: Fixed) -> Fixed {
    angle.times(swing(angle.times(angle), 1, SWING_TERMS as nat))
}

/// The sine of an angle in the first half: the second quarter mirrors the first.
pub open spec fn arch(angle: Fixed) -> Fixed {
    if angle.raw <= QUARTER_TURN {
        rise(angle)
    } else {
        rise(Fixed { raw: HALF_TURN }.minus(angle))
    }
}

impl Arith for Fixed {
    open spec fn of_count(n: u64) -> Fixed {
        held(n * UNIT)
    }

    open spec fn of_ratio(n: u64, d: u64) -> Fixed {
        if d > 0 {
            held((n * UNIT) / (d as int))
        } else if n > 0 {
            Fixed { raw: i64::MAX }
        } else {
            Fixed { raw: 0 }
        }
    }

    open spec fn unbounded() -> Fixed {
        Fixed { raw: i64::MAX }
    }

    open spec fn plus(self, other: Fixed) -> Fixed {
        held(self.raw + other.raw)
    }

    open spec fn minus(self, other: Fixed) -> Fixed {
        held(self.raw - other.raw)
    }

    open spec fn times(self, other: Fixed) -> Fixed {
        held((self.raw * other.raw) / (UNIT as int))
    }

    open spec fn over(self, other: Fixed) -> Fixed {
        if other.raw > 0 {
            held((self.raw * UNIT) / (other.raw as int))
        } else if other.raw < 0 {
            held((-(self.raw * UNIT)) / (-other.raw))
        } else if self.raw > 0 {
            Fixed { raw: i64::MAX }
        } else if self.raw < 0 {
            Fixed { raw: i64::MIN }
        } else {
            Fixed { raw: 0 }
        }
    }

    open spec fn negated(self) -> Fixed {
        held(-self.raw)
    }

    open spec fn magnitude(self) -> Fixed {
        if self.raw < 0 {
            self.negated()
        } else {
            self
        }
    }

    open spec fn root(self) -> Fixed {
        if self.raw <= 0 {
            Fixed { raw: 0 }
        } else {
            held(rounded_root(self.raw * UNIT))
        }
    }

    open spec fn larger(self, other: Fixed) -> Fixed {
        if self.raw < other.raw {
            other
        } else {
            self
        }
    }

    open spec fn smaller(self, other: Fixed) -> Fixed {
        if other.raw < self.raw {
            other
        } else {
            self
        }
    }

    open spec fn below(self, other: Fixed) -> bool {
        self.raw < other.raw
    }

    open spec fn at_most(self, other: Fixed) -> bool {
        self.raw <= other.raw
    }

    open spec fn same(self, other: Fixed) -> bool {
        self.raw == other.raw
    }
}

/// The numbers are ordered, so every law that asks for an order holds of them.
pub proof fn fixed_numbers_are_ordered()
    ensures
        crate::sequence::below_is_an_order::<Fixed>(),
        crate::sequence::at_most_is_transitive::<Fixed>(),
        crate::sequence::limits_separate::<Fixed>(),
        forall|keys: Seq<Fixed>| #[trigger] crate::order::ranked(keys),
{
}

/// Zero and one are plain and storage is exact, so the laws of the sweep hold of these
/// numbers to the last digit.
pub proof fn fixed_zero_and_one_are_plain()
    ensures
        crate::sweep::zero_is_plain::<Fixed>(),
        crate::sweep::one_is_plain::<Fixed>(),
        crate::sweep::storage_is_exact::<Fixed>(),
{
    let (zero, one) = (Fixed::of_count(0), Fixed::of_count(1));
    assert(zero.raw == 0);
    assert(one.raw == UNIT);
    assert forall|a: Fixed| #[trigger] a.times(zero) == zero by {
        assert(a.raw * zero.raw == 0) by (nonlinear_arith)
            requires
                zero.raw == 0,
        ;
    }
    assert forall|a: Fixed| #[trigger] zero.times(a) == zero by {
        assert(zero.raw * a.raw == 0) by (nonlinear_arith)
            requires
                zero.raw == 0,
        ;
    }
    assert forall|a: Fixed| #[trigger] a.times(one) == a by {
        assert((a.raw * one.raw) / (UNIT as int) == a.raw) by (nonlinear_arith)
            requires
                one.raw == UNIT,
                UNIT > 0,
        ;
    }
}

/// Zero vanishes and storage keeps places, so the open loop under rounding holds of these
/// numbers too; every one of them is ordinary.
pub proof fn fixed_zero_vanishes()
    ensures
        crate::open_loop::zero_vanishes::<Fixed>(),
        crate::open_loop::storage_keeps_places::<Fixed>(),
        forall|a: Fixed| #[trigger] crate::open_loop::is_ordinary(a),
{
    reveal(crate::open_loop::zero_vanishes);
    reveal(crate::open_loop::is_ordinary);
    fixed_zero_and_one_are_plain();
    let (zero, one) = (Fixed::of_count(0), Fixed::of_count(1));
    assert forall|a: Fixed| #[trigger] crate::open_loop::is_ordinary(a) by {
        assert(a.times(zero) == zero);
    }
    assert forall|a: Fixed, z: Fixed|
        crate::open_loop::is_nil(z) implies crate::open_loop::is_nil(#[trigger] a.times(z)) by {
        assert(z == zero);
    }
    assert forall|a: Fixed, z: Fixed|
        crate::open_loop::is_nil(z) implies crate::open_loop::is_nil(#[trigger] z.times(a)) by {
        assert(z == zero);
    }
    assert forall|a: Fixed, z: Fixed|
        crate::open_loop::is_nil(z) implies (#[trigger] a.plus(z)).same(a) by {
        assert(z == zero);
    }
    assert forall|a: Fixed, z: Fixed|
        crate::open_loop::is_nil(z) implies (#[trigger] z.plus(a)).same(a) by {
        assert(z == zero);
    }
    assert forall|a: Fixed, b: Fixed|
        a.same(one) && b.same(one) implies (#[trigger] a.times(b)).same(one) by {
        assert(a == one && b == one);
    }
    assert forall|a: Fixed| a.same(one) implies (#[trigger] one.over(a)).same(one) by {
        assert(a == one);
    }
    assert forall|a: Fixed| a.same(one) implies (#[trigger] a.root()).same(one) by {
        let square = UNIT * UNIT;
        assert(a == one && a.raw * UNIT == square);
        assert(square < (UNIT + 1) * (UNIT + 1)) by (nonlinear_arith)
            requires
                square == UNIT * UNIT,
                0 < UNIT,
        ;
        assert(is_floor_root(square, UNIT as int));
        floor_root_is_unique(square, rounded_root(square), UNIT as int);
    }
}

/// Whether a raw form lies in the range.
pub open spec fn in_bounds(raw: int) -> bool {
    i64::MIN <= raw <= i64::MAX
}

/// Sums and differences are exact as long as they stay in the range; products and quotients
/// are less than one unit in the last place too small.
pub proof fn fixed_operations_are_exact_or_rounded_down(a: Fixed, b: Fixed)
    ensures
        in_bounds(a.raw + b.raw) ==> a.plus(b).raw == a.raw + b.raw,
        in_bounds(a.raw - b.raw) ==> a.minus(b).raw == a.raw - b.raw,
        a.raw != i64::MIN ==> a.negated().raw == -a.raw && a.magnitude().raw >= 0,
        i64::MIN < a.times(b).raw < i64::MAX ==> a.times(b).raw * UNIT <= a.raw * b.raw < (a.times(
            b,
        ).raw + 1) * UNIT,
        b.raw > 0 && i64::MIN < a.over(b).raw < i64::MAX ==> a.over(b).raw * b.raw <= a.raw * UNIT
            < (a.over(b).raw + 1) * b.raw,
{
    let (p, q) = (a.raw * b.raw, a.raw * UNIT);
    lemma_fundamental_div_mod(p, UNIT as int);
    let (x, y) = (p / (UNIT as int), p % (UNIT as int));
    assert((x + 1) * UNIT == x * UNIT + UNIT) by (nonlinear_arith);
    assert(x * UNIT == (UNIT as int) * x) by (nonlinear_arith);
    if b.raw > 0 {
        let d = b.raw as int;
        lemma_fundamental_div_mod(q, d);
        let u = q / d;
        assert((u + 1) * d == u * d + d) by (nonlinear_arith);
        assert(u * d == d * u) by (nonlinear_arith);
    }
}

/// The whole part is a whole number that is not above the number and less than one below it,
/// and a remainder lies in `[0, modulus)` and is a whole number of moduli off; a stored
/// coordinate is read back as it is.
pub proof fn fixed_parts_are_whole_and_rest(a: Fixed, modulus: Fixed, stored: i32)
    ensures
        a.whole().raw as int % (UNIT as int) == 0,
        a.whole().raw <= a.raw < a.whole().raw + UNIT,
        modulus.raw > 0 ==> 0 <= a.wrapped(modulus).raw < modulus.raw && (a.raw - a.wrapped(
            modulus,
        ).raw) % (modulus.raw as int) == 0,
        Fixed::widened(stored).narrowed() == stored,
{
    let unit = UNIT as int;
    lemma_fundamental_div_mod(a.raw as int, unit);
    let q = a.raw as int / unit;
    assert(q * unit == unit * q) by (nonlinear_arith);
    assert((q * unit) % unit == 0) by {
        vstd::arithmetic::div_mod::lemma_mod_multiples_basic(q, unit);
    }
    if modulus.raw > 0 {
        let m = modulus.raw as int;
        lemma_fundamental_div_mod(a.raw as int, m);
        let k = a.raw as int / m;
        assert(k * m == m * k) by (nonlinear_arith);
        vstd::arithmetic::div_mod::lemma_mod_multiples_basic(k, m);
        vstd::arithmetic::div_mod::lemma_mod_bound(a.raw as int, m);
    }
}

/// The representable number nearest to `raw / 2^32`.
fn hold(raw: i128) -> (r: Fixed)
    ensures
        r == held(raw as int),
{
    let max: i128 = 0x7FFF_FFFF_FFFF_FFFF;
    let min: i128 = -0x8000_0000_0000_0000;
    if raw > max {
        Fixed { raw: i64::MAX }
    } else if raw < min {
        Fixed { raw: i64::MIN }
    } else {
        Fixed { raw: raw as i64 }
    }
}

/// The quotient of `n` by a positive `d`, rounded down.
fn floor_quotient(n: i128, d: i128) -> (r: i128)
    requires
        d > 0,
    ensures
        r == (n as int) / (d as int),
{
    if n >= 0 {
        n / d
    } else {
        let flipped = -(n + 1);
        let q = flipped / d;
        proof {
            let rest = (flipped as int) % (d as int);
            lemma_fundamental_div_mod(flipped as int, d as int);
            assert(n == (-q - 1) * d + (d - rest - 1)) by (nonlinear_arith)
                requires
                    flipped == d * q + rest,
                    flipped == -(n + 1),
            ;
            lemma_fundamental_div_mod_converse(
                n as int,
                d as int,
                (-q - 1) as int,
                (d - rest - 1) as int,
            );
            assert(q <= flipped) by (nonlinear_arith)
                requires
                    q == flipped as int / d as int,
                    d > 0,
                    flipped >= 0,
            ;
        }
        -q - 1
    }
}

/// There is one rounded-down square root.
proof fn floor_root_is_unique(n: int, r: int, s: int)
    requires
        is_floor_root(n, r),
        is_floor_root(n, s),
    ensures
        r == s,
{
    if r < s {
        assert((r + 1) * (r + 1) <= s * s) by (nonlinear_arith)
            requires
                0 <= r + 1 <= s,
        ;
    } else if s < r {
        assert((s + 1) * (s + 1) <= r * r) by (nonlinear_arith)
            requires
                0 <= s + 1 <= r,
        ;
    }
}

/// There is a rounded-down square root.
proof fn floor_root_exists(n: int)
    requires
        0 <= n,
    ensures
        is_floor_root(n, rounded_root(n)),
    decreases n,
{
    if n == 0 {
        assert(is_floor_root(0, 0));
    } else {
        floor_root_exists(n - 1);
        let r = rounded_root(n - 1);
        if n < (r + 1) * (r + 1) {
            assert(is_floor_root(n, r));
        } else {
            assert((r + 2) * (r + 2) == (r + 1) * (r + 1) + 2 * r + 3) by (nonlinear_arith);
            assert(is_floor_root(n, r + 1));
        }
    }
}

/// Numbers that are not negative build up their sum.
proof fn nonnegative_terms_build_up(terms: Seq<Fixed>)
    requires
        forall|i: int| 0 <= i < terms.len() ==> 0 <= (#[trigger] terms[i]).raw,
    ensures
        crate::sequence::builds_up(terms),
        0 <= crate::sequence::total(terms).raw,
    decreases terms.len(),
{
    if terms.len() > 0 {
        let front = terms.drop_last();
        assert forall|i: int| 0 <= i < front.len() implies 0 <= (#[trigger] front[i]).raw by {
            assert(front[i] == terms[i]);
        }
        nonnegative_terms_build_up(front);
        assert(0 <= terms[terms.len() - 1].raw);
    }
}

/// The misses of a thinning in these numbers can be compared and build up, so the law on
/// the drift of dropped anchors holds of every correction.
pub proof fn fixed_misses_build_up(correction: Correction<Fixed>, flags: Seq<bool>)
    ensures
        crate::sequence::builds_up(correction.misses(flags)),
        forall|i: int|
            0 <= i < correction.misses(flags).len() ==> Fixed::unbounded().negated().below(
                #[trigger] correction.misses(flags)[i],
            ),
{
    let misses = correction.misses(flags);
    assert forall|i: int| 0 <= i < misses.len() implies 0 <= (#[trigger] misses[i]).raw by {
        let kept = crate::selection::marked(flags, true);
        let d = crate::selection::marked(flags, false)[i];
        let square = correction.full_target(d).gap_squared(
            correction.deformed(
                kept,
                d,
                correction.sigma_of(kept),
                correction.time_sigma_of(kept),
            ),
        );
        assert(misses[i] == square.root());
        if square.raw > 0 {
            floor_root_exists(square.raw * UNIT);
        }
    }
    nonnegative_terms_build_up(misses);
    assert forall|i: int| 0 <= i < misses.len() implies Fixed::unbounded().negated().below(
        #[trigger] misses[i],
    ) by {
        assert(0 <= misses[i].raw);
    }
}

/// The square root, rounded down, by bisection.
fn floor_root(n: i128) -> (r: i128)
    requires
        0 <= n < 0x1_0000_0000_0000_0000_0000_0000,
    ensures
        is_floor_root(n as int, r as int),
        r < 0x1_0000_0000_0000,
{
    let mut low: i128 = 0;
    let mut high: i128 = 0x1_0000_0000_0000;
    assert(high * high == 0x1_0000_0000_0000_0000_0000_0000) by (nonlinear_arith)
        requires
            high == 0x1_0000_0000_0000,
    ;
    while high - low > 1
        invariant
            0 <= low < high <= 0x1_0000_0000_0000,
            low * low <= n < high * high,
        decreases high - low,
    {
        let middle = low + (high - low) / 2;
        assert(0 <= middle * middle <= 0x1_0000_0000_0000_0000_0000_0000) by (nonlinear_arith)
            requires
                0 <= middle <= 0x1_0000_0000_0000,
        ;
        if middle * middle <= n {
            low = middle;
        } else {
            high = middle;
        }
    }
    assert(high == low + 1);
    low
}

/// The exponential series.
fn add_growth(t: Fixed) -> (r: Fixed)
    ensures
        r == growth(t, 1, GROWTH_TERMS as nat),
{
    let mut r = Fixed::from_count(1);
    let mut k: u64 = GROWTH_TERMS;
    while k > 0
        invariant
            k <= GROWTH_TERMS,
            r == growth(t, (k + 1) as nat, GROWTH_TERMS as nat),
        decreases k,
    {
        r = Fixed::from_count(1).add(t.mul(r).div(Fixed::from_count(k)));
        k = k - 1;
    }
    r
}

/// The sine series, over the angle.
fn add_swing(s: Fixed) -> (r: Fixed)
    ensures
        r == swing(s, 1, SWING_TERMS as nat),
{
    let mut r = Fixed::from_count(1);
    let mut k: u64 = SWING_TERMS;
    while k > 0
        invariant
            k <= SWING_TERMS,
            r == swing(s, (k + 1) as nat, SWING_TERMS as nat),
        decreases k,
    {
        let even: u64 = 2 * k;
        assert(0 <= even * (even + 1) <= 14 * 15) by (nonlinear_arith)
            requires
                even <= 14,
        ;
        r = Fixed::from_count(1).sub(s.mul(r).div(Fixed::from_count(even * (even + 1))));
        k = k - 1;
    }
    r
}

/// `m 2^shift`, rounded down and held in the range.
fn shift_by(m: i64, shift: i128) -> (r: Fixed)
    ensures
        r == held(shifted(m as int, shift as int)),
{
    if shift >= 31 {
        Fixed { raw: i64::MAX }
    } else if shift >= 0 {
        let factor: u64 = 1u64 << (shift as u64);
        proof {
            vstd::arithmetic::power2::lemma2_to64();
            if shift < 30 {
                vstd::arithmetic::power2::lemma_pow2_strictly_increases(shift as nat, 30);
            }
            vstd::bits::lemma_u64_shl_is_mul(1, shift as u64);
            assert(-0x8000_0000_0000_0000 * 0x4000_0000 <= m * factor <= 0x7FFF_FFFF_FFFF_FFFF
                * 0x4000_0000) by (nonlinear_arith)
                requires
                    0 <= factor <= 0x4000_0000,
                    -0x8000_0000_0000_0000 <= m <= 0x7FFF_FFFF_FFFF_FFFF,
            ;
        }
        hold(m as i128 * factor as i128)
    } else if shift >= -33 {
        let factor: u64 = 1u64 << ((-shift) as u64);
        proof {
            vstd::arithmetic::power2::lemma2_to64();
            vstd::arithmetic::power2::lemma_pow2_pos((-shift) as nat);
            vstd::arithmetic::power2::lemma_pow2_strictly_increases((-shift) as nat, 64);
            vstd::bits::lemma_u64_shl_is_mul(1, (-shift) as u64);
        }
        hold(floor_quotient(m as i128, factor as i128))
    } else {
        Fixed { raw: 0 }
    }
}

impl Scalar for Fixed {
    /// 16 binary places in 32 bits.
    type Narrow = i32;

    /// `2^n e^t`, where `n` is the whole part of `x log2 e` and `t` the rest of it times
    /// `ln 2`.
    open spec fn exponential(self) -> Fixed {
        let y = self.times(Fixed { raw: LOG2_E }).raw as int;
        let rest = Fixed { raw: (y % (UNIT as int)) as i64 };
        let mantissa = growth(rest.times(Fixed { raw: LN_2 }), 1, GROWTH_TERMS as nat);
        held(shifted(mantissa.raw as int, y / (UNIT as int)))
    }

    open spec fn sine(self) -> Fixed {
        let angle = self.wrapped(Fixed { raw: FULL_TURN });
        if angle.raw <= HALF_TURN {
            arch(angle)
        } else {
            arch(angle.minus(Fixed { raw: HALF_TURN })).negated()
        }
    }

    open spec fn cosine(self) -> Fixed {
        self.wrapped(Fixed { raw: FULL_TURN }).plus(Fixed { raw: QUARTER_TURN }).sine()
    }

    open spec fn whole(self) -> Fixed {
        held((self.raw as int / UNIT as int) * UNIT)
    }

    open spec fn wrapped(self, modulus: Fixed) -> Fixed {
        if modulus.raw == 0 {
            Fixed { raw: 0 }
        } else {
            held(self.raw as int % modulus.raw as int)
        }
    }

    open spec fn full_turn() -> Fixed {
        Fixed { raw: FULL_TURN }
    }

    open spec fn narrowed(self) -> i32 {
        let stored = self.raw as int / 0x1_0000;
        if stored > i32::MAX {
            i32::MAX
        } else if stored < i32::MIN {
            i32::MIN
        } else {
            stored as i32
        }
    }

    open spec fn widened(stored: i32) -> Fixed {
        Fixed { raw: (stored * 0x1_0000) as i64 }
    }

    open spec fn index(self) -> usize {
        if self.raw < 0 {
            0
        } else {
            (self.raw as int / UNIT as int) as usize
        }
    }

    fn from_count(n: u64) -> Fixed {
        hold(n as i128 * 0x1_0000_0000)
    }

    fn from_ratio(n: u64, d: u64) -> Fixed {
        if d > 0 {
            hold(floor_quotient(n as i128 * 0x1_0000_0000, d as i128))
        } else if n > 0 {
            Fixed { raw: i64::MAX }
        } else {
            Fixed { raw: 0 }
        }
    }

    fn infinity() -> Fixed {
        Fixed { raw: i64::MAX }
    }

    fn add(self, other: Fixed) -> Fixed {
        hold(self.raw as i128 + other.raw as i128)
    }

    fn sub(self, other: Fixed) -> Fixed {
        hold(self.raw as i128 - other.raw as i128)
    }

    fn mul(self, other: Fixed) -> Fixed {
        let a = self.raw as i128;
        let b = other.raw as i128;
        assert(-0x4000_0000_0000_0000_0000_0000_0000_0000 <= a * b
            <= 0x4000_0000_0000_0000_0000_0000_0000_0000) by (nonlinear_arith)
            requires
                -0x8000_0000_0000_0000 <= a <= 0x7FFF_FFFF_FFFF_FFFF,
                -0x8000_0000_0000_0000 <= b <= 0x7FFF_FFFF_FFFF_FFFF,
        ;
        hold(floor_quotient(a * b, 0x1_0000_0000))
    }

    fn div(self, other: Fixed) -> Fixed {
        let shifted = self.raw as i128 * 0x1_0000_0000;
        if other.raw > 0 {
            hold(floor_quotient(shifted, other.raw as i128))
        } else if other.raw < 0 {
            hold(floor_quotient(-shifted, -(other.raw as i128)))
        } else if self.raw > 0 {
            Fixed { raw: i64::MAX }
        } else if self.raw < 0 {
            Fixed { raw: i64::MIN }
        } else {
            Fixed { raw: 0 }
        }
    }

    fn neg(self) -> Fixed {
        hold(-(self.raw as i128))
    }

    fn abs(self) -> Fixed {
        if self.raw < 0 {
            self.neg()
        } else {
            self
        }
    }

    fn sqrt(self) -> Fixed {
        if self.raw <= 0 {
            return Fixed { raw: 0 };
        }
        let r = floor_root(self.raw as i128 * 0x1_0000_0000);
        proof {
            floor_root_is_unique(self.raw * UNIT, r as int, rounded_root(self.raw * UNIT));
        }
        hold(r)
    }

    fn max(self, other: Fixed) -> Fixed {
        if self.raw < other.raw {
            other
        } else {
            self
        }
    }

    fn min(self, other: Fixed) -> Fixed {
        if other.raw < self.raw {
            other
        } else {
            self
        }
    }

    fn lt(self, other: Fixed) -> bool {
        self.raw < other.raw
    }

    fn le(self, other: Fixed) -> bool {
        self.raw <= other.raw
    }

    fn eq(self, other: Fixed) -> bool {
        self.raw == other.raw
    }

    fn exp(self) -> Fixed {
        let y = self.mul(Fixed { raw: LOG2_E }).raw;
        let shift = floor_quotient(y as i128, 0x1_0000_0000);
        proof {
            lemma_fundamental_div_mod(y as int, UNIT as int);
        }
        let rest = Fixed { raw: (y as i128 - shift * 0x1_0000_0000) as i64 };
        let mantissa = add_growth(rest.mul(Fixed { raw: LN_2 }));
        shift_by(mantissa.raw, shift)
    }

    fn sin(self) -> Fixed {
        let angle = self.rem_euclid(Fixed { raw: FULL_TURN });
        if angle.raw <= HALF_TURN {
            fold_rise(angle)
        } else {
            fold_rise(angle.sub(Fixed { raw: HALF_TURN })).neg()
        }
    }

    fn cos(self) -> Fixed {
        self.rem_euclid(Fixed { raw: FULL_TURN }).add(Fixed { raw: QUARTER_TURN }).sin()
    }

    fn floor(self) -> Fixed {
        let places = floor_quotient(self.raw as i128, 0x1_0000_0000);
        hold(places * 0x1_0000_0000)
    }

    fn rem_euclid(self, modulus: Fixed) -> Fixed {
        if modulus.raw == 0 {
            return Fixed { raw: 0 };
        }
        let size: i128 = if modulus.raw < 0 {
            -(modulus.raw as i128)
        } else {
            modulus.raw as i128
        };
        let q = floor_quotient(self.raw as i128, size);
        proof {
            lemma_fundamental_div_mod(self.raw as int, size as int);
            assert(q * size == size * q) by (nonlinear_arith);
            if modulus.raw < 0 {
                let rest = self.raw as int % size as int;
                assert(self.raw == (-q) * modulus.raw + rest) by (nonlinear_arith)
                    requires
                        self.raw == size * q + rest,
                        size == -modulus.raw,
                ;
                negative_modulus(self.raw as int, modulus.raw as int);
            }
        }
        hold(self.raw as i128 - q * size)
    }

    fn tau() -> Fixed {
        Fixed { raw: FULL_TURN }
    }

    fn narrow(self) -> i32 {
        let stored = floor_quotient(self.raw as i128, 0x1_0000);
        if stored > 0x7FFF_FFFF {
            i32::MAX
        } else if stored < -0x8000_0000 {
            i32::MIN
        } else {
            stored as i32
        }
    }

    fn widen(stored: i32) -> Fixed {
        Fixed { raw: stored as i64 * 0x1_0000 }
    }

    fn to_index(self) -> usize {
        if self.raw < 0 {
            0
        } else {
            (self.raw / 0x1_0000_0000) as usize
        }
    }
}

/// The remainder by a negative modulus is that by its magnitude.
proof fn negative_modulus(n: int, m: int)
    requires
        m < 0,
    ensures
        n % m == n % (-m),
{
    assert(n % m == n % (-m)) by (nonlinear_arith)
        requires
            m < 0,
    ;
}

/// The sine of an angle in the first half.
fn fold_rise(angle: Fixed) -> (r: Fixed)
    ensures
        r == arch(angle),
{
    let folded = if angle.raw <= QUARTER_TURN {
        angle
    } else {
        Fixed { raw: HALF_TURN }.sub(angle)
    };
    folded.mul(add_swing(folded.mul(folded)))
}

} // verus!
