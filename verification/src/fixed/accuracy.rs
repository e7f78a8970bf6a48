//! How close the fixed-point series come to the exact ones. A series with more terms than
//! are added up comes as near to its limit as one likes, so a bound on the distance to
//! every longer series is a bound on the distance to the exponential and to the sine.

use crate::fixed::{
    Fixed, FULL_TURN, GROWTH_TERMS, HALF_TURN, LN_2, LOG2_E, QUARTER_TURN, SWING_TERMS, UNIT,
};
use crate::scalar::{Arith, Scalar};
use vstd::arithmetic::div_mod::lemma_fundamental_div_mod;
use vstd::prelude::*;

verus! {

/// The exponential series from term `k` to term `last`, in exact arithmetic.
pub open spec fn exact_growth(t: real, k: nat, last: nat) -> real
    decreases last + 1 - k,
{
    if k > last {
        1real
    } else {
        1real + t * exact_growth(t, k + 1, last) / (k as real)
    }
}

/// The sine series over the angle, from term `k` to term `last`, in exact arithmetic; `s`
/// is the squared angle.
pub open spec fn exact_swing(s: real, k: nat, last: nat) -> real
    decreases last + 1 - k,
{
    if k > last {
        1real
    } else {
        1real - s * exact_swing(s, k + 1, last) / ((2 * k * (2 * k + 1)) as real)
    }
}

/// A product and a quotient that are both rounded down, in real numbers.
proof fn rounded_step(t: int, r: int, d: int)
    requires
        d > 0,
    ensures
        ({
            let p = (t * r) / (UNIT as int);
            let q = (p * UNIT) / (d * UNIT);
            &&& (p as real) * 4294967296real <= (t as real) * (r as real) < (p as real)
                * 4294967296real + 4294967296real
            &&& (q as real) * (d as real) <= (p as real) < (q as real) * (d as real) + (d as real)
        }),
{
    let p = (t * r) / (UNIT as int);
    let q = (p * UNIT) / (d * UNIT);
    lemma_fundamental_div_mod(t * r, UNIT as int);
    assert((t * r) as real == (t as real) * (r as real)) by (nonlinear_arith);
    let whole = d * UNIT;
    assert(whole > 0) by (nonlinear_arith)
        requires
            whole == d * UNIT,
            d > 0,
            UNIT > 0,
    ;
    lemma_fundamental_div_mod(p * UNIT, whole);
    let rest = (p * UNIT) % whole;
    assert(q * d <= p < q * d + d) by (nonlinear_arith)
        requires
            p * UNIT == whole * q + rest,
            0 <= rest < whole,
            whole == d * UNIT,
            UNIT == 0x1_0000_0000,
    ;
    assert((q * d) as real == (q as real) * (d as real)) by (nonlinear_arith);
}

/// `x = (t / 2^32) e / d`, times `d`.
proof fn exact_step(t: real, e: real, d: real)
    requires
        d > 0real,
    ensures
        ((t / 4294967296real) * e / d * 4294967296real) * d == t * e,
{
    let u = t / 4294967296real;
    let x = u * e / d;
    assert(x * d == u * e) by (nonlinear_arith)
        requires
            x == u * e / d,
            d > 0real,
    ;
    assert(u * e * 4294967296real == t * e) by (nonlinear_arith)
        requires
            u * 4294967296real == t,
    ;
    assert((x * 4294967296real) * d == x * d * 4294967296real) by (nonlinear_arith);
}

/// One more term of the rounded exponential series.
proof fn growth_step(t: int, r: int, d: int, e: real, slack: real)
    requires
        0 <= t <= UNIT,
        0 <= r,
        d > 0,
        0real <= slack,
        e * 4294967296real - slack <= (r as real) <= e * 4294967296real,
    ensures
        ({
            let q = (((t * r) / (UNIT as int)) * UNIT) / (d * UNIT);
            let x = ((t as real) / 4294967296real) * e / (d as real) * 4294967296real;
            &&& (q as real) <= x
            &&& x * (d as real) < (q as real) * (d as real) + (d as real) + slack + 1real
        }),
{
    let p = (t * r) / (UNIT as int);
    let q = (p * UNIT) / (d * UNIT);
    let (tr, rr, pr, qr, dr) = (t as real, r as real, p as real, q as real, d as real);
    let x = (tr / 4294967296real) * e / dr * 4294967296real;
    rounded_step(t, r, d);
    exact_step(tr, e, dr);
    let top = e * 4294967296real;
    assert(tr * rr <= tr * top) by (nonlinear_arith)
        requires
            0real <= tr,
            rr <= top,
    ;
    assert(tr * top == (tr * e) * 4294967296real) by (nonlinear_arith)
        requires
            top == e * 4294967296real,
    ;
    assert(tr * (top - slack) <= tr * rr) by (nonlinear_arith)
        requires
            0real <= tr,
            top - slack <= rr,
    ;
    assert(tr * (top - slack) == tr * top - tr * slack) by (nonlinear_arith);
    assert(tr * slack <= 4294967296real * slack) by (nonlinear_arith)
        requires
            tr <= 4294967296real,
            0real <= slack,
    ;
    assert(qr * dr <= x * dr);
    assert(qr <= x) by (nonlinear_arith)
        requires
            qr * dr <= x * dr,
            0real < dr,
    ;
}

/// How many units the rounded exponential series falls short, from term `k` on.
spec fn growth_slack(k: nat) -> real {
    if k >= 3 {
        2real
    } else if k == 2 {
        5real / 2real
    } else {
        9real / 2real
    }
}

proof fn growth_tracks(t: Fixed, k: nat)
    requires
        0 <= t.raw <= UNIT,
        1 <= k <= 13,
    ensures
        ({
            let r = crate::fixed::growth(t, k, 12).raw;
            let e = exact_growth((t.raw as real) / 4294967296real, k, 12);
            &&& UNIT <= r <= 3 * UNIT
            &&& k >= 2 ==> r <= 2 * UNIT
            &&& e * 4294967296real - growth_slack(k) <= (r as real) <= e * 4294967296real
        }),
    decreases 13 - k,
{
    if k <= 12 {
        growth_tracks(t, k + 1);
        let r = crate::fixed::growth(t, k + 1, 12).raw as int;
        let e = exact_growth((t.raw as real) / 4294967296real, k + 1, 12);
        let d = k as int;
        let p = (t.raw * r) / (UNIT as int);
        let q = (p * UNIT) / (d * UNIT);
        growth_step(t.raw as int, r, d, e, growth_slack(k + 1));
        rounded_step(t.raw as int, r, d);
        assert(0 <= t.raw * r <= UNIT * r) by (nonlinear_arith)
            requires
                0 <= t.raw <= UNIT,
                0 <= r,
        ;
        lemma_fundamental_div_mod(t.raw * r, UNIT as int);
        assert(0 <= p <= r) by (nonlinear_arith)
            requires
                0 <= t.raw * r <= UNIT * r,
                t.raw * r == UNIT * p + (t.raw * r) % (UNIT as int),
                0 <= (t.raw * r) % (UNIT as int) < UNIT,
                UNIT == 0x1_0000_0000,
        ;
        assert(Fixed::of_count(k as u64).raw == d * UNIT);
        assert((q * d) as real == (q as real) * (d as real)) by (nonlinear_arith);
        assert(q * d <= p);
        assert(p < q * d + d);
        assert(0 <= q <= p) by (nonlinear_arith)
            requires
                q * d <= p,
                p < q * d + d,
                0 <= p,
                d >= 1,
        ;
        if k >= 2 {
            assert(2 * q <= p) by (nonlinear_arith)
                requires
                    q * d <= p,
                    0 <= q,
                    d >= 2,
            ;
        }
        assert(t.times(crate::fixed::growth(t, k + 1, 12)).raw == p);
        assert(crate::fixed::growth(t, k, 12).raw == UNIT + q);
        let (qr, dr) = (q as real, d as real);
        let x = ((t.raw as real) / 4294967296real) * e / dr * 4294967296real;
        if k >= 3 {
            assert(x < qr + 2real) by (nonlinear_arith)
                requires
                    x * dr < qr * dr + dr + 2real + 1real,
                    3real <= dr,
            ;
        } else if k == 2 {
            assert(x < qr + 5real / 2real) by (nonlinear_arith)
                requires
                    x * dr < qr * dr + dr + 2real + 1real,
                    dr == 2real,
            ;
        } else {
            assert(x < qr + 9real / 2real) by (nonlinear_arith)
                requires
                    x * dr < qr * dr + dr + 5real / 2real + 1real,
                    dr == 1real,
            ;
        }
        assert(exact_growth((t.raw as real) / 4294967296real, k, 12) * 4294967296real
            == 4294967296real + x);
    }
}

proof fn exact_growth_is_bounded(t: real, k: nat, last: nat)
    requires
        0real <= t <= 1real,
        k >= 2,
    ensures
        1real <= exact_growth(t, k, last) <= 2real,
    decreases last + 1 - k,
{
    if k <= last {
        exact_growth_is_bounded(t, k + 1, last);
        let e = exact_growth(t, k + 1, last);
        let d = k as real;
        let x = t * e / d;
        assert(0real <= t * e <= 2real) by (nonlinear_arith)
            requires
                0real <= t <= 1real,
                1real <= e <= 2real,
        ;
        quotient_in_range(t * e, d, x);
    }
}

proof fn quotient_in_range(n: real, d: real, x: real)
    requires
        0real <= n <= 2real,
        2real <= d,
        x == n / d,
    ensures
        0real <= x <= 1real,
{
    assert(x * d == n) by (nonlinear_arith)
        requires
            x == n / d,
            2real <= d,
    ;
    assert(0real <= x <= 1real) by (nonlinear_arith)
        requires
            x * d == n,
            0real <= n <= 2real,
            2real <= d,
    ;
}

/// How much further terms add to the exponential series from term `k` on, at most.
spec fn growth_tail(k: nat) -> real
    decreases 13 - k,
{
    if k >= 13 {
        2real / 13real
    } else {
        growth_tail(k + 1) / (k as real)
    }
}

proof fn more_terms_add_little(t: real, k: nat, last: nat)
    requires
        0real <= t <= 1real,
        1 <= k <= 13,
        last >= 12,
    ensures
        0real <= exact_growth(t, k, last) - exact_growth(t, k, 12) <= growth_tail(k),
    decreases 13 - k,
{
    if k == 13 {
        if last >= 13 {
            exact_growth_is_bounded(t, 14, last);
            let e = exact_growth(t, 14, last);
            assert(0real <= t * e <= 2real) by (nonlinear_arith)
                requires
                    0real <= t <= 1real,
                    1real <= e <= 2real,
            ;
        }
    } else {
        more_terms_add_little(t, k + 1, last);
        let (e, f) = (exact_growth(t, k + 1, last), exact_growth(t, k + 1, 12));
        let d = k as real;
        assert(0real <= t * e - t * f <= growth_tail(k + 1)) by (nonlinear_arith)
            requires
                0real <= t <= 1real,
                0real <= e - f <= growth_tail(k + 1),
        ;
        difference_of_quotients(t * e, t * f, growth_tail(k + 1), d);
    }
}

proof fn difference_of_quotients(a: real, b: real, c: real, d: real)
    requires
        0real < d,
    ensures
        a / d - b / d == (a - b) / d,
        0real <= a - b ==> 0real <= a / d - b / d,
        a - b <= c ==> a / d - b / d <= c / d,
{
    let (x, y, z, w) = (a / d, b / d, c / d, (a - b) / d);
    assert(x * d == a && y * d == b && z * d == c && w * d == a - b) by (nonlinear_arith)
        requires
            x == a / d,
            y == b / d,
            z == c / d,
            w == (a - b) / d,
            0real < d,
    ;
    assert((x - y) * d == x * d - y * d) by (nonlinear_arith);
    assert(x - y == w) by (nonlinear_arith)
        requires
            (x - y) * d == w * d,
            0real < d,
    ;
    assert(0real <= a - b ==> 0real <= x - y) by (nonlinear_arith)
        requires
            (x - y) * d == a - b,
            0real < d,
    ;
    assert(a - b <= c ==> x - y <= z) by (nonlinear_arith)
        requires
            (x - y) * d == a - b,
            z * d == c,
            0real < d,
    ;
}

/// The rounded exponential series falls short of every longer exact one by at most six
/// units of the last place, and never exceeds it.
pub proof fn growth_is_close(t: Fixed, last: nat)
    requires
        0 <= t.raw <= UNIT,
        last >= GROWTH_TERMS,
    ensures
        ({
            let r = crate::fixed::growth(t, 1, GROWTH_TERMS as nat).raw as real;
            let e = exact_growth((t.raw as real) / 4294967296real, 1, last) * 4294967296real;
            e - 6real <= r <= e
        }),
{
    let u = (t.raw as real) / 4294967296real;
    growth_tracks(t, 1);
    more_terms_add_little(u, 1, last);
    assert(growth_tail(13) == 2real / 13real);
    assert(growth_tail(12) == growth_tail(13) / 12real);
    assert(growth_tail(11) == growth_tail(12) / 11real);
    assert(growth_tail(10) == growth_tail(11) / 10real);
    assert(growth_tail(9) == growth_tail(10) / 9real);
    assert(growth_tail(8) == growth_tail(9) / 8real);
    assert(growth_tail(7) == growth_tail(8) / 7real);
    assert(growth_tail(6) == growth_tail(7) / 6real);
    assert(growth_tail(5) == growth_tail(6) / 5real);
    assert(growth_tail(4) == growth_tail(5) / 4real);
    assert(growth_tail(3) == growth_tail(4) / 3real);
    assert(growth_tail(2) == growth_tail(3) / 2real);
    assert(growth_tail(1) == growth_tail(2));
}

/// The divisor of term `k` of the sine series.
spec fn swing_divisor(k: nat) -> int {
    (2 * k * (2 * k + 1)) as int
}

/// The divisor of a term, multiplied out.
proof fn swing_divisor_of(k: nat, even: int)
    requires
        even == 2 * k,
        2 <= even <= 16,
    ensures
        even == 2 ==> swing_divisor(k) == 6,
        even == 4 ==> swing_divisor(k) == 20,
        even == 6 ==> swing_divisor(k) == 42,
        even == 8 ==> swing_divisor(k) == 72,
        even == 10 ==> swing_divisor(k) == 110,
        even == 12 ==> swing_divisor(k) == 156,
        even == 14 ==> swing_divisor(k) == 210,
        even == 16 ==> swing_divisor(k) == 272,
{
    assert(even * (even + 1) == even * even + even) by (nonlinear_arith);
    assert(even == 2 ==> even * even == 4) by (nonlinear_arith);
    assert(even == 4 ==> even * even == 16) by (nonlinear_arith);
    assert(even == 6 ==> even * even == 36) by (nonlinear_arith);
    assert(even == 8 ==> even * even == 64) by (nonlinear_arith);
    assert(even == 10 ==> even * even == 100) by (nonlinear_arith);
    assert(even == 12 ==> even * even == 144) by (nonlinear_arith);
    assert(even == 14 ==> even * even == 196) by (nonlinear_arith);
    assert(even == 16 ==> even * even == 256) by (nonlinear_arith);
}

proof fn swing_divisor_in_range(k: nat)
    requires
        1 <= k,
    ensures
        6 <= swing_divisor(k),
        k <= 8 ==> swing_divisor(k) <= 272,
{
    let even = 2 * k;
    assert(6 <= even * (even + 1)) by (nonlinear_arith)
        requires
            2 <= even,
    ;
    if k <= 8 {
        assert(even * (even + 1) <= 16 * 17) by (nonlinear_arith)
            requires
                0 <= even <= 16,
        ;
    }
}

/// One more term of the rounded sine series.
proof fn swing_step(s: int, r: int, d: int, e: real)
    requires
        0 <= 2 * s <= 5 * UNIT,
        0 <= r,
        d >= 6,
        e * 4294967296real - 2real <= (r as real) <= e * 4294967296real + 2real,
    ensures
        ({
            let q = (((s * r) / (UNIT as int)) * UNIT) / (d * UNIT);
            let x = ((s as real) / 4294967296real) * e / (d as real) * 4294967296real;
            x - 2real <= (q as real) <= x + 2real
        }),
{
    let p = (s * r) / (UNIT as int);
    let q = (p * UNIT) / (d * UNIT);
    let (sr, rr, pr, qr, dr) = (s as real, r as real, p as real, q as real, d as real);
    let x = (sr / 4294967296real) * e / dr * 4294967296real;
    rounded_step(s, r, d);
    exact_step(sr, e, dr);
    let top = e * 4294967296real;
    assert(sr * (top - 2real) <= sr * rr <= sr * (top + 2real)) by (nonlinear_arith)
        requires
            0real <= sr,
            top - 2real <= rr <= top + 2real,
    ;
    assert(sr * (top - 2real) == sr * top - 2real * sr) by (nonlinear_arith);
    assert(sr * (top + 2real) == sr * top + 2real * sr) by (nonlinear_arith);
    assert(sr * top == (sr * e) * 4294967296real) by (nonlinear_arith)
        requires
            top == e * 4294967296real,
    ;
    assert(qr * dr <= x * dr + 5real);
    assert(x * dr < qr * dr + dr + 6real);
    assert(qr <= x + 2real && x <= qr + 2real) by (nonlinear_arith)
        requires
            qr * dr <= x * dr + 5real,
            x * dr < qr * dr + dr + 6real,
            6real <= dr,
    ;
}

proof fn swing_tracks(s: Fixed, k: nat)
    requires
        0 <= 2 * s.raw <= 5 * UNIT,
        1 <= k <= 8,
    ensures
        ({
            let r = crate::fixed::swing(s, k, 7).raw;
            let e = exact_swing((s.raw as real) / 4294967296real, k, 7) * 4294967296real;
            &&& 0 <= r <= UNIT
            &&& e - 2real <= (r as real) <= e + 2real
        }),
    decreases 8 - k,
{
    if k <= 7 {
        swing_tracks(s, k + 1);
        let r = crate::fixed::swing(s, k + 1, 7).raw as int;
        let e = exact_swing((s.raw as real) / 4294967296real, k + 1, 7);
        let d = swing_divisor(k);
        swing_divisor_in_range(k);
        let p = (s.raw * r) / (UNIT as int);
        let q = (p * UNIT) / (d * UNIT);
        swing_step(s.raw as int, r, d, e);
        rounded_step(s.raw as int, r, d);
        assert(0 <= s.raw * r <= s.raw * UNIT) by (nonlinear_arith)
            requires
                0 <= s.raw,
                0 <= r <= UNIT,
        ;
        lemma_fundamental_div_mod(s.raw * r, UNIT as int);
        assert(0 <= p <= s.raw) by (nonlinear_arith)
            requires
                0 <= s.raw * r <= s.raw * UNIT,
                s.raw * r == UNIT * p + (s.raw * r) % (UNIT as int),
                0 <= (s.raw * r) % (UNIT as int) < UNIT,
                UNIT == 0x1_0000_0000,
        ;
        assert(Fixed::of_count((2 * k * (2 * k + 1)) as u64).raw == d * UNIT);
        assert((q * d) as real == (q as real) * (d as real)) by (nonlinear_arith);
        assert(q * d <= p);
        assert(p < q * d + d);
        assert(0 <= q && 6 * q <= p) by (nonlinear_arith)
            requires
                q * d <= p,
                p < q * d + d,
                0 <= p,
                d >= 6,
        ;
        assert(s.times(crate::fixed::swing(s, k + 1, 7)).raw == p);
        assert(crate::fixed::swing(s, k, 7).raw == UNIT - q);
        let x = ((s.raw as real) / 4294967296real) * e / (d as real) * 4294967296real;
        assert(exact_swing((s.raw as real) / 4294967296real, k, 7) * 4294967296real
            == 4294967296real - x);
    }
}

proof fn exact_swing_is_bounded(s: real, k: nat, last: nat)
    requires
        0real <= s <= 5real / 2real,
        k >= 1,
    ensures
        0real <= exact_swing(s, k, last) <= 1real,
    decreases last + 1 - k,
{
    if k <= last {
        exact_swing_is_bounded(s, k + 1, last);
        swing_divisor_in_range(k);
        let e = exact_swing(s, k + 1, last);
        let d = swing_divisor(k) as real;
        assert(0real <= s * e <= 5real / 2real) by (nonlinear_arith)
            requires
                0real <= s <= 5real / 2real,
                0real <= e <= 1real,
        ;
        quotient_is_small(s * e, d, 5real / 2real);
    }
}

/// A quotient by six or more is at most a sixth.
proof fn quotient_is_small(n: real, d: real, bound: real)
    requires
        -bound <= n <= bound,
        6real <= d,
    ensures
        -bound <= 6real * (n / d) <= bound,
        0real <= n ==> 0real <= n / d,
{
    let x = n / d;
    assert(x * d == n) by (nonlinear_arith)
        requires
            x == n / d,
            6real <= d,
    ;
    assert(6real * x <= bound) by (nonlinear_arith)
        requires
            x * d == n,
            n <= bound,
            0real <= bound,
            6real <= d,
    ;
    assert(-bound <= 6real * x) by (nonlinear_arith)
        requires
            x * d == n,
            -bound <= n,
            0real <= bound,
            6real <= d,
    ;
    assert(0real <= n ==> 0real <= x) by (nonlinear_arith)
        requires
            x * d == n,
            6real <= d,
    ;
}

proof fn more_terms_change_little(s: real, k: nat, last: nat)
    requires
        0real <= s <= 5real / 2real,
        1 <= k <= 8,
        last >= 7,
    ensures
        ({
            let (e, f) = (exact_swing(s, k, last), exact_swing(s, k, 7));
            -swing_bound(k) <= e - f <= swing_bound(k)
        }),
    decreases 8 - k,
{
    swing_divisor_in_range(k);
    if k == 8 {
        swing_divisor_of(8, 16);
        if last >= 8 {
            exact_swing_is_bounded(s, 9, last);
            let e = exact_swing(s, 9, last);
            assert(0real <= s * e <= 5real / 2real) by (nonlinear_arith)
                requires
                    0real <= s <= 5real / 2real,
                    0real <= e <= 1real,
            ;
            let d = swing_divisor(8) as real;
            quotient_within(s * e, d, 5real / 2real);
            assert(d == 272real);
            assert(exact_swing(s, 8, last) == 1real - s * e / d);
        }
        assert(exact_swing(s, 8, 7) == 1real);
    } else {
        more_terms_change_little(s, k + 1, last);
        let (e, f) = (exact_swing(s, k + 1, last), exact_swing(s, k + 1, 7));
        let d = swing_divisor(k) as real;
        let b = swing_bound(k + 1);
        assert(-(b * 5real / 2real) <= s * e - s * f <= b * 5real / 2real) by (nonlinear_arith)
            requires
                0real <= s <= 5real / 2real,
                -b <= e - f <= b,
                0real <= b,
        ;
        difference_of_quotients(s * e, s * f, 0real, d);
        quotient_within(s * e - s * f, d, b * 5real / 2real);
    }
}

/// A quotient lies as far within the divided bound as its dividend within the bound.
proof fn quotient_within(n: real, d: real, bound: real)
    requires
        -bound <= n <= bound,
        0real < d,
    ensures
        -(bound / d) <= n / d <= bound / d,
{
    let (x, y) = (n / d, bound / d);
    assert(x * d == n && y * d == bound) by (nonlinear_arith)
        requires
            x == n / d,
            y == bound / d,
            0real < d,
    ;
    assert(-y <= x <= y) by (nonlinear_arith)
        requires
            x * d == n,
            y * d == bound,
            -bound <= n <= bound,
            0real < d,
    ;
}

/// How much further terms change the sine series from term `k` on, at most.
spec fn swing_bound(k: nat) -> real
    decreases 8 - k,
{
    if k >= 8 {
        5real / 544real
    } else {
        swing_bound(k + 1) * 5real / 2real / (swing_divisor(k) as real)
    }
}

/// The sine series hardly depends on the last place of the squared angle.
proof fn swing_is_steady(s: real, r: real, k: nat, last: nat)
    requires
        0real <= r <= s <= 5real / 2real,
        k >= 1,
    ensures
        ({
            let (e, f) = (exact_swing(s, k, last), exact_swing(r, k, last));
            let b = (s - r) * 3real / 10real;
            -b <= e - f <= b
        }),
    decreases last + 1 - k,
{
    if k <= last {
        swing_is_steady(s, r, k + 1, last);
        exact_swing_is_bounded(s, k + 1, last);
        swing_divisor_in_range(k);
        let (e, f) = (exact_swing(s, k + 1, last), exact_swing(r, k + 1, last));
        let d = swing_divisor(k) as real;
        let g = s - r;
        let b = g * 3real / 10real;
        assert(s * e - r * f == g * e + r * (e - f)) by (nonlinear_arith)
            requires
                g == s - r,
        ;
        assert(0real <= g * e <= g) by (nonlinear_arith)
            requires
                0real <= g,
                0real <= e <= 1real,
        ;
        assert(-(b * 5real / 2real) <= r * (e - f) <= b * 5real / 2real) by (nonlinear_arith)
            requires
                0real <= r <= 5real / 2real,
                -b <= e - f <= b,
                0real <= b,
        ;
        difference_of_quotients(s * e, r * f, 0real, d);
        quotient_is_small(s * e - r * f, d, g * 7real / 4real);
    }
}

/// The sine of an angle in the first quarter is within seven units of the last place of
/// every longer exact series.
pub proof fn rise_is_close(angle: Fixed, last: nat)
    requires
        0 <= angle.raw <= QUARTER_TURN,
        last >= SWING_TERMS,
    ensures
        ({
            let a = (angle.raw as real) / 4294967296real;
            let exact = a * exact_swing(a * a, 1, last) * 4294967296real;
            let r = crate::fixed::rise(angle).raw as real;
            exact - 7real <= r <= exact + 7real
        }),
{
    let n = angle.raw as int;
    let a = (n as real) / 4294967296real;
    let s = angle.times(angle);
    let square = (n * n) / (UNIT as int);
    lemma_fundamental_div_mod(n * n, UNIT as int);
    assert(0 <= n * n <= QUARTER_TURN * QUARTER_TURN) by (nonlinear_arith)
        requires
            0 <= n <= QUARTER_TURN,
    ;
    assert(QUARTER_TURN * QUARTER_TURN == 6_746_518_852int * 6_746_518_852int);
    assert(0 <= 2 * square <= 5 * UNIT);
    assert(s.raw == square);
    let t = (square as real) / 4294967296real;
    assert((n * n) as real == (n as real) * (n as real)) by (nonlinear_arith);
    assert((n as real) * (n as real) == (a * a) * 4294967296real * 4294967296real)
        by (nonlinear_arith)
        requires
            a * 4294967296real == n as real,
    ;
    assert(t <= a * a <= t + 1real / 4294967296real);
    assert(a * a <= 5real / 2real);
    swing_tracks(s, 1);
    more_terms_change_little(t, 1, last);
    swing_is_steady(a * a, t, 1, last);
    swing_bound_is_tiny();
    let w = crate::fixed::swing(s, 1, 7).raw as int;
    let e = exact_swing(a * a, 1, last);
    assert(e * 4294967296real - 10real / 3real <= (w as real) <= e * 4294967296real + 10real
        / 3real);
    // The product with the angle.
    let p = (n * w) / (UNIT as int);
    lemma_fundamental_div_mod(n * w, UNIT as int);
    assert(0 <= n * w <= n * UNIT) by (nonlinear_arith)
        requires
            0 <= n,
            0 <= w <= UNIT,
    ;
    assert(crate::fixed::rise(angle).raw == p);
    assert((n * w) as real == (n as real) * (w as real)) by (nonlinear_arith);
    let (nr, wr, top) = (n as real, w as real, e * 4294967296real);
    assert(nr * (top - 10real / 3real) <= nr * wr <= nr * (top + 10real / 3real))
        by (nonlinear_arith)
        requires
            0real <= nr,
            top - 10real / 3real <= wr <= top + 10real / 3real,
    ;
    assert(nr * (top - 10real / 3real) == nr * top - nr * 10real / 3real) by (nonlinear_arith);
    assert(nr * (top + 10real / 3real) == nr * top + nr * 10real / 3real) by (nonlinear_arith);
    assert(nr * top == (a * e * 4294967296real) * 4294967296real) by (nonlinear_arith)
        requires
            top == e * 4294967296real,
            a * 4294967296real == nr,
    ;
}

proof fn swing_bound_is_tiny()
    ensures
        0real <= swing_bound(1) * 4294967296real <= 1real,
{
    assert(swing_bound(8) == 5real / 544real);
    swing_divisor_of(7, 14);
    swing_divisor_of(6, 12);
    swing_divisor_of(5, 10);
    swing_divisor_of(4, 8);
    swing_divisor_of(3, 6);
    swing_divisor_of(2, 4);
    swing_divisor_of(1, 2);
    assert(swing_bound(7) == swing_bound(8) * 5real / 2real / 210real);
    assert(swing_bound(6) == swing_bound(7) * 5real / 2real / 156real);
    assert(swing_bound(5) == swing_bound(6) * 5real / 2real / 110real);
    assert(swing_bound(4) == swing_bound(5) * 5real / 2real / 72real);
    assert(swing_bound(3) == swing_bound(4) * 5real / 2real / 42real);
    assert(swing_bound(2) == swing_bound(3) * 5real / 2real / 20real);
    assert(swing_bound(1) == swing_bound(2) * 5real / 2real / 6real);
}

/// The exponential is a mantissa, shifted: with `n` the whole part of `x log2 e` and `t` the
/// rest of it times `ln 2`, the mantissa is within six units of the last place of every
/// longer exponential series at `t`.
pub proof fn exponential_is_close(x: Fixed, last: nat)
    requires
        last >= GROWTH_TERMS,
    ensures
        ({
            let y = x.times(Fixed { raw: LOG2_E }).raw as int;
            let rest = Fixed { raw: (y % (UNIT as int)) as i64 };
            let t = rest.times(Fixed { raw: LN_2 });
            let mantissa = crate::fixed::growth(t, 1, GROWTH_TERMS as nat);
            let e = exact_growth((t.raw as real) / 4294967296real, 1, last) * 4294967296real;
            &&& 0 <= t.raw <= UNIT
            &&& x.exponential() == crate::fixed::held(
                crate::fixed::shifted(mantissa.raw as int, y / (UNIT as int)),
            )
            &&& e - 6real <= (mantissa.raw as real) <= e
        }),
{
    let y = x.times(Fixed { raw: LOG2_E }).raw as int;
    let rest = y % (UNIT as int);
    let p = (rest * LN_2) / (UNIT as int);
    lemma_fundamental_div_mod(rest * LN_2, UNIT as int);
    assert(0 <= rest * LN_2 <= UNIT * LN_2) by (nonlinear_arith)
        requires
            0 <= rest < UNIT,
            0 < LN_2,
    ;
    growth_is_close(Fixed { raw: p as i64 }, last);
}

/// The sine is that of an angle folded into the first quarter, up to its sign, and within
/// seven units of the last place of every longer sine series at that angle.
pub proof fn sine_is_close(x: Fixed, last: nat)
    requires
        last >= SWING_TERMS,
    ensures
        ({
            let turn = x.wrapped(Fixed { raw: FULL_TURN }).raw as int;
            let half = if turn <= HALF_TURN {
                turn
            } else {
                turn - HALF_TURN
            };
            let folded = if half <= QUARTER_TURN {
                half
            } else {
                HALF_TURN - half
            };
            let a = (folded as real) / 4294967296real;
            let exact = a * exact_swing(a * a, 1, last) * 4294967296real;
            let r = if turn <= HALF_TURN {
                x.sine().raw as real
            } else {
                0real - (x.sine().raw as real)
            };
            &&& 0 <= folded <= QUARTER_TURN
            &&& exact - 7real <= r <= exact + 7real
        }),
{
    let turn = x.wrapped(Fixed { raw: FULL_TURN }).raw as int;
    let half = if turn <= HALF_TURN {
        turn
    } else {
        turn - HALF_TURN
    };
    let folded = if half <= QUARTER_TURN {
        half
    } else {
        HALF_TURN - half
    };
    let angle = Fixed { raw: folded as i64 };
    rise_is_close(angle, last);
    assert(crate::fixed::arch(Fixed { raw: half as i64 }) == crate::fixed::rise(angle));
    rise_is_small(angle);
}

/// The sine of an angle in the first quarter is not negative, and hardly above one.
proof fn rise_is_small(angle: Fixed)
    requires
        0 <= angle.raw <= QUARTER_TURN,
    ensures
        0 <= crate::fixed::rise(angle).raw <= QUARTER_TURN,
{
    let n = angle.raw as int;
    let square = (n * n) / (UNIT as int);
    lemma_fundamental_div_mod(n * n, UNIT as int);
    assert(0 <= n * n <= QUARTER_TURN * QUARTER_TURN) by (nonlinear_arith)
        requires
            0 <= n <= QUARTER_TURN,
    ;
    assert(QUARTER_TURN * QUARTER_TURN == 6_746_518_852int * 6_746_518_852int);
    swing_tracks(angle.times(angle), 1);
    let w = crate::fixed::swing(angle.times(angle), 1, 7).raw as int;
    lemma_fundamental_div_mod(n * w, UNIT as int);
    assert(0 <= n * w <= n * UNIT) by (nonlinear_arith)
        requires
            0 <= n,
            0 <= w <= UNIT,
    ;
}

} // verus!
