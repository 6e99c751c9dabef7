//! How far the binary64 operations are from the exact results.

use vstd::arithmetic::logarithm::log;
use vstd::arithmetic::power2::pow2;
use vstd::prelude::*;

use crate::binary64::{
    carried, nearest, product, quotient, round_half_even, rounded, Binary64, SIGNIFICAND_END,
    SIGNIFICAND_MIN,
};

verus! {

/// `2^e` for an exponent of either sign.
pub open spec fn two_to(e: int) -> real {
    if e >= 0 {
        pow2(e as nat) as real
    } else {
        1real / (pow2((-e) as nat) as real)
    }
}

/// The number that `a` stands for.
pub open spec fn value(a: Binary64) -> real {
    (a.significand as real) * two_to(a.exponent)
}

/// `got` differs from `exact` by at most one part in `unit`.
#[verifier::opaque]
pub open spec fn near(got: real, exact: real, unit: real) -> bool {
    &&& exact * (unit - 1real) <= got * unit
    &&& got * unit <= exact * (unit + 1real)
}

/// `near`, with the two factors named.
pub(crate) proof fn lemma_near(got: real, exact: real, unit: real, hi: real, lo: real)
    requires
        hi == unit + 1real,
        lo == unit - 1real,
    ensures
        near(got, exact, unit) <==> exact * lo <= got * unit <= exact * hi,
{
    reveal(near);
}

/// `got` differs from `exact` by at most one part in `2^53`: by half a unit in
/// the last place.
pub open spec fn within_half_ulp(got: real, exact: real) -> bool {
    near(got, exact, 0x20_0000_0000_0000real)
}

proof fn lemma_two_to_positive(e: int)
    ensures
        two_to(e) > 0real,
{
    if e >= 0 {
        vstd::arithmetic::power2::lemma_pow2_pos(e as nat);
    } else {
        vstd::arithmetic::power2::lemma_pow2_pos((-e) as nat);
        let p = pow2((-e) as nat) as real;
        assert(1real / p > 0real) by (nonlinear_arith)
            requires
                p > 0real,
        ;
    }
}

/// A normal number is positive.
pub(crate) proof fn lemma_value_positive(a: Binary64)
    requires
        a.normal(),
    ensures
        value(a) > 0real,
{
    lemma_two_to_positive(a.exponent);
    let m = a.significand as real;
    let t = two_to(a.exponent);
    assert(m * t > 0real) by (nonlinear_arith)
        requires
            m > 0real,
            t > 0real,
    ;
}

proof fn lemma_two_to_step(e: int)
    ensures
        two_to(e + 1) == 2real * two_to(e),
{
    if e >= 0 {
        vstd::arithmetic::power2::lemma_pow2_unfold((e + 1) as nat);
    } else {
        vstd::arithmetic::power2::lemma_pow2_unfold((-e) as nat);
        vstd::arithmetic::power2::lemma_pow2_pos((-e) as nat);
        vstd::arithmetic::power2::lemma_pow2_pos((-e - 1) as nat);
        vstd::arithmetic::power2::lemma2_to64();
        let p = pow2((-e) as nat) as real;
        let q = pow2((-e - 1) as nat) as real;
        assert(p == 2real * q);
        assert(1real / q == 2real * (1real / p)) by (nonlinear_arith)
            requires
                p == 2real * q,
                q > 0real,
        ;
        if e == -1 {
            assert(q == 1real);
            assert(1real / q == 1real) by (nonlinear_arith)
                requires
                    q == 1real,
            ;
        }
    }
}

proof fn lemma_two_to_adds_nat(a: int, b: nat)
    ensures
        two_to(a + b) == two_to(a) * two_to(b as int),
    decreases b,
{
    if b == 0 {
        vstd::arithmetic::power2::lemma2_to64();
        assert(two_to(a) * 1real == two_to(a)) by (nonlinear_arith);
    } else {
        lemma_two_to_adds_nat(a, (b - 1) as nat);
        lemma_two_to_step(a + b - 1);
        lemma_two_to_step(b - 1);
        let x = two_to(a);
        let y = two_to(b - 1);
        assert(2real * (x * y) == x * (2real * y)) by (nonlinear_arith);
    }
}

proof fn lemma_two_to_adds(a: int, b: int)
    ensures
        two_to(a + b) == two_to(a) * two_to(b),
{
    if b >= 0 {
        lemma_two_to_adds_nat(a, b as nat);
    } else {
        lemma_two_to_adds_nat(a + b, (-b) as nat);
        lemma_two_to_adds_nat(b, (-b) as nat);
        vstd::arithmetic::power2::lemma2_to64();
        let x = two_to(a);
        let y = two_to(b);
        let z = two_to(-b);
        let w = two_to(a + b);
        assert(w == x * y) by (nonlinear_arith)
            requires
                x == w * z,
                y * z == 1real,
        ;
    }
}

proof fn lemma_two_to_constants()
    ensures
        pow2(52) == SIGNIFICAND_MIN,
        pow2(53) == SIGNIFICAND_END,
        two_to(0) == 1real,
        two_to(52) == SIGNIFICAND_MIN as real,
        two_to(53) == SIGNIFICAND_END as real,
{
    vstd::arithmetic::power2::lemma2_to64();
    vstd::arithmetic::power2::lemma_pow2_adds(32, 20);
    vstd::arithmetic::power2::lemma_pow2_adds(32, 21);
}

pub(crate) proof fn lemma_real_mul(a: int, b: int)
    by (nonlinear_arith)
    ensures
        (a * b) as real == (a as real) * (b as real),
{
}

/// Rounding a quotient to an integer is off by at most one half, and the result
/// is even where it is off by just that.
pub proof fn lemma_round_half_even_nearest(n: nat, d: nat)
    requires
        d > 0,
    ensures
        ({
            let back = round_half_even(n, d) * d;
            &&& 2 * (back - n) <= d
            &&& 2 * (n - back) <= d
            &&& 2 * (back - n) == d || 2 * (n - back) == d ==> round_half_even(n, d) % 2 == 0
        }),
{
    let q = n / d;
    let m = round_half_even(n, d);
    vstd::arithmetic::div_mod::lemma_fundamental_div_mod(n as int, d as int);
    assert(q * d == d * q) by (nonlinear_arith);
    if m == q + 1 {
        assert(m * d == q * d + d) by (nonlinear_arith)
            requires
                m == q + 1,
        ;
    }
}

/// A quotient of at least `2^52` is rounded by at most one part in `2^53`.
proof fn lemma_round_half_even(n: nat, d: nat)
    requires
        d > 0,
        n >= SIGNIFICAND_MIN * d,
    ensures
        ({
            let back = round_half_even(n, d) * d;
            &&& n * (SIGNIFICAND_END - 1) <= back * SIGNIFICAND_END
            &&& back * SIGNIFICAND_END <= n * (SIGNIFICAND_END + 1)
        }),
{
    let q = n / d;
    let r = n % d;
    let m = round_half_even(n, d);
    vstd::arithmetic::div_mod::lemma_fundamental_div_mod(n as int, d as int);
    assert(n == q * d + r) by (nonlinear_arith)
        requires
            n == d * q + r,
    ;
    assert(0 <= r < d);
    let back = m * d;
    if m == q + 1 {
        assert(back == q * d + d) by (nonlinear_arith)
            requires
                back == m * d,
                m == q + 1,
        ;
    }
    assert(2 * (back - n) <= d && 2 * (n - back) <= d);
    assert(n * (SIGNIFICAND_END - 1) <= back * SIGNIFICAND_END) by (nonlinear_arith)
        requires
            2 * (n - back) <= d,
            n >= SIGNIFICAND_MIN * d,
    ;
    assert(back * SIGNIFICAND_END <= n * (SIGNIFICAND_END + 1)) by (nonlinear_arith)
        requires
            2 * (back - n) <= d,
            n >= SIGNIFICAND_MIN * d,
    ;
}

/// The same, at any scale.
proof fn lemma_round_half_even_scaled(n: nat, d: nat, t: real)
    requires
        d > 0,
        n >= SIGNIFICAND_MIN * d,
        t > 0real,
    ensures
        within_half_ulp((round_half_even(n, d) as real) * (d as real) * t, (n as real) * t),
{
    reveal(near);
    lemma_round_half_even(n, d);
    let m = round_half_even(n, d);
    let back = m * d;
    let mr = m as real;
    let dr = d as real;
    let br = back as real;
    let nr = n as real;
    let u = SIGNIFICAND_END as real;
    lemma_real_mul(m as int, d as int);
    lemma_real_mul(n as int, SIGNIFICAND_END - 1);
    lemma_real_mul(back as int, SIGNIFICAND_END as int);
    lemma_real_mul(n as int, SIGNIFICAND_END + 1);
    assert((nr * t) * (u - 1real) <= (br * t) * u) by (nonlinear_arith)
        requires
            nr * (u - 1real) <= br * u,
            t > 0real,
    ;
    assert((br * t) * u <= (nr * t) * (u + 1real)) by (nonlinear_arith)
        requires
            br * u <= nr * (u + 1real),
            t > 0real,
    ;
}

proof fn lemma_carried_value(m: nat, e: int)
    ensures
        value(carried(m, e)) == (m as real) * two_to(e),
{
    if m == SIGNIFICAND_END {
        lemma_two_to_step(e);
        let t = two_to(e);
        assert((SIGNIFICAND_MIN as real) * (2real * t) == (SIGNIFICAND_END as real) * t)
            by (nonlinear_arith);
    }
}

/// The logarithm of `x` is the exponent of the power of two below it.
proof fn lemma_log2_bounds(x: nat)
    requires
        x > 0,
    ensures
        log(2, x as int) >= 0,
        pow2(log(2, x as int) as nat) <= x < pow2((log(2, x as int) + 1) as nat),
    decreases x,
{
    broadcast use vstd::arithmetic::power2::lemma_pow2_unfold;

    vstd::arithmetic::power2::lemma2_to64();
    if x < 2 {
        vstd::arithmetic::logarithm::lemma_log0(2, x as int);
    } else {
        lemma_log2_bounds(x / 2);
        vstd::arithmetic::logarithm::lemma_log_s(2, x as int);
        let k = log(2, x as int);
        assert(pow2(k as nat) == 2 * pow2((k - 1) as nat));
        assert(pow2((k + 1) as nat) == 2 * pow2(k as nat));
    }
}

/// The number nearest to an integer is normal, and within half a unit in the
/// last place of it.
pub proof fn lemma_nearest(x: nat)
    requires
        x > 0,
    ensures
        nearest(x).normal(),
        within_half_ulp(value(nearest(x)), x as real),
{
    lemma_log2_bounds(x);
    lemma_two_to_constants();
    let k = log(2, x as int);
    let xr = x as real;
    let u = SIGNIFICAND_END as real;
    if k <= 52 {
        let j = (52 - k) as nat;
        vstd::arithmetic::power2::lemma_pow2_adds(k as nat, j);
        vstd::arithmetic::power2::lemma_pow2_adds((k + 1) as nat, j);
        vstd::arithmetic::power2::lemma_pow2_pos(j);
        assert(pow2(k as nat) * pow2(j) <= x * pow2(j) < pow2((k + 1) as nat) * pow2(j))
            by (nonlinear_arith)
            requires
                pow2(k as nat) <= x < pow2((k + 1) as nat),
                pow2(j) > 0,
        ;
        lemma_real_mul(x as int, pow2(j) as int);
        lemma_two_to_adds(j as int, -j);
        let t = two_to(j as int);
        let z = two_to(-j);
        assert((xr * t) * z == xr) by (nonlinear_arith)
            requires
                t * z == 1real,
        ;
        assert(value(nearest(x)) == xr);
        reveal(near);
        assert(xr * (u - 1real) <= xr * u && xr * u <= xr * (u + 1real)) by (nonlinear_arith)
            requires
                xr >= 0real,
        ;
    } else {
        let j = (k - 52) as nat;
        let d = pow2(j);
        vstd::arithmetic::power2::lemma_pow2_adds(52, j);
        vstd::arithmetic::power2::lemma_pow2_adds(53, j);
        vstd::arithmetic::power2::lemma_pow2_pos(j);
        lemma_quotient_bounds(x, d);
        lemma_round_half_even_scaled(x, d, 1real);
        lemma_carried_value(round_half_even(x, d), j as int);
        let m = round_half_even(x, d) as real;
        assert((m * (d as real)) * 1real == m * (d as real)) by (nonlinear_arith);
        assert(xr * 1real == xr) by (nonlinear_arith);
    }
}

/// A quotient between `2^52` and `2^53` is rounded to an integer between them.
proof fn lemma_quotient_bounds(n: nat, d: nat)
    requires
        d > 0,
        SIGNIFICAND_MIN * d <= n < SIGNIFICAND_END * d,
    ensures
        SIGNIFICAND_MIN <= round_half_even(n, d) <= SIGNIFICAND_END,
{
    assert(SIGNIFICAND_MIN <= n / d < SIGNIFICAND_END) by (nonlinear_arith)
        requires
            d > 0,
            SIGNIFICAND_MIN * d <= n < SIGNIFICAND_END * d,
    ;
}

/// An integer of at most 53 bits is represented exactly.
pub proof fn lemma_nearest_exact(x: nat)
    requires
        0 < x < SIGNIFICAND_END,
    ensures
        value(nearest(x)) == x as real,
{
    lemma_log2_bounds(x);
    lemma_two_to_constants();
    let k = log(2, x as int);
    if k > 53 {
        vstd::arithmetic::power2::lemma_pow2_strictly_increases(53, k as nat);
    }
    let j = (52 - k) as nat;
    lemma_real_mul(x as int, pow2(j) as int);
    lemma_two_to_adds(j as int, -j);
    let xr = x as real;
    let t = two_to(j as int);
    let z = two_to(-j);
    assert((xr * t) * z == xr) by (nonlinear_arith)
        requires
            t * z == 1real,
    ;
}

/// The computed quotient is normal, and within half a unit in the last place of
/// the exact one.
pub proof fn lemma_quotient(a: Binary64, b: Binary64)
    requires
        a.normal(),
        b.normal(),
    ensures
        quotient(a, b).normal(),
        within_half_ulp(value(quotient(a, b)) * value(b), value(a)),
{
    let am = a.significand;
    let bm = b.significand;
    let amr = am as real;
    let bmr = bm as real;
    lemma_two_to_constants();
    let (unit, shift) = if am >= bm {
        (SIGNIFICAND_MIN as nat, 52int)
    } else {
        (SIGNIFICAND_END as nat, 53int)
    };
    let n = am * unit;
    let e = a.exponent - b.exponent - shift;
    assert(SIGNIFICAND_MIN * bm <= n < SIGNIFICAND_END * bm) by (nonlinear_arith)
        requires
            n == am * unit,
            (am >= bm && unit == SIGNIFICAND_MIN) || (am < bm && unit == SIGNIFICAND_END),
            SIGNIFICAND_MIN <= am < SIGNIFICAND_END,
            SIGNIFICAND_MIN <= bm < SIGNIFICAND_END,
    ;
    lemma_quotient_bounds(n, bm);
    let m = round_half_even(n, bm);
    let mr = m as real;
    lemma_carried_value(m, e);
    let t = two_to(a.exponent - shift);
    lemma_two_to_positive(a.exponent - shift);
    lemma_round_half_even_scaled(n, bm, t);
    lemma_two_to_adds(e, b.exponent);
    lemma_two_to_adds(a.exponent - shift, shift);
    lemma_real_mul(am as int, unit as int);
    let te = two_to(e);
    let tb = two_to(b.exponent);
    let ta = two_to(a.exponent);
    let ts = unit as real;
    assert((mr * te) * (bmr * tb) == (mr * bmr) * t) by (nonlinear_arith)
        requires
            t == te * tb,
    ;
    assert((amr * ts) * t == amr * ta) by (nonlinear_arith)
        requires
            ta == t * ts,
    ;
}

/// The computed product is normal, and within half a unit in the last place of
/// the exact one.
pub proof fn lemma_product(a: Binary64, b: Binary64)
    requires
        a.normal(),
        b.normal(),
    ensures
        product(a, b).normal(),
        within_half_ulp(value(product(a, b)), value(a) * value(b)),
{
    let am = a.significand;
    let bm = b.significand;
    let amr = am as real;
    let bmr = bm as real;
    let p = am * bm;
    lemma_two_to_constants();
    assert(SIGNIFICAND_MIN * SIGNIFICAND_MIN <= p < SIGNIFICAND_END * SIGNIFICAND_END)
        by (nonlinear_arith)
        requires
            p == am * bm,
            SIGNIFICAND_MIN <= am < SIGNIFICAND_END,
            SIGNIFICAND_MIN <= bm < SIGNIFICAND_END,
    ;
    let (unit, shift) = if p < SIGNIFICAND_MIN * SIGNIFICAND_END {
        (SIGNIFICAND_MIN as nat, 52int)
    } else {
        (SIGNIFICAND_END as nat, 53int)
    };
    let e = a.exponent + b.exponent;
    lemma_quotient_bounds(p, unit);
    let m = round_half_even(p, unit);
    let mr = m as real;
    lemma_carried_value(m, e + shift);
    lemma_two_to_positive(e);
    lemma_round_half_even_scaled(p, unit, two_to(e));
    lemma_two_to_adds(e, shift);
    lemma_two_to_adds(a.exponent, b.exponent);
    lemma_real_mul(am as int, bm as int);
    let te = two_to(e);
    let ta = two_to(a.exponent);
    let tb = two_to(b.exponent);
    let ts = unit as real;
    assert(mr * (te * ts) == (mr * ts) * te) by (nonlinear_arith);
    assert((amr * bmr) * te == (amr * ta) * (bmr * tb)) by (nonlinear_arith)
        requires
            te == ta * tb,
    ;
}

/// Rounding to an integer is off by at most one half, and by less downwards,
/// unless the number does not fit 64 bits.
pub proof fn lemma_rounded(a: Binary64)
    requires
        a.normal(),
    ensures
        rounded(a) <= u64::MAX,
        value(a) < 0x1_0000_0000_0000_0000real ==> ({
            let r = rounded(a) as real;
            &&& 2real * (r - value(a)) <= 1real
            &&& 2real * (value(a) - r) < 1real
        }),
        value(a) >= 0x1_0000_0000_0000_0000real ==> rounded(a) == u64::MAX,
{
    lemma_two_to_constants();
    vstd::arithmetic::power2::lemma2_to64();
    let m = a.significand;
    let e = a.exponent;
    let mr = m as real;
    if e >= 12 {
        lemma_two_to_adds(12, e - 12);
        lemma_two_to_adds_nat(0, (e - 12) as nat);
        vstd::arithmetic::power2::lemma_pow2_pos((e - 12) as nat);
        let t = two_to(e);
        let s = two_to(e - 12);
        assert(s >= 1real);
        assert(mr * t >= 0x1_0000_0000_0000_0000real) by (nonlinear_arith)
            requires
                t == 4096real * s,
                s >= 1real,
                mr >= 0x10_0000_0000_0000real,
        ;
    } else if e >= 0 {
        lemma_real_mul(m as int, pow2(e as nat) as int);
        if e < 11 {
            vstd::arithmetic::power2::lemma_pow2_strictly_increases(e as nat, 11);
        }
        assert(m * pow2(e as nat) <= u64::MAX) by (nonlinear_arith)
            requires
                m < SIGNIFICAND_END,
                pow2(e as nat) <= 0x800,
        ;
    } else {
        let k = (-e) as nat;
        vstd::arithmetic::power2::lemma_pow2_unfold(k);
        vstd::arithmetic::power2::lemma_pow2_pos((k - 1) as nat);
        let d = pow2(k);
        let half = pow2((k - 1) as nat);
        let n = m + half;
        let r = rounded(a);
        vstd::arithmetic::div_mod::lemma_fundamental_div_mod(n as int, d as int);
        let rem = n % d;
        assert(n == r * d + rem) by (nonlinear_arith)
            requires
                n == d * r + rem,
        ;
        lemma_real_mul(r as int, d as int);
        let rr = r as real;
        let dr = d as real;
        let t = two_to(e);
        lemma_two_to_positive(e);
        assert(t * dr == 1real) by (nonlinear_arith)
            requires
                t == 1real / dr,
                dr > 0real,
        ;
        assert(2real * (rr * dr - mr) <= dr && 2real * (mr - rr * dr) < dr);
        assert(2real * (rr - mr * t) <= 1real && 2real * (mr * t - rr) < 1real)
            by (nonlinear_arith)
            requires
                2real * (rr * dr - mr) <= dr,
                2real * (mr - rr * dr) < dr,
                t * dr == 1real,
                dr > 0real,
                t > 0real,
        ;
        assert(r <= m) by (nonlinear_arith)
            requires
                2 * (r * d) <= 2 * m + d,
                d >= 1,
                m >= 0,
        ;
        assert(mr * t <= mr) by (nonlinear_arith)
            requires
                t * dr == 1real,
                dr >= 1real,
                mr >= 0real,
        ;
    }
}

} // verus!
