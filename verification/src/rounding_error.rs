//! How rounding errors add up in `c * (d / r)`.

use vstd::prelude::*;

use crate::accuracy::{lemma_near, near, within_half_ulp};

verus! {

pub(crate) proof fn lemma_mul_le(a: real, b: real, c: real)
    by (nonlinear_arith)
    requires
        a <= b,
        c >= 0real,
    ensures
        a * c <= b * c,
{
}

proof fn lemma_mul_positive(a: real, b: real)
    by (nonlinear_arith)
    requires
        a > 0real,
        b > 0real,
    ensures
        a * b > 0real,
{
}

pub(crate) proof fn lemma_mul_cancel(a: real, b: real, c: real)
    by (nonlinear_arith)
    requires
        a * c <= b * c,
        c > 0real,
    ensures
        a <= b,
{
}

/// The two inner factors of a product of two products change places.
proof fn lemma_mul_swap(a: real, b: real, c: real, d: real)
    by (nonlinear_arith)
    ensures
        (a * b) * (c * d) == (a * c) * (b * d),
{
}

proof fn lemma_mul_commutes(a: real, b: real)
    by (nonlinear_arith)
    ensures
        a * b == b * a,
{
}

proof fn lemma_mul_rotates(a: real, b: real, c: real)
    by (nonlinear_arith)
    ensures
        (a * b) * c == (a * c) * b,
{
}

proof fn lemma_mul_associates(a: real, b: real, c: real)
    by (nonlinear_arith)
    ensures
        (a * b) * c == a * (b * c),
{
}

proof fn lemma_regroup_factor(a: real, b: real, c: real, d: real)
    ensures
        ((a * b) * c) * d == (a * d) * (b * c),
{
    lemma_mul_associates(a * b, c, d);
    lemma_mul_commutes(c, d);
    lemma_mul_swap(a, b, d, c);
}

proof fn lemma_regroup_divisor(r: real, q: real, u: real)
    ensures
        (r * u) * (q * u) == ((q * r) * u) * u,
{
    lemma_mul_swap(r, u, q, u);
    lemma_mul_commutes(r, q);
    lemma_mul_associates(q * r, u, u);
}

proof fn lemma_regroup_powers(c: real, d: real, h: real)
    ensures
        ((d * h) * h) * ((c * h) * h) == (c * d) * ((h * h) * (h * h)),
{
    lemma_mul_swap(d * h, h, c * h, h);
    lemma_mul_swap(d, h, c, h);
    lemma_mul_commutes(d, c);
    lemma_mul_associates(c * d, h * h, h * h);
}

proof fn lemma_regroup_quotient(x: real, q: real, h: real, r: real, u: real)
    ensures
        (x * (q * h)) * (r * u) == (r * (q * u)) * (x * h),
{
    lemma_mul_swap(x, q * h, r, u);
    lemma_mul_rotates(q, h, u);
    lemma_mul_commutes(x, r);
    lemma_mul_swap(r, q * u, x, h);
}

proof fn lemma_regroup_product(p: real, u: real, r: real, l: real)
    ensures
        ((p * u) * u) * ((r * l) * u) == ((p * r) * u) * (l * u * u),
{
    lemma_mul_swap(p * u, u, r * l, u);
    lemma_mul_swap(p, u, r, l);
    lemma_mul_commutes(u, l);
    lemma_mul_swap(p * r, u, l * u, u);
}

/// Five roundings that each raise a result by a factor of at most `hi / u`, or
/// lower a divisor to no less than `lo / u` of it.
proof fn lemma_roundings_above(
    c: real,
    d: real,
    r: real,
    cf: real,
    df: real,
    rf: real,
    q: real,
    p: real,
    u: real,
    hi: real,
    lo: real,
)
    requires
        c > 0real,
        d > 0real,
        r > 0real,
        q > 0real,
        u > 0real,
        hi > 0real,
        lo > 0real,
        cf * u <= c * hi,
        df * u <= d * hi,
        r * lo <= rf * u,
        (q * rf) * u <= df * hi,
        p * u <= (cf * q) * hi,
    ensures
        ((p * r) * u) * (lo * u * u) <= (c * d) * ((hi * hi) * (hi * hi)),
{
    lemma_mul_positive(q, hi);
    lemma_mul_positive(q, u);
    lemma_mul_positive(r, lo);
    lemma_mul_positive(r * lo, u);
    lemma_mul_positive(c, hi);
    lemma_mul_positive(c * hi, hi);
    let pu = (p * u) * u;
    let cq = (c * hi) * (q * hi);
    assert(pu <= cq) by {
        lemma_mul_le(p * u, (cf * q) * hi, u);
        lemma_regroup_factor(cf, q, hi, u);
        lemma_mul_le(cf * u, c * hi, q * hi);
    }
    let rq = (r * lo) * (q * u);
    let dh = (d * hi) * hi;
    assert(rq <= dh) by {
        lemma_mul_le(r * lo, rf * u, q * u);
        lemma_regroup_divisor(rf, q, u);
        lemma_mul_le((q * rf) * u, df * hi, u);
        lemma_mul_rotates(df, hi, u);
        lemma_mul_le(df * u, d * hi, hi);
    }
    lemma_mul_le(pu, cq, (r * lo) * u);
    lemma_regroup_quotient(c * hi, q, hi, r * lo, u);
    lemma_mul_le(rq, dh, (c * hi) * hi);
    lemma_regroup_powers(c, d, hi);
    lemma_regroup_product(p, u, r, lo);
}

/// Five roundings that each lower a result to no less than `lo / u` of it, or
/// raise a divisor by a factor of at most `hi / u`.
proof fn lemma_roundings_below(
    c: real,
    d: real,
    r: real,
    cf: real,
    df: real,
    rf: real,
    q: real,
    p: real,
    u: real,
    hi: real,
    lo: real,
)
    requires
        c > 0real,
        d > 0real,
        r > 0real,
        q > 0real,
        u > 0real,
        hi > 0real,
        lo > 0real,
        c * lo <= cf * u,
        d * lo <= df * u,
        rf * u <= r * hi,
        df * lo <= (q * rf) * u,
        (cf * q) * lo <= p * u,
    ensures
        (c * d) * ((lo * lo) * (lo * lo)) <= ((p * r) * u) * (hi * u * u),
{
    lemma_mul_positive(q, lo);
    lemma_mul_positive(q, u);
    lemma_mul_positive(r, hi);
    lemma_mul_positive(r * hi, u);
    lemma_mul_positive(c, lo);
    lemma_mul_positive(c * lo, lo);
    let pu = (p * u) * u;
    let cq = (c * lo) * (q * lo);
    assert(cq <= pu) by {
        lemma_mul_le(c * lo, cf * u, q * lo);
        lemma_regroup_factor(cf, q, lo, u);
        lemma_mul_le((cf * q) * lo, p * u, u);
    }
    let rq = (r * hi) * (q * u);
    let dl = (d * lo) * lo;
    assert(dl <= rq) by {
        lemma_mul_le(d * lo, df * u, lo);
        lemma_mul_rotates(df, lo, u);
        lemma_mul_le(df * lo, (q * rf) * u, u);
        lemma_regroup_divisor(rf, q, u);
        lemma_mul_le(rf * u, r * hi, q * u);
    }
    lemma_mul_le(cq, pu, (r * hi) * u);
    lemma_regroup_quotient(c * lo, q, lo, r * hi, u);
    lemma_mul_le(dl, rq, (c * lo) * lo);
    lemma_regroup_powers(c, d, lo);
    lemma_regroup_product(p, u, r, hi);
}

proof fn lemma_cancel_above(pru: real, cd: real, u: real, lo: real, v: real, h4: real)
    requires
        cd > 0real,
        u > 0real,
        lo > 0real,
        pru * (lo * u * u) <= cd * h4,
        h4 <= v * (lo * u * u),
    ensures
        pru <= cd * v,
{
    lemma_mul_positive(lo, u);
    lemma_mul_positive(lo * u, u);
    lemma_mul_le(h4, v * (lo * u * u), cd);
    lemma_mul_commutes(h4, cd);
    lemma_mul_rotates(v, lo * u * u, cd);
    lemma_mul_commutes(v, cd);
    lemma_mul_cancel(pru, cd * v, lo * u * u);
}

proof fn lemma_cancel_below(pru: real, cd: real, u: real, hi: real, v: real, l4: real)
    requires
        cd > 0real,
        u > 0real,
        hi > 0real,
        cd * l4 <= pru * (hi * u * u),
        l4 >= v * (hi * u * u),
    ensures
        cd * v <= pru,
{
    lemma_mul_positive(hi, u);
    lemma_mul_positive(hi * u, u);
    lemma_mul_le(v * (hi * u * u), l4, cd);
    lemma_mul_commutes(l4, cd);
    lemma_mul_rotates(v, hi * u * u, cd);
    lemma_mul_commutes(v, cd);
    lemma_mul_cancel(cd * v, pru, hi * u * u);
}

/// Five roundings, of the three integers, of the quotient and of the product,
/// each to between `lo / u` and `hi / u` of what it rounds, leave the result
/// between `below / u` and `above / u` of `c * d / r`.
proof fn lemma_five_roundings(
    c: real,
    d: real,
    r: real,
    cf: real,
    df: real,
    rf: real,
    q: real,
    p: real,
    u: real,
    hi: real,
    lo: real,
    above: real,
    below: real,
)
    requires
        c > 0real,
        d > 0real,
        r > 0real,
        q > 0real,
        u > 0real,
        hi > 0real,
        lo > 0real,
        (hi * hi) * (hi * hi) <= above * (lo * u * u),
        (lo * lo) * (lo * lo) >= below * (hi * u * u),
        c * lo <= cf * u <= c * hi,
        d * lo <= df * u <= d * hi,
        r * lo <= rf * u <= r * hi,
        df * lo <= (q * rf) * u <= df * hi,
        (cf * q) * lo <= p * u <= (cf * q) * hi,
    ensures
        (c * d) * below <= (p * r) * u,
        (p * r) * u <= (c * d) * above,
{
    lemma_mul_positive(c, d);
    assert((p * r) * u <= (c * d) * above) by {
        lemma_roundings_above(c, d, r, cf, df, rf, q, p, u, hi, lo);
        lemma_cancel_above((p * r) * u, c * d, u, lo, above, (hi * hi) * (hi * hi));
    }
    assert((c * d) * below <= (p * r) * u) by {
        lemma_roundings_below(c, d, r, cf, df, rf, q, p, u, hi, lo);
        lemma_cancel_below((p * r) * u, c * d, u, hi, below, (lo * lo) * (lo * lo));
    }
}

pub(crate) proof fn lemma_mul_cancel_strict(a: real, b: real, c: real)
    by (nonlinear_arith)
    requires
        a * c < b * c,
        c > 0real,
    ensures
        a < b,
{
}

pub(crate) proof fn lemma_half_apart(s: real, v: real, r: real)
    by (nonlinear_arith)
    ensures
        (2real * (s - v)) * r == 2real * (s * r) - 2real * (v * r),
        (2real * (v - s)) * r == 2real * (v * r) - 2real * (s * r),
{
}

/// What `lemma_five_roundings` asks of its five factors.
#[verifier::opaque]
spec fn rounding_factors(u: real, hi: real, lo: real, above: real, below: real) -> bool {
    &&& u > 1real
    &&& hi == u + 1real
    &&& lo == u - 1real
    &&& (hi * hi) * (hi * hi) <= above * (lo * u * u)
    &&& (lo * lo) * (lo * lo) >= below * (hi * u * u)
}

proof fn lemma_near_factors(
    got: real,
    exact: real,
    u: real,
    hi: real,
    lo: real,
    above: real,
    below: real,
)
    requires
        rounding_factors(u, hi, lo, above, below),
        near(got, exact, u),
    ensures
        exact * lo <= got * u <= exact * hi,
{
    reveal(rounding_factors);
    lemma_near(got, exact, u, hi, lo);
}

proof fn lemma_rounding_factors(u: real, hi: real, lo: real, above: real, below: real)
    requires
        rounding_factors(u, hi, lo, above, below),
    ensures
        u > 0real,
        hi > 0real,
        lo > 0real,
        (hi * hi) * (hi * hi) <= above * (lo * u * u),
        (lo * lo) * (lo * lo) >= below * (hi * u * u),
{
    reveal(rounding_factors);
}

/// `got` lies between `below / u` and `above / u` of `exact`.
#[verifier::opaque]
spec fn between(got: real, exact: real, u: real, above: real, below: real) -> bool {
    exact * below <= got * u <= exact * above
}

/// `lemma_five_roundings`, with each rounding to within one part in `u`.
proof fn lemma_five_near(
    c: real,
    d: real,
    r: real,
    cf: real,
    df: real,
    rf: real,
    q: real,
    p: real,
    u: real,
    hi: real,
    lo: real,
    above: real,
    below: real,
)
    requires
        rounding_factors(u, hi, lo, above, below),
        c > 0real,
        d > 0real,
        r > 0real,
        q > 0real,
        near(cf, c, u),
        near(df, d, u),
        near(rf, r, u),
        near(q * rf, df, u),
        near(p, cf * q, u),
    ensures
        between(p * r, c * d, u, above, below),
{
    lemma_rounding_factors(u, hi, lo, above, below);
    lemma_near_factors(cf, c, u, hi, lo, above, below);
    lemma_near_factors(df, d, u, hi, lo, above, below);
    lemma_near_factors(rf, r, u, hi, lo, above, below);
    lemma_near_factors(q * rf, df, u, hi, lo, above, below);
    lemma_near_factors(p, cf * q, u, hi, lo, above, below);
    lemma_five_roundings(c, d, r, cf, df, rf, q, p, u, hi, lo, above, below);
    reveal(between);
}

proof fn lemma_half_ulp_factors()
    ensures
        rounding_factors(
            0x20_0000_0000_0000real,
            0x20_0000_0000_0001real,
            0x1f_ffff_ffff_ffffreal,
            0x20_0000_0000_0008real,
            0x1f_ffff_ffff_fff8real,
        ),
{
    reveal(rounding_factors);
}

/// Eight parts in `2^53` are one part in `2^50`.
proof fn lemma_eight_parts(got: real, exact: real)
    requires
        between(
            got,
            exact,
            0x20_0000_0000_0000real,
            0x20_0000_0000_0008real,
            0x1f_ffff_ffff_fff8real,
        ),
    ensures
        near(got, exact, 0x4_0000_0000_0000real),
{
    reveal(between);
    reveal(near);
}

/// Five roundings by at most half a unit in the last place leave the result
/// within one part in `2^50` of `c * d / r`.
pub(crate) proof fn lemma_five_half_ulps(
    c: real,
    d: real,
    r: real,
    cf: real,
    df: real,
    rf: real,
    q: real,
    p: real,
)
    requires
        c > 0real,
        d > 0real,
        r > 0real,
        q > 0real,
        within_half_ulp(cf, c),
        within_half_ulp(df, d),
        within_half_ulp(rf, r),
        within_half_ulp(q * rf, df),
        within_half_ulp(p, cf * q),
    ensures
        near(p * r, c * d, 0x4_0000_0000_0000real),
{
    lemma_half_ulp_factors();
    lemma_five_near(
        c,
        d,
        r,
        cf,
        df,
        rf,
        q,
        p,
        0x20_0000_0000_0000real,
        0x20_0000_0000_0001real,
        0x1f_ffff_ffff_ffffreal,
        0x20_0000_0000_0008real,
        0x1f_ffff_ffff_fff8real,
    );
    lemma_eight_parts(p * r, c * d);
}

} // verus!
