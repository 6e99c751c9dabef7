//! How much a path sends in a given time.

use vstd::prelude::*;

use crate::accuracy::{
    lemma_nearest, lemma_product, lemma_quotient, lemma_real_mul, lemma_rounded,
    lemma_value_positive, near, value,
};
use crate::binary64::{nearest, product, quotient, rounded, Double};
use crate::rounding_error::{
    lemma_five_half_ulps, lemma_half_apart, lemma_mul_cancel, lemma_mul_cancel_strict, lemma_mul_le,
};

verus! {

/// `window * (duration / rtt)` to the nearest integer, computed in binary64: how
/// many bytes a path sends in `duration` that sends `window` bytes in `rtt`,
/// both in microseconds. A zero `rtt` stands for one below a microsecond: the
/// quotient is then infinite, or not a number where `duration` is zero too.
pub open spec fn window_share(window: nat, duration: nat, rtt: nat) -> nat {
    if window == 0 || duration == 0 {
        0
    } else if rtt == 0 {
        u64::MAX as nat
    } else {
        rounded(product(nearest(window), quotient(nearest(duration), nearest(rtt))))
    }
}

/// How many bytes a path sends in `duration` microseconds that sends `window`
/// bytes in `rtt` microseconds.
pub fn share_of_window(window: u64, duration: u128, rtt: u128) -> (res: u64)
    ensures
        res == window_share(window as nat, duration as nat, rtt as nat),
{
    if window == 0 || duration == 0 {
        0
    } else if rtt == 0 {
        u64::MAX
    } else {
        let round_trips = Double::from_int(duration).div(&Double::from_int(rtt));
        Double::from_int(window as u128).mul(&round_trips).round()
    }
}

/// The product of the rounded factors is within one part in `2^50` of
/// `window * duration / rtt`.
proof fn lemma_unrounded_share(window: nat, duration: nat, rtt: nat)
    requires
        window > 0,
        duration > 0,
        rtt > 0,
    ensures
        ({
            let p = product(nearest(window), quotient(nearest(duration), nearest(rtt)));
            let exact = (window * duration) as real;
            let got = value(p) * (rtt as real);
            &&& p.normal()
            &&& near(got, exact, 0x4_0000_0000_0000real)
        }),
{
    let c = nearest(window);
    let d = nearest(duration);
    let r = nearest(rtt);
    let q = quotient(d, r);
    let p = product(c, q);
    lemma_nearest(window);
    lemma_nearest(duration);
    lemma_nearest(rtt);
    lemma_quotient(d, r);
    lemma_product(c, q);
    lemma_value_positive(q);
    lemma_real_mul(window as int, duration as int);
    lemma_five_half_ulps(
        window as real,
        duration as real,
        rtt as real,
        value(c),
        value(d),
        value(r),
        value(q),
        value(p),
    );
}

/// The computed share is close to `window * duration / rtt`: it differs from it
/// by at most one half and one part in `2^50`, where the exact value is safely
/// below `2^64`; where it is safely above, the computed one is the largest
/// 64-bit integer, and in between it is close to that.
pub proof fn lemma_window_share(window: nat, duration: nat, rtt: nat)
    requires
        rtt > 0,
    ensures
        window_share(window, duration, rtt) <= u64::MAX,
        window * duration < 0xffff_ffff_ffff_0000 * rtt ==> ({
            let exact = window * duration;
            let got = window_share(window, duration, rtt) * rtt;
            &&& 0x4_0000_0000_0000 * (got - exact) <= exact + 0x2_0000_0000_0000 * rtt
            &&& 0x4_0000_0000_0000 * (exact - got) <= exact + 0x2_0000_0000_0000 * rtt
        }),
        window * duration >= 0xffff_ffff_ffff_0000 * rtt ==> window_share(window, duration, rtt)
            >= 0xffff_ffff_fffe_0000,
        window * duration >= 0x1_0000_0000_0001_0000 * rtt ==> window_share(window, duration, rtt)
            == u64::MAX,
{
    let exact = window * duration;
    let share = window_share(window, duration, rtt);
    if window == 0 || duration == 0 {
        assert(exact == 0) by (nonlinear_arith)
            requires
                exact == window * duration,
                window == 0 || duration == 0,
        ;
        assert(share * rtt == 0) by (nonlinear_arith)
            requires
                share == 0,
        ;
    } else {
        reveal(near);
        lemma_unrounded_share(window, duration, rtt);
        let p = product(nearest(window), quotient(nearest(duration), nearest(rtt)));
        lemma_rounded(p);
        lemma_real_mul(share as int, rtt as int);
        let rr = rtt as real;
        let v = value(p);
        let sr = share as real;
        if exact < 0xffff_ffff_ffff_0000 * rtt {
            lemma_mul_cancel_strict(v, 0x1_0000_0000_0000_0000real, rr);
            lemma_mul_le(2real * (sr - v), 1real, rr);
            lemma_mul_le(2real * (v - sr), 1real, rr);
            lemma_half_apart(sr, v, rr);
        }
        if exact >= 0xffff_ffff_ffff_0000 * rtt {
            lemma_mul_cancel(0xffff_ffff_fffe_8000real, v, rr);
        }
        if exact >= 0x1_0000_0000_0001_0000 * rtt {
            lemma_mul_cancel(0x1_0000_0000_0000_0000real, v, rr);
        }
    }
}

/// Where `window * duration / rtt` is an integer below `2^49`, the computed
/// share is that integer.
pub proof fn lemma_window_share_exact(window: nat, duration: nat, rtt: nat, n: nat)
    requires
        rtt > 0,
        window * duration == n * rtt,
        n < 0x2_0000_0000_0000,
    ensures
        window_share(window, duration, rtt) == n,
{
    let share = window_share(window, duration, rtt);
    assert(n * rtt < 0xffff_ffff_ffff_0000 * rtt) by (nonlinear_arith)
        requires
            n < 0x2_0000_0000_0000,
            rtt > 0,
    ;
    lemma_window_share(window, duration, rtt);
    let off: int = share - n;
    assert(off * rtt == share * rtt - n * rtt) by (nonlinear_arith)
        requires
            off == share - n,
    ;
    assert(n * rtt <= 0x1_ffff_ffff_ffff * rtt) by (nonlinear_arith)
        requires
            n < 0x2_0000_0000_0000,
            rtt > 0,
    ;
    assert(off == 0) by (nonlinear_arith)
        requires
            0x4_0000_0000_0000 * (off * rtt) < 0x4_0000_0000_0000 * rtt,
            -0x4_0000_0000_0000 * (off * rtt) < 0x4_0000_0000_0000 * rtt,
            rtt > 0,
    ;
}

/// Nothing is sent in no time or with an empty window. With a window and a
/// known duration, an unknown round-trip time stands for any number of round
/// trips.
pub proof fn lemma_window_share_at_the_ends(window: nat, duration: nat, rtt: nat)
    ensures
        window == 0 || duration == 0 ==> window_share(window, duration, rtt) == 0,
        window > 0 && duration > 0 && rtt == 0 ==> window_share(window, duration, rtt) == u64::MAX,
{
}

} // verus!
