//! Arithmetic on positive IEEE 754 double-precision (binary64) numbers, carried
//! out on integers: each operation gives the representable number nearest to
//! the exact result, the one with an even significand where two are as near.
//!
//! The exponents are those of products and quotients of a few integers, far
//! from the ends of the format's range, so that no result is subnormal and none
//! overflows.

use vstd::arithmetic::logarithm::log;
use vstd::arithmetic::power2::pow2;
use vstd::prelude::*;

verus! {

/// The smallest significand of a normal number.
pub const SIGNIFICAND_MIN: u64 = 0x10_0000_0000_0000;

/// One more than the largest significand.
pub const SIGNIFICAND_END: u64 = 0x20_0000_0000_0000;

/// The number `significand * 2^exponent`.
pub struct Binary64 {
    pub significand: nat,
    pub exponent: int,
}

impl Binary64 {
    /// The significand has exactly 53 bits.
    pub open spec fn normal(self) -> bool {
        SIGNIFICAND_MIN <= self.significand < SIGNIFICAND_END
    }
}

/// The integer nearest to `n / d`, the even one where two are as near.
pub open spec fn round_half_even(n: nat, d: nat) -> nat {
    let q = n / d;
    let r = n % d;
    if 2 * r > d || (2 * r == d && q % 2 == 1) {
        q + 1
    } else {
        q
    }
}

/// `significand * 2^exponent`, where rounding may have carried the significand
/// to one bit more than 53.
pub open spec fn carried(significand: nat, exponent: int) -> Binary64 {
    if significand == SIGNIFICAND_END {
        Binary64 { significand: SIGNIFICAND_MIN as nat, exponent: exponent + 1 }
    } else {
        Binary64 { significand, exponent }
    }
}

/// The number nearest to the positive integer `x`.
pub open spec fn nearest(x: nat) -> Binary64 {
    let k = log(2, x as int);
    if k <= 52 {
        Binary64 { significand: x * pow2((52 - k) as nat), exponent: k - 52 }
    } else {
        carried(round_half_even(x, pow2((k - 52) as nat)), k - 52)
    }
}

/// The number nearest to `a / b`.
pub open spec fn quotient(a: Binary64, b: Binary64) -> Binary64 {
    if a.significand >= b.significand {
        carried(
            round_half_even(a.significand * SIGNIFICAND_MIN as nat, b.significand),
            a.exponent - b.exponent - 52,
        )
    } else {
        carried(
            round_half_even(a.significand * SIGNIFICAND_END as nat, b.significand),
            a.exponent - b.exponent - 53,
        )
    }
}

/// The number nearest to `a * b`.
pub open spec fn product(a: Binary64, b: Binary64) -> Binary64 {
    let p = a.significand * b.significand;
    if p < SIGNIFICAND_MIN * SIGNIFICAND_END {
        carried(round_half_even(p, SIGNIFICAND_MIN as nat), a.exponent + b.exponent + 52)
    } else {
        carried(round_half_even(p, SIGNIFICAND_END as nat), a.exponent + b.exponent + 53)
    }
}

/// The integer nearest to `a`, the larger one where two are as near, or the
/// largest 64-bit integer where that is too large for 64 bits.
pub open spec fn rounded(a: Binary64) -> nat {
    if a.exponent >= 12 {
        u64::MAX as nat
    } else if a.exponent >= 0 {
        a.significand * pow2(a.exponent as nat)
    } else {
        (a.significand + pow2((-a.exponent - 1) as nat)) / pow2((-a.exponent) as nat)
    }
}

/// A positive binary64 number.
#[derive(Clone, Copy)]
pub struct Double {
    significand: u64,
    exponent: i32,
}

impl View for Double {
    type V = Binary64;

    closed spec fn view(&self) -> Binary64 {
        Binary64 { significand: self.significand as nat, exponent: self.exponent as int }
    }
}

/// An integer between two neighbouring powers of two has the lower one's
/// exponent as its logarithm.
pub proof fn lemma_log2(x: nat, k: nat)
    requires
        pow2(k) <= x < pow2(k + 1),
    ensures
        log(2, x as int) == k,
    decreases k,
{
    broadcast use vstd::arithmetic::power2::lemma_pow2_unfold;

    vstd::arithmetic::power2::lemma2_to64();
    if k == 0 {
        vstd::arithmetic::logarithm::lemma_log0(2, x as int);
    } else {
        assert(pow2(k + 1) == 2 * pow2(k));
        assert(pow2(k) == 2 * pow2((k - 1) as nat));
        lemma_log2(x / 2, (k - 1) as nat);
        vstd::arithmetic::power2::lemma_pow2_pos((k - 1) as nat);
        vstd::arithmetic::logarithm::lemma_log_s(2, x as int);
    }
}

proof fn lemma_pow2_52()
    ensures
        pow2(52) == SIGNIFICAND_MIN,
        pow2(53) == SIGNIFICAND_END,
{
    vstd::arithmetic::power2::lemma2_to64();
    vstd::arithmetic::power2::lemma_pow2_adds(32, 20);
    vstd::arithmetic::power2::lemma_pow2_adds(32, 21);
}

fn divide_half_even(n: u128, d: u128) -> (res: u128)
    requires
        0 < d,
        n / d < u128::MAX,
    ensures
        res == round_half_even(n as nat, d as nat),
{
    let q: u128 = n / d;
    let r: u128 = n % d;
    if r > d - r || (r == d - r && q % 2 == 1) {
        q + 1
    } else {
        q
    }
}

fn carry(significand: u128, exponent: i32) -> (res: Double)
    requires
        SIGNIFICAND_MIN <= significand <= SIGNIFICAND_END,
        exponent < i32::MAX,
    ensures
        res@ == carried(significand as nat, exponent as int),
        res@.normal(),
        exponent <= res@.exponent <= exponent + 1,
{
    if significand == SIGNIFICAND_END as u128 {
        Double { significand: SIGNIFICAND_MIN, exponent: exponent + 1 }
    } else {
        Double { significand: significand as u64, exponent }
    }
}

impl Double {
    /// The number nearest to `x`.
    pub fn from_int(x: u128) -> (res: Double)
        requires
            x > 0,
        ensures
            res@ == nearest(x as nat),
            res@.normal(),
            -52 <= res@.exponent <= 76,
    {
        broadcast use vstd::arithmetic::power2::lemma_pow2_unfold;

        proof {
            lemma_pow2_52();
            vstd::arithmetic::power2::lemma2_to64();
        }
        if x < SIGNIFICAND_END as u128 {
            let mut m: u64 = x as u64;
            let mut e: i32 = 0;
            assert(x * pow2(0) == x) by (nonlinear_arith)
                requires
                    pow2(0) == 1,
            ;
            while m < SIGNIFICAND_MIN
                invariant
                    0 < x,
                    -52 <= e <= 0,
                    m == x * pow2((-e) as nat),
                    m < SIGNIFICAND_END,
                    pow2((-e) as nat) <= m,
                    pow2(52) == SIGNIFICAND_MIN,
                decreases SIGNIFICAND_END - m,
            {
                broadcast use vstd::arithmetic::power2::lemma_pow2_unfold;

                proof {
                    if e == -52 {
                        assert(false);
                    }
                    assert(pow2((-e + 1) as nat) == 2 * pow2((-e) as nat));
                    assert(x * pow2((-e + 1) as nat) == 2 * (x * pow2((-e) as nat)))
                        by (nonlinear_arith)
                        requires
                            pow2((-e + 1) as nat) == 2 * pow2((-e) as nat),
                    ;
                }
                m = m * 2;
                e = e - 1;
            }
            proof {
                let j = (-e) as nat;
                let k = (52 - j) as nat;
                vstd::arithmetic::power2::lemma_pow2_adds(k, j);
                vstd::arithmetic::power2::lemma_pow2_adds(k + 1, j);
                vstd::arithmetic::power2::lemma_pow2_pos(j);
                assert(pow2(k) <= x < pow2(k + 1)) by (nonlinear_arith)
                    requires
                        pow2(k) * pow2(j) <= x * pow2(j),
                        x * pow2(j) < pow2(k + 1) * pow2(j),
                        pow2(j) > 0,
                ;
                lemma_log2(x as nat, k);
            }
            Double { significand: m, exponent: e }
        } else {
            let mut d: u128 = 1;
            let mut e: i32 = 0;
            while x / d >= SIGNIFICAND_END as u128
                invariant
                    0 <= e <= 75,
                    d == pow2(e as nat),
                    0 < d,
                    d * SIGNIFICAND_MIN <= x,
                    pow2(52) == SIGNIFICAND_MIN,
                decreases x - d,
            {
                broadcast use vstd::arithmetic::power2::lemma_pow2_unfold;

                proof {
                    assert(d * SIGNIFICAND_END <= x) by (nonlinear_arith)
                        requires
                            x / d >= SIGNIFICAND_END,
                            d > 0,
                    ;
                    assert(pow2((e + 1) as nat) == 2 * pow2(e as nat));
                    if e == 75 {
                        vstd::arithmetic::power2::lemma2_to64();
                        vstd::arithmetic::power2::lemma_pow2_adds(64, 11);
                        assert(false);
                    }
                }
                d = d * 2;
                e = e + 1;
            }
            let m: u128 = divide_half_even(x, d);
            proof {
                let k = (52 + e) as nat;
                assert(x < d * SIGNIFICAND_END) by (nonlinear_arith)
                    requires
                        x / d < SIGNIFICAND_END,
                        d > 0,
                ;
                assert(x / d >= SIGNIFICAND_MIN) by (nonlinear_arith)
                    requires
                        d * SIGNIFICAND_MIN <= x,
                        d > 0,
                ;
                vstd::arithmetic::power2::lemma_pow2_adds(52, e as nat);
                vstd::arithmetic::power2::lemma_pow2_adds(53, e as nat);
                assert(d * SIGNIFICAND_MIN == pow2(k)) by (nonlinear_arith)
                    requires
                        pow2(k) == pow2(52) * pow2(e as nat),
                        pow2(52) == SIGNIFICAND_MIN,
                        d == pow2(e as nat),
                ;
                assert(d * SIGNIFICAND_END == pow2(k + 1)) by (nonlinear_arith)
                    requires
                        pow2(k + 1) == pow2(53) * pow2(e as nat),
                        pow2(53) == SIGNIFICAND_END,
                        d == pow2(e as nat),
                ;
                lemma_log2(x as nat, k);
            }
            carry(m, e)
        }
    }

    /// The number nearest to `self / other`.
    pub fn div(&self, other: &Double) -> (res: Double)
        requires
            self@.normal(),
            other@.normal(),
            -1000 <= self@.exponent <= 1000,
            -1000 <= other@.exponent <= 1000,
        ensures
            res@ == quotient(self@, other@),
            res@.normal(),
            -53 <= res@.exponent - (self@.exponent - other@.exponent) <= 0,
    {
        let b: u128 = other.significand as u128;
        if self.significand >= other.significand {
            let n: u128 = self.significand as u128 * SIGNIFICAND_MIN as u128;
            proof {
                assert(SIGNIFICAND_MIN <= n / b < SIGNIFICAND_END) by (nonlinear_arith)
                    requires
                        n == self.significand * SIGNIFICAND_MIN,
                        b <= self.significand < SIGNIFICAND_END,
                        SIGNIFICAND_MIN <= b,
                ;
            }
            carry(divide_half_even(n, b), self.exponent - other.exponent - 52)
        } else {
            let n: u128 = self.significand as u128 * SIGNIFICAND_END as u128;
            proof {
                assert(SIGNIFICAND_MIN <= n / b < SIGNIFICAND_END) by (nonlinear_arith)
                    requires
                        n == self.significand * SIGNIFICAND_END,
                        SIGNIFICAND_MIN <= self.significand < b,
                        b < SIGNIFICAND_END,
                ;
            }
            carry(divide_half_even(n, b), self.exponent - other.exponent - 53)
        }
    }

    /// The number nearest to `self * other`.
    pub fn mul(&self, other: &Double) -> (res: Double)
        requires
            self@.normal(),
            other@.normal(),
            -1000 <= self@.exponent <= 1000,
            -1000 <= other@.exponent <= 1000,
        ensures
            res@ == product(self@, other@),
            res@.normal(),
            52 <= res@.exponent - (self@.exponent + other@.exponent) <= 54,
    {
        proof {
            assert(SIGNIFICAND_MIN * SIGNIFICAND_MIN <= self.significand * other.significand
                < SIGNIFICAND_END * SIGNIFICAND_END) by (nonlinear_arith)
                requires
                    SIGNIFICAND_MIN <= self.significand < SIGNIFICAND_END,
                    SIGNIFICAND_MIN <= other.significand < SIGNIFICAND_END,
            ;
            assert(SIGNIFICAND_MIN * SIGNIFICAND_END <= u128::MAX) by (nonlinear_arith);
        }
        let p: u128 = self.significand as u128 * other.significand as u128;
        if p < SIGNIFICAND_MIN as u128 * SIGNIFICAND_END as u128 {
            carry(
                divide_half_even(p, SIGNIFICAND_MIN as u128),
                self.exponent + other.exponent + 52,
            )
        } else {
            carry(
                divide_half_even(p, SIGNIFICAND_END as u128),
                self.exponent + other.exponent + 53,
            )
        }
    }

    /// The integer nearest to the number, held to 64 bits.
    pub fn round(&self) -> (res: u64)
        requires
            self@.normal(),
        ensures
            res == rounded(self@),
    {
        broadcast use vstd::arithmetic::power2::lemma_pow2_unfold;

        proof {
            lemma_pow2_52();
            vstd::arithmetic::power2::lemma2_to64();
        }
        if self.exponent >= 12 {
            u64::MAX
        } else if self.exponent >= 0 {
            let mut m: u64 = self.significand;
            let mut e: i32 = 0;
            while e < self.exponent
                invariant
                    0 <= e <= self.exponent < 12,
                    self.significand < SIGNIFICAND_END,
                    m == self.significand * pow2(e as nat),
                    pow2(11) == 0x800,
                decreases self.exponent - e,
            {
                broadcast use vstd::arithmetic::power2::lemma_pow2_unfold;

                proof {
                    vstd::arithmetic::power2::lemma2_to64();
                    if e < 10 {
                        vstd::arithmetic::power2::lemma_pow2_strictly_increases(e as nat, 10);
                    }
                    assert(pow2((e + 1) as nat) == 2 * pow2(e as nat));
                    assert(self.significand * pow2((e + 1) as nat) == 2 * m) by (nonlinear_arith)
                        requires
                            pow2((e + 1) as nat) == 2 * pow2(e as nat),
                            m == self.significand * pow2(e as nat),
                    ;
                    assert(m < SIGNIFICAND_END * 0x400) by (nonlinear_arith)
                        requires
                            m == self.significand * pow2(e as nat),
                            self.significand < SIGNIFICAND_END,
                            pow2(e as nat) <= 0x400,
                    ;
                }
                m = m * 2;
                e = e + 1;
            }
            m
        } else if self.exponent < -53 {
            proof {
                let k = (-self.exponent) as nat;
                if k > 54 {
                    vstd::arithmetic::power2::lemma_pow2_strictly_increases(54, k);
                }
                assert(pow2(54) == 2 * pow2(53));
                assert(pow2(k) == 2 * pow2((k - 1) as nat));
                assert((self.significand as nat + pow2((k - 1) as nat)) / pow2(k) == 0)
                    by (nonlinear_arith)
                    requires
                        0 <= self.significand as nat + pow2((k - 1) as nat) < pow2(k),
                ;
            }
            0
        } else {
            let mut half: u64 = 1;
            let mut e: i32 = -1;
            while e > self.exponent
                invariant
                    -53 <= self.exponent <= e < 0,
                    half == pow2((-e - 1) as nat),
                    pow2(52) == SIGNIFICAND_MIN,
                decreases e - self.exponent,
            {
                broadcast use vstd::arithmetic::power2::lemma_pow2_unfold;

                proof {
                    if e > -53 {
                        vstd::arithmetic::power2::lemma_pow2_strictly_increases(
                            (-e - 1) as nat,
                            52,
                        );
                    }
                    assert(pow2((-e) as nat) == 2 * pow2((-e - 1) as nat));
                }
                half = half * 2;
                e = e - 1;
            }
            proof {
                let k = (-self.exponent) as nat;
                if k < 53 {
                    vstd::arithmetic::power2::lemma_pow2_strictly_increases(k, 53);
                }
                assert(pow2(k) == 2 * pow2((k - 1) as nat));
                vstd::arithmetic::power2::lemma_pow2_pos((k - 1) as nat);
            }
            (self.significand + half) / (half * 2)
        }
    }
}

} // verus!
