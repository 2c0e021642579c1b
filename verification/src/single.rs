//! Numbers of single precision.

use vstd::prelude::*;
use crate::arith;
use crate::arith::{pack, power_of_two, INFINITY_BITS};
use crate::digits;
use crate::scalar;
use crate::scalar::{Scalar, SIGN_BIT};

verus! {

/// The scale of the least single-precision number, counted from `2^-1074`.
pub const SINGLE_SCALE: u64 = 925;

/// The scale at which the significand of a value has 24 bits.
pub open spec fn single_scale(a: Scalar) -> nat {
    if a.scale() + 29 > SINGLE_SCALE {
        a.scale() + 29
    } else {
        SINGLE_SCALE as nat
    }
}

impl Scalar {
    /// The absolute value of the nearest single-precision number, ties to even, as a multiple of
    /// `2^-1074`.
    pub open spec fn single_units(self) -> nat {
        let p = digits::two_pow(single_scale(self));
        scalar::half_even(self.abs_units(), p) * p
    }

    /// The nearest single-precision number; infinite from `2^128` on.
    #[verifier::opaque]
    pub open spec fn single(self) -> Scalar {
        if !self.finite() {
            self
        } else if self.single_units() >= digits::two_pow(1202) {
            Scalar::signed(self.negative(), INFINITY_BITS as int)
        } else {
            Scalar::signed(self.negative(), arith::nearest(self.single_units(), 1))
        }
    }

    /// The nearest single-precision number.
    pub fn to_single(self) -> (r: Scalar)
        ensures
            r == self.single(),
    {
        proof {
            reveal(Scalar::single);
        }
        if !self.is_finite() {
            return self;
        }
        let (s, k) = self.decode();
        let negative = self.bits >= SIGN_BIT;
        let scale: u64 = if k + 29 > SINGLE_SCALE {
            k + 29
        } else {
            SINGLE_SCALE
        };
        let shift: u64 = scale - k;
        let ghost p = digits::two_pow(k as nat);
        let ghost d = digits::two_pow(shift as nat);
        proof {
            arith::lemma_fields(self);
            digits::lemma_two_pow_positive(k as nat);
            digits::lemma_two_pow_positive(shift as nat);
            digits::lemma_two_pow_adds(shift as nat, k as nat);
            scalar::lemma_half_even_reduces(s as nat, d, p);
        }
        let q: u64 = round_quotient(s, shift);
        if q == 0 {
            proof {
                assert(0 * digits::two_pow(scale as nat) == 0);
                arith::lemma_nearest_zero(1);
                digits::lemma_two_pow_positive(1202);
            }
            return Scalar::with_sign(negative, 0);
        }
        proof {
            lemma_overflow(q as nat, scale as nat, s as nat, shift as nat);
        }
        if scale > 1178 || (scale == 1178 && q >= 0x100_0000) {
            return Scalar::with_sign(negative, INFINITY_BITS);
        }
        let m: u64 = pack(q as u128, scale as i64, false);
        proof {
            lemma_packed(q as nat, scale as nat);
            arith::lemma_nearest_range(q as nat * digits::two_pow(scale as nat), 1);
        }
        Scalar::with_sign(negative, m)
    }
}

/// `s / 2^shift` rounded to an integer, ties to even.
fn round_quotient(s: u64, shift: u64) -> (q: u64)
    requires
        s < 0x20_0000_0000_0000,
        29 <= shift <= 2000,
    ensures
        q == scalar::half_even(s as nat, digits::two_pow(shift as nat)),
        q <= 0x100_0000,
{
    proof {
        digits::lemma_two_pow_positive(shift as nat);
    }
    if shift >= 64 {
        proof {
            arith::lemma_two_pow_53();
            assert(digits::two_pow(54) == 2 * digits::two_pow(53));
            digits::lemma_two_pow_monotone(54, shift as nat);
            let d = digits::two_pow(shift as nat);
            vstd::arithmetic::div_mod::lemma_fundamental_div_mod_converse(
                s as int,
                d as int,
                0,
                s as int,
            );
        }
        return 0;
    }
    let d: u64 = power_of_two(shift) as u64;
    proof {
        lemma_shift_range(shift as nat);
    }
    let q: u64 = s / d;
    let r: u64 = s % d;
    proof {
        assert(q < 0x100_0000) by (nonlinear_arith)
            requires
                q == s / d,
                s < 0x20_0000_0000_0000,
                d >= 0x2000_0000,
        ;
    }
    if r > d - r || (r == d - r && q % 2 == 1) {
        q + 1
    } else {
        q
    }
}

proof fn lemma_shift_range(shift: nat)
    requires
        29 <= shift < 64,
    ensures
        0x2000_0000 <= digits::two_pow(shift) <= u64::MAX,
{
    lemma_two_pow_29();
    digits::lemma_two_pow_monotone(29, shift);
    digits::lemma_two_pow_monotone(shift, 63);
    arith::lemma_two_pow_53();
    digits::lemma_two_pow_adds(53, 10);
}

proof fn lemma_two_pow_29()
    ensures
        digits::two_pow(29) == 0x2000_0000,
        digits::two_pow(24) == 0x100_0000,
        digits::two_pow(23) == 0x80_0000,
        digits::two_pow(10) == 1024,
{
    reveal_with_fuel(digits::two_pow, 30);
}

/// Which numbers are infinite in single precision.
proof fn lemma_overflow(q: nat, scale: nat, s: nat, shift: nat)
    requires
        q == scalar::half_even(s, digits::two_pow(shift)),
        q <= 0x100_0000,
        scale > SINGLE_SCALE ==> shift == 29 && s >= 0x10_0000_0000_0000,
    ensures
        q * digits::two_pow(scale) >= digits::two_pow(1202) <==> (scale > 1178 || (scale == 1178
            && q >= 0x100_0000)),
{
    lemma_two_pow_29();
    let p = digits::two_pow(scale);
    digits::lemma_two_pow_positive(scale);
    if scale > 1178 {
        let d = digits::two_pow(29);
        assert(s / d >= 0x80_0000) by (nonlinear_arith)
            requires
                s >= 0x10_0000_0000_0000,
                d == 0x2000_0000,
        ;
        digits::lemma_two_pow_adds(23, scale);
        digits::lemma_two_pow_monotone(1202, 23 + scale);
        assert(q * p >= 0x80_0000 * p) by (nonlinear_arith)
            requires
                q >= 0x80_0000,
        ;
    } else {
        digits::lemma_two_pow_adds(24, 1178);
        let top = digits::two_pow(1178);
        digits::lemma_two_pow_monotone(scale, 1178);
        if scale == 1178 {
            if q >= 0x100_0000 {
                assert(q * p >= 0x100_0000 * p) by (nonlinear_arith)
                    requires
                        q >= 0x100_0000,
                ;
            } else {
                assert(q * p < 0x100_0000 * p) by (nonlinear_arith)
                    requires
                        q < 0x100_0000,
                        p > 0,
                ;
            }
        } else {
            digits::lemma_two_pow_monotone(scale + 1, 1178);
            assert(digits::two_pow(scale + 1) == 2 * p);
            assert(q * p < 0x100_0000 * top) by (nonlinear_arith)
                requires
                    q <= 0x100_0000,
                    2 * p <= top,
                    p > 0,
            ;
        }
    }
}

proof fn lemma_packed(q: nat, scale: nat)
    requires
        q > 0,
    ensures
        arith::pattern(q, scale as int, false) == arith::nearest(q * digits::two_pow(scale), 1),
{
    let t = digits::two_pow(scale);
    let n = q * t;
    digits::lemma_two_pow_positive(scale);
    assert(digits::two_pow(0) == 1);
    assert(n * 1 == n);
    assert(1 * t == t);
    vstd::arithmetic::div_mod::lemma_fundamental_div_mod_converse(
        n as int,
        t as int,
        q as int,
        0,
    );
    arith::lemma_pattern(n, 1, q, scale, 0, false);
}

} // verus!
