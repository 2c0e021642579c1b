//! From binary64 numbers to integers.

use vstd::prelude::*;
use vstd::arithmetic::div_mod::{lemma_fundamental_div_mod, lemma_fundamental_div_mod_converse};
use crate::arith;
use crate::arith::power_of_two;
use crate::digits;
use crate::laws;
use crate::scalar;
use crate::scalar::{Scalar, SIGN_BIT};

verus! {

/// The bit pattern of `2^52`, from which on every number is an integer.
pub const INTEGERS_BITS: u64 = 0x4330_0000_0000_0000;

impl Scalar {
    /// The integer part of the absolute value.
    pub open spec fn whole(self) -> nat {
        self.abs_units() / digits::two_pow(1074)
    }

    /// What the absolute value exceeds its integer part by, as a multiple of `2^-1074`.
    pub open spec fn excess(self) -> nat {
        self.abs_units() % digits::two_pow(1074)
    }

    /// The integer with the sign of `self`.
    pub open spec fn with_whole(self, n: nat) -> Scalar {
        Scalar::signed(self.negative(), arith::nearest(n * digits::two_pow(1074), 1))
    }

    /// The largest integer that is not larger.
    #[verifier::opaque]
    pub open spec fn floored(self) -> Scalar {
        if !self.finite() || self.excess() == 0 {
            self
        } else if self.negative() {
            self.with_whole(self.whole() + 1)
        } else {
            self.with_whole(self.whole())
        }
    }

    /// The smallest integer that is not smaller.
    #[verifier::opaque]
    pub open spec fn ceiled(self) -> Scalar {
        if !self.finite() || self.excess() == 0 {
            self
        } else if self.negative() {
            self.with_whole(self.whole())
        } else {
            self.with_whole(self.whole() + 1)
        }
    }

    /// The nearest integer, halves away from zero.
    #[verifier::opaque]
    pub open spec fn integral(self) -> Scalar {
        if !self.finite() || self.excess() == 0 {
            self
        } else if self.excess() * 2 >= digits::two_pow(1074) {
            self.with_whole(self.whole() + 1)
        } else {
            self.with_whole(self.whole())
        }
    }

    /// The integer part as an unsigned integer: 0 below zero and for what is not a number, and
    /// `max` above it.
    #[verifier::opaque]
    pub open spec fn truncated(self, max: nat) -> nat {
        if self.nan() || self.negative() {
            0
        } else if !self.finite() || self.whole() > max {
            max
        } else {
            self.whole()
        }
    }

    /// The integer part, with its sign, held between `-max` and `max`; 0 for what is not a
    /// number.
    pub open spec fn truncated_signed(self, max: nat) -> int {
        if self.negative() {
            -(self.absolute().truncated(max) as int)
        } else {
            self.truncated(max) as int
        }
    }

    /// The integer part of the absolute value, and how the rest compares to 0 and to one half.
    fn parts(self) -> (r: (u64, bool, bool))
        requires
            self.finite(),
            self.scale() < 1074,
        ensures
            r.0 == self.whole(),
            r.0 < 0x20_0000_0000_0000,
            r.1 == (self.excess() > 0),
            r.2 == (self.excess() * 2 >= digits::two_pow(1074)),
    {
        let (s, k) = self.decode();
        let shift: u64 = 1074 - k;
        let ghost unit = digits::two_pow(1074);
        let ghost p = digits::two_pow(k as nat);
        let ghost u = self.abs_units();
        proof {
            arith::lemma_fields(self);
            digits::lemma_two_pow_positive(k as nat);
            digits::lemma_two_pow_positive(1074);
            digits::lemma_two_pow_adds(shift as nat, k as nat);
            assert(unit == digits::two_pow(shift as nat) * p);
        }
        if shift >= 64 {
            proof {
                arith::lemma_two_pow_53();
                digits::lemma_two_pow_adds(54, k as nat);
                digits::lemma_two_pow_monotone((54 + k) as nat, 1074);
                assert(digits::two_pow(54) == 2 * digits::two_pow(53));
                lemma_small(s as nat, p, unit);
                lemma_fundamental_div_mod_converse(u as int, unit as int, 0, u as int);
            }
            return (0, s > 0, false);
        }
        let d: u64 = power_of_two(shift) as u64;
        proof {
            lemma_below_64(shift as nat);
            digits::lemma_two_pow_positive(shift as nat);
            let q = s as nat / d as nat;
            let r = s as nat % d as nat;
            lemma_fundamental_div_mod(s as int, d as int);
            lemma_scaled_parts(q, r, d as nat, p);
            assert(u == s as nat * p);
            lemma_fundamental_div_mod_converse(
                u as int,
                unit as int,
                q as int,
                (r * p) as int,
            );
            lemma_twice(r, d as nat, p);
        }
        let q: u64 = s / d;
        let r: u64 = s % d;
        proof {
            assert(q <= s) by (nonlinear_arith)
                requires
                    q == s / d,
                    d >= 1,
            ;
        }
        (q, r > 0, r >= d - r)
    }

    /// The largest integer that is not larger.
    pub fn floor(self) -> (r: Scalar)
        ensures
            r == self.floored(),
    {
        proof {
            reveal(Scalar::floored);
        }
        if !self.is_finite() || self.bits % SIGN_BIT >= INTEGERS_BITS {
            proof {
                if self.finite() {
                    lemma_integers(self);
                }
            }
            return self;
        }
        proof {
            lemma_fractional_scale(self);
        }
        let (n, more, _) = self.parts();
        if !more {
            return self;
        }
        if self.bits >= SIGN_BIT {
            self.whole_with_sign(n + 1)
        } else {
            self.whole_with_sign(n)
        }
    }

    /// The smallest integer that is not smaller.
    pub fn ceil(self) -> (r: Scalar)
        ensures
            r == self.ceiled(),
    {
        proof {
            reveal(Scalar::ceiled);
        }
        if !self.is_finite() || self.bits % SIGN_BIT >= INTEGERS_BITS {
            proof {
                if self.finite() {
                    lemma_integers(self);
                }
            }
            return self;
        }
        proof {
            lemma_fractional_scale(self);
        }
        let (n, more, _) = self.parts();
        if !more {
            return self;
        }
        if self.bits >= SIGN_BIT {
            self.whole_with_sign(n)
        } else {
            self.whole_with_sign(n + 1)
        }
    }

    /// The nearest integer, halves away from zero.
    pub fn round(self) -> (r: Scalar)
        ensures
            r == self.integral(),
    {
        proof {
            reveal(Scalar::integral);
        }
        if !self.is_finite() || self.bits % SIGN_BIT >= INTEGERS_BITS {
            proof {
                if self.finite() {
                    lemma_integers(self);
                }
            }
            return self;
        }
        proof {
            lemma_fractional_scale(self);
        }
        let (n, more, half) = self.parts();
        if !more {
            return self;
        }
        if half {
            self.whole_with_sign(n + 1)
        } else {
            self.whole_with_sign(n)
        }
    }

    fn whole_with_sign(self, n: u64) -> (r: Scalar)
        ensures
            r == self.with_whole(n as nat),
    {
        let m = Scalar::from_u64(n);
        proof {
            reveal(Scalar::integer);
            digits::lemma_two_pow_positive(1074);
            arith::lemma_nearest_range(n as nat * digits::two_pow(1074), 1);
        }
        if self.bits >= SIGN_BIT {
            Scalar::with_sign(true, m.bits)
        } else {
            m
        }
    }

    /// The integer part as an unsigned integer up to `max`; 0 below zero and for what is not a
    /// number.
    pub fn to_u64(self, max: u64) -> (r: u64)
        requires
            max < 0x10_0000_0000_0000,
        ensures
            r == self.truncated(max as nat),
    {
        proof {
            reveal(Scalar::truncated);
        }
        if self.is_nan() || self.bits >= SIGN_BIT {
            return 0;
        }
        if !self.is_finite() || self.bits >= INTEGERS_BITS {
            proof {
                if self.finite() {
                    lemma_integers(self);
                }
            }
            return max;
        }
        proof {
            lemma_fractional_scale(self);
        }
        let (n, _, _) = self.parts();
        if n > max {
            max
        } else {
            n
        }
    }

    /// The integer part, with its sign, held between `-max` and `max`; 0 for what is not a
    /// number.
    pub fn to_i64(self, max: u64) -> (r: i64)
        requires
            max < 0x10_0000_0000_0000,
        ensures
            r == self.truncated_signed(max as nat),
    {
        proof {
            reveal(Scalar::truncated);
        }
        if self.bits >= SIGN_BIT {
            -(self.abs().to_u64(max) as i64)
        } else {
            self.to_u64(max) as i64
        }
    }
}

proof fn lemma_small(s: nat, p: nat, unit: nat)
    requires
        s < 0x20_0000_0000_0000,
        p > 0,
        unit >= 0x40_0000_0000_0000 * p,
    ensures
        s * p * 2 < unit,
        s > 0 <==> s * p > 0,
{
    assert(s * p * 2 < 0x40_0000_0000_0000 * p) by (nonlinear_arith)
        requires
            s < 0x20_0000_0000_0000,
            p > 0,
    ;
    assert(s > 0 <==> s * p > 0) by (nonlinear_arith)
        requires
            p > 0,
    ;
}

proof fn lemma_scaled_parts(q: nat, r: nat, d: nat, p: nat)
    requires
        r < d,
        p > 0,
    ensures
        (d * q + r) * p == q * (d * p) + r * p,
        r * p < d * p,
        r > 0 <==> r * p > 0,
{
    assert((d * q + r) * p == q * (d * p) + r * p) by (nonlinear_arith);
    assert(r * p < d * p) by (nonlinear_arith)
        requires
            r < d,
            p > 0,
    ;
    assert(r > 0 <==> r * p > 0) by (nonlinear_arith)
        requires
            p > 0,
    ;
}

proof fn lemma_twice(r: nat, d: nat, p: nat)
    requires
        r < d,
        p > 0,
    ensures
        r * 2 >= d <==> r * p * 2 >= d * p,
{
    if r * 2 >= d {
        assert(r * p * 2 >= d * p) by (nonlinear_arith)
            requires
                r * 2 >= d,
                p > 0,
        ;
    } else {
        assert(r * p * 2 < d * p) by (nonlinear_arith)
            requires
                r * 2 < d,
                p > 0,
        ;
    }
}

proof fn lemma_below_64(k: nat)
    requires
        k < 64,
    ensures
        digits::two_pow(k) <= u64::MAX,
{
    digits::lemma_two_pow_monotone(k, 63);
    arith::lemma_two_pow_53();
    digits::lemma_two_pow_adds(53, 10);
    assert(digits::two_pow(10) == 1024) by {
        reveal_with_fuel(digits::two_pow, 11);
    }
}

/// Numbers from `2^52` on are integers.
proof fn lemma_integers(a: Scalar)
    requires
        a.finite(),
        a.magnitude() >= INTEGERS_BITS,
    ensures
        a.excess() == 0,
        a.whole() >= 0x10_0000_0000_0000,
{
    arith::lemma_fields(a);
    let k = (a.scale() - 1074) as nat;
    let s = a.significand();
    let unit = digits::two_pow(1074);
    digits::lemma_two_pow_adds(1074, k);
    digits::lemma_two_pow_positive(1074);
    digits::lemma_two_pow_positive(k);
    let p = digits::two_pow(k);
    assert(s * (unit * p) == (s * p) * unit) by (nonlinear_arith);
    lemma_fundamental_div_mod_converse(a.abs_units() as int, unit as int, (s * p) as int, 0);
    assert(s * p >= s) by (nonlinear_arith)
        requires
            p >= 1,
    ;
}

/// The integer as a number.
proof fn lemma_with_whole(a: Scalar, n: nat)
    requires
        n <= 0x10_0000_0000_0000,
    ensures
        a.with_whole(n).finite(),
        a.with_whole(n).abs_units() == n * digits::two_pow(1074),
        a.with_whole(n).whole() == n,
        a.with_whole(n).excess() == 0,
        a.with_whole(n).negative() == a.negative(),
{
    reveal(Scalar::integer);
    laws::law_small_integers_are_exact(n);
    let i = Scalar::integer(n);
    let w = a.with_whole(n);
    let u = digits::two_pow(1074);
    arith::lemma_nearest_range(n * u, 1);
    assert(w.magnitude() == i.magnitude());
    digits::lemma_two_pow_positive(1074);
    lemma_fundamental_div_mod_converse((n * u) as int, u as int, n as int, 0);
}

/// Numbers with a fraction are smaller than `2^52`.
proof fn lemma_fractions_are_small(a: Scalar)
    requires
        a.finite(),
        a.excess() != 0,
    ensures
        a.whole() < 0x10_0000_0000_0000,
{
    if a.magnitude() >= INTEGERS_BITS {
        lemma_integers(a);
    } else {
        let i = Scalar { bits: INTEGERS_BITS };
        lemma_integers(i);
        scalar::lemma_magnitude_order(a, i);
        arith::lemma_fields(i);
        let u = digits::two_pow(1074);
        digits::lemma_two_pow_positive(1074);
        assert(i.scale() == 1074 && i.significand() == 0x10_0000_0000_0000);
        assert(a.abs_units() < 0x10_0000_0000_0000 * u);
        lemma_fundamental_div_mod(a.abs_units() as int, u as int);
        let w = a.whole();
        let x = a.abs_units();
        let e = a.excess();
        assert(w < 0x10_0000_0000_0000) by (nonlinear_arith)
            requires
                x == u * w + e,
                x < 0x10_0000_0000_0000 * u,
                e >= 0,
                u > 0,
        ;
    }
}

/// Rounding down or up gives an integer.
pub proof fn law_floor_and_ceiling_are_integers(a: Scalar)
    ensures
        a.floored().finite() <==> a.finite(),
        a.ceiled().finite() <==> a.finite(),
        a.nan() <==> a.floored().nan(),
        a.nan() <==> a.ceiled().nan(),
        a.finite() ==> a.floored().excess() == 0,
        a.finite() ==> a.ceiled().excess() == 0,
{
    reveal(Scalar::floored);
    reveal(Scalar::ceiled);
    if a.finite() && a.excess() != 0 {
        lemma_fractions_are_small(a);
        lemma_with_whole(a, a.whole());
        lemma_with_whole(a, a.whole() + 1);
    }
}

/// The value of a number from its integer part.
proof fn lemma_whole(a: Scalar)
    ensures
        a.abs_units() == a.whole() * digits::two_pow(1074) + a.excess(),
        a.excess() < digits::two_pow(1074),
{
    let u = digits::two_pow(1074);
    digits::lemma_two_pow_positive(1074);
    lemma_fundamental_div_mod(a.abs_units() as int, u as int);
    let w = a.whole();
    assert(u * w == w * u) by (nonlinear_arith);
}

/// Rounding up gives the next integer.
pub proof fn law_ceiling_is_next_integer(a: Scalar) -> (n: int)
    requires
        a.finite(),
    ensures
        a.ceiled().finite(),
        a.ceiled().units() == n * digits::two_pow(1074),
        a.units() <= a.ceiled().units() < a.units() + digits::two_pow(1074),
{
    law_floor_and_ceiling_are_integers(a);
    lemma_ceiling_step(a);
    lemma_integer_value(a.ceiled())
}

proof fn lemma_ceiling_step(a: Scalar)
    requires
        a.finite(),
    ensures
        a.units() <= a.ceiled().units() < a.units() + digits::two_pow(1074),
{
    reveal(Scalar::ceiled);
    let u = digits::two_pow(1074);
    digits::lemma_two_pow_positive(1074);
    if a.excess() != 0 {
        lemma_whole(a);
        lemma_fractions_are_small(a);
        let w = a.whole();
        lemma_with_whole(a, w);
        lemma_with_whole(a, w + 1);
        assert((w + 1) * u == w * u + u) by (nonlinear_arith);
    }
}

/// Rounding down gives the integer before.
pub proof fn law_floor_is_integer_before(a: Scalar) -> (n: int)
    requires
        a.finite(),
    ensures
        a.floored().finite(),
        a.floored().units() == n * digits::two_pow(1074),
        a.units() - digits::two_pow(1074) < a.floored().units() <= a.units(),
{
    law_floor_and_ceiling_are_integers(a);
    lemma_floor_step(a);
    lemma_integer_value(a.floored())
}

proof fn lemma_floor_step(a: Scalar)
    requires
        a.finite(),
    ensures
        a.units() - digits::two_pow(1074) < a.floored().units() <= a.units(),
{
    reveal(Scalar::floored);
    let u = digits::two_pow(1074);
    digits::lemma_two_pow_positive(1074);
    if a.excess() != 0 {
        lemma_whole(a);
        lemma_fractions_are_small(a);
        let w = a.whole();
        lemma_with_whole(a, w);
        lemma_with_whole(a, w + 1);
        assert((w + 1) * u == w * u + u) by (nonlinear_arith);
    }
}

/// An integer between two others, or the nearer of them.
pub open spec fn held(n: int, max: nat) -> int {
    if n > max {
        max as int
    } else if n < -(max as int) {
        -(max as int)
    } else {
        n
    }
}

/// Truncating an integer only holds it between the limits.
pub proof fn law_truncating_holds_integers(a: Scalar, n: int, max: nat)
    requires
        a.finite(),
        a.units() == n * digits::two_pow(1074),
    ensures
        a.truncated_signed(max) == held(n, max),
{
    reveal(Scalar::truncated);
    let u = digits::two_pow(1074);
    digits::lemma_two_pow_positive(1074);
    let p: nat = if n < 0 {
        (-n) as nat
    } else {
        n as nat
    };
    assert(a.abs_units() == p * u) by (nonlinear_arith)
        requires
            a.units() == n * u,
            a.units() == a.abs_units() || a.units() == -(a.abs_units() as int),
            a.abs_units() >= 0,
            u > 0,
            p == n || p == -n,
            p >= 0,
    ;
    lemma_fundamental_div_mod_converse(a.abs_units() as int, u as int, p as int, 0);
    assert(a.whole() == p);
    assert(a.absolute().magnitude() == a.magnitude());
    assert(a.absolute().whole() == p);
    if a.negative() && n > 0 {
        assert(n * u > 0) by (nonlinear_arith)
            requires
                n > 0,
                u > 0,
        ;
    }
    if !a.negative() && n < 0 {
        assert(n * u < 0) by (nonlinear_arith)
            requires
                n < 0,
                u > 0,
        ;
    }
}

/// A number without a fraction is an integer.
pub proof fn lemma_integer_value(a: Scalar) -> (n: int)
    requires
        a.excess() == 0,
    ensures
        a.units() == n * digits::two_pow(1074),
{
    let u = digits::two_pow(1074);
    digits::lemma_two_pow_positive(1074);
    lemma_fundamental_div_mod(a.abs_units() as int, u as int);
    let w = a.whole();
    assert(a.abs_units() == w * u) by (nonlinear_arith)
        requires
            a.abs_units() == u * w + 0,
    ;
    if a.negative() {
        assert((-w) * u == -(w * u)) by (nonlinear_arith);
        -w
    } else {
        w as int
    }
}

proof fn lemma_fractional_scale(a: Scalar)
    requires
        a.magnitude() < INTEGERS_BITS,
    ensures
        a.scale() < 1074,
{
    arith::lemma_fields(a);
}

} // verus!
