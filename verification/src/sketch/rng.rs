//! Reproducible pseudo-random numbers.

use vstd::prelude::*;
use vstd::arithmetic::div_mod::lemma_mod_multiples_vanish;
use crate::arith;
use crate::digits;
use crate::laws;
use crate::scalar;
use crate::scalar::{Scalar, ONE_BITS};

verus! {

/// The bit pattern of `2^32`.
pub const WORD_BITS: u64 = 0x41f0_0000_0000_0000;

/// The step of the generator's state.
pub const STEP: u32 = 0x6d2b_79f5;

/// A generator with one word of state (mulberry32).
#[derive(Debug, Clone, Copy, PartialEq, Eq, Structural)]
pub struct Rng {
    pub state: u32,
}

/// The word that a state yields.
pub open spec fn scramble(state: u32) -> u32 {
    let a = u32::wrapping_mul(state ^ (state >> 15), state | 1);
    let b = a ^ u32::wrapping_add(a, u32::wrapping_mul(a ^ (a >> 7), a | 61));
    b ^ (b >> 14)
}

/// The seed made of the time and of a count of the seeds made so far.
pub open spec fn mixed_seed(nanos: u64, n: u32) -> u64 {
    ((nanos ^ (nanos >> 17)) & 0xffff_fffe) ^ (n as u64)
}

/// The generator of a seed: its low 32 bits count.
pub open spec fn seeded(seed: u64) -> Rng {
    Rng { state: (seed & 0xffff_ffff) as u32 }
}

/// The number in `[0, 1)` of a word.
pub open spec fn unit(word: u32) -> Scalar {
    Scalar::integer(word as nat).quotient(Scalar { bits: WORD_BITS })
}

impl Rng {
    /// The state after one step.
    pub open spec fn next(self) -> Rng {
        Rng { state: u32::wrapping_add(self.state, STEP) }
    }

    /// The state after `n` steps.
    pub open spec fn after(self, n: nat) -> Rng
        decreases n,
    {
        if n == 0 {
            self
        } else {
            self.next().after((n - 1) as nat)
        }
    }

    /// The number in `[0, 1)` that comes next.
    pub open spec fn draw(self) -> Scalar {
        unit(scramble(self.next().state))
    }

    /// The number in `[lo, hi)` that comes next.
    pub open spec fn draw_range(self, lo: Scalar, hi: Scalar) -> Scalar {
        lo.sum(hi.difference(lo).product(self.draw()))
    }

    /// The offset up to `x` to both sides that comes next.
    pub open spec fn draw_offset(self, x: Scalar, roughness: Scalar, gain: Scalar) -> Scalar {
        roughness.product(gain).product(self.draw_range(x.negated(), x))
    }

    /// From the low 32 bits of a seed.
    pub fn new(seed: u64) -> (r: Rng)
        ensures
            r == seeded(seed),
    {
        Rng { state: (seed & 0xffff_ffff) as u32 }
    }

    /// From the time in nanoseconds and the number of generators that were made this way.
    ///
    /// The count keeps two generators made in a row apart.
    pub fn from_entropy(nanos: u64, n: u32) -> (r: Rng)
        ensures
            r == seeded(mixed_seed(nanos, n)),
    {
        Rng::new(((nanos ^ (nanos >> 17)) & 0xffff_fffe) ^ (n as u64))
    }

    /// The next word.
    pub fn next_u32(&mut self) -> (r: u32)
        ensures
            *final(self) == old(self).next(),
            r == scramble(old(self).next().state),
    {
        self.state = self.state.wrapping_add(STEP);
        let mut t: u32 = self.state;
        t = (t ^ (t >> 15)).wrapping_mul(t | 1);
        t = t ^ t.wrapping_add((t ^ (t >> 7)).wrapping_mul(t | 61));
        t ^ (t >> 14)
    }

    /// Uniform in `[0, 1)`.
    pub fn next_f64(&mut self) -> (r: Scalar)
        ensures
            *final(self) == old(self).next(),
            r == old(self).draw(),
    {
        Scalar::from_u64(self.next_u32() as u64).div(Scalar { bits: WORD_BITS })
    }

    /// Uniform in `[lo, hi)`.
    pub fn range(&mut self, lo: Scalar, hi: Scalar) -> (r: Scalar)
        ensures
            *final(self) == old(self).next(),
            r == old(self).draw_range(lo, hi),
    {
        let t = self.next_f64();
        lo.add(hi.sub(lo).mul(t))
    }

    /// An offset up to `x` to both sides, scaled by `roughness` and `gain`.
    pub fn offset(&mut self, x: Scalar, roughness: Scalar, gain: Scalar) -> (r: Scalar)
        ensures
            *final(self) == old(self).next(),
            r == old(self).draw_offset(x, roughness, gain),
    {
        let t = self.range(x.neg(), x);
        roughness.mul(gain).mul(t)
    }
}

/// Steps add up.
pub proof fn lemma_steps(r: Rng, a: nat, b: nat)
    ensures
        r.after(a).after(b) == r.after(a + b),
    decreases a,
{
    if a > 0 {
        lemma_steps(r.next(), (a - 1) as nat, b);
    }
}

/// One step more.
pub proof fn lemma_step(r: Rng, a: nat)
    ensures
        r.after(a).next() == r.after(a + 1),
{
    lemma_steps(r, a, 1);
    assert(r.after(a).after(1) == r.after(a).next().after(0));
}

/// Seeds that agree in their low 32 bits give the same numbers.
pub proof fn law_same_seed_same_stream(seed: u64, other: u64, n: nat)
    requires
        seed & 0xffff_ffff == other & 0xffff_ffff,
    ensures
        seeded(seed).after(n).draw() == seeded(other).after(n).draw(),
{
}

/// Two generators made in a row differ, whatever the times.
pub proof fn law_entropy_seeds_differ(nanos: u64, later: u64, n: u32)
    ensures
        seeded(mixed_seed(nanos, n)) != seeded(mixed_seed(later, u32::wrapping_add(n, 1))),
{
    lemma_entropy_parities(nanos, later, n);
}

/// The states of two generators made in a row are one even and one odd.
proof fn lemma_entropy_parities(nanos: u64, later: u64, n: u32)
    ensures
        seeded(mixed_seed(nanos, n)).state % 2 != seeded(
            mixed_seed(later, u32::wrapping_add(n, 1)),
        ).state % 2,
{
    let m = u32::wrapping_add(n, 1);
    assert(m % 2 != n % 2);
    let a = nanos ^ (nanos >> 17);
    let b = later ^ (later >> 17);
    assert(((((a & 0xffff_fffe) ^ (n as u64)) & 0xffff_ffff) as u32) % 2 == n % 2)
        by (bit_vector);
    assert(((((b & 0xffff_fffe) ^ (m as u64)) & 0xffff_ffff) as u32) % 2 == m % 2)
        by (bit_vector);
}

/// The state after `k` steps.
proof fn lemma_state_after(r: Rng, k: nat)
    ensures
        r.after(k).state as int == (r.state + k * STEP) % 0x1_0000_0000,
    decreases k,
{
    if k > 0 {
        let n = r.next();
        lemma_state_after(n, (k - 1) as nat);
        assert(n.state as int == (r.state + STEP) % 0x1_0000_0000);
        assert((n.state + (k - 1) * STEP) % 0x1_0000_0000 == (r.state + k * STEP) % 0x1_0000_0000)
            by (nonlinear_arith)
            requires
                n.state as int == (r.state + STEP) % 0x1_0000_0000,
                STEP == 0x6d2b_79f5u32,
        ;
    }
}

/// The inverse of the step, modulo `2^32`.
proof fn lemma_step_inverse(s: int, u: int, d: int)
    requires
        0 <= u < 0x1_0000_0000,
        d == (u - s) % 0x1_0000_0000,
    ensures
        (s + (d * 0xdc58_aa5d) * 0x6d2b_79f5) % 0x1_0000_0000 == u,
{
    let m = d * 1576479847;
    assert(s + (d * 0xdc58_aa5d) * 0x6d2b_79f5 == 0x1_0000_0000 * m + (s + d));
    lemma_mod_multiples_vanish(m, s + d, 0x1_0000_0000);
    assert((s + d) % 0x1_0000_0000 == u);
}

/// Every state is reached from every other one, since the step is odd.
proof fn lemma_all_states_reached(r: Rng, u: u32) -> (k: nat)
    ensures
        r.after(k).state == u,
{
    let d = (u - r.state) % 0x1_0000_0000;
    let k = (d * 0xdc58_aa5d) as nat;
    lemma_state_after(r, k);
    lemma_step_inverse(r.state as int, u as int, d);
    k
}

/// A state and the one `delta` further on yield the same word.
spec fn repeats(u: u32, delta: int) -> bool {
    scramble(u) == scramble(((u + delta) % 0x1_0000_0000) as u32)
}

/// Words that stay the same under a shift of the state stay so under its multiples.
proof fn lemma_shifted_words(delta: int, j: nat)
    requires
        forall|u: u32| #[trigger] repeats(u, delta),
    ensures
        scramble(((j * delta) % 0x1_0000_0000) as u32) == scramble(0),
    decreases j,
{
    if j > 0 {
        let i = (j - 1) as nat;
        lemma_shifted_words(delta, i);
        let m = i * delta;
        let u = (m % 0x1_0000_0000) as u32;
        assert(repeats(u, delta));
        assert(j * delta == m + delta) by (nonlinear_arith)
            requires
                m == i * delta,
                j == i + 1,
        ;
        assert((u + delta) % 0x1_0000_0000 == (m + delta) % 0x1_0000_0000);
    } else {
        assert(0 * delta == 0);
    }
}

proof fn lemma_two_words_differ()
    ensures
        scramble(0) != scramble(0x8000_0000),
{
    assert(0u32 ^ (0u32 >> 15u32) == 0 && 0u32 ^ (0u32 >> 7u32) == 0 && 0u32 ^ (0u32 >> 14u32) == 0
        && 0u32 ^ 0u32 == 0 && 0u32 | 1u32 == 1 && 0u32 | 61u32 == 61) by (bit_vector);
    assert(u32::wrapping_mul(0u32, 1u32) == 0 && u32::wrapping_mul(0u32, 61u32) == 0);
    assert(u32::wrapping_add(0u32, 0u32) == 0);
    assert(scramble(0) == 0);
    assert(0x8000_0000u32 ^ (0x8000_0000u32 >> 15u32) == 0x8001_0000u32 && 0x8000_0000u32 | 1u32
        == 0x8000_0001u32 && 0x8001_0000u32 ^ (0x8001_0000u32 >> 7u32) == 0x8101_0200u32
        && 0x8001_0000u32 | 61u32 == 0x8001_003du32 && 0x8001_0000u32 ^ 0x3f3e_7a00u32
        == 0xbf3f_7a00u32 && 0xbf3f_7a00u32 ^ (0xbf3f_7a00u32 >> 14u32) == 0xbf3d_86fdu32)
        by (bit_vector);
    assert(u32::wrapping_mul(0x8001_0000u32, 0x8000_0001u32) == 0x8001_0000u32);
    assert(u32::wrapping_mul(0x8101_0200u32, 0x8001_003du32) == 0xbf3d_7a00u32);
    assert(u32::wrapping_add(0x8001_0000u32, 0xbf3d_7a00u32) == 0x3f3e_7a00u32);
}

/// Steps keep the distance of two states.
proof fn lemma_same_distance(a: Rng, b: Rng, k: nat)
    ensures
        b.after(k).next().state as int == (a.after(k).next().state + (b.state - a.state))
            % 0x1_0000_0000,
{
    lemma_step(a, k);
    lemma_step(b, k);
    lemma_state_after(a, k + 1);
    lemma_state_after(b, k + 1);
    let w = a.state + (k + 1) * STEP;
    let delta = b.state - a.state;
    lemma_mod_multiples_vanish(w / 0x1_0000_0000, w % 0x1_0000_0000 + delta, 0x1_0000_0000);
    assert(b.state + (k + 1) * STEP == 0x1_0000_0000 * (w / 0x1_0000_0000) + (w % 0x1_0000_0000
        + delta));
}

/// Two generators whose states differ by an odd number yield different words sooner or later.
proof fn lemma_odd_distance_streams_differ(a: Rng, b: Rng)
    requires
        a.state % 2 != b.state % 2,
    ensures
        exists|k: nat| #[trigger]
            scramble(a.after(k).next().state) != scramble(b.after(k).next().state),
{
    if forall|k: nat| #[trigger]
        scramble(a.after(k).next().state) == scramble(b.after(k).next().state) {
        let delta = b.state - a.state;
        assert forall|u: u32| #[trigger] repeats(u, delta) by {
            let k = lemma_all_states_reached(a.next(), u);
            lemma_step(a, k);
            assert(a.after(k + 1) == a.next().after(k));
            lemma_same_distance(a, b, k);
            assert(scramble(a.after(k).next().state) == scramble(b.after(k).next().state));
        }
        lemma_shifted_words(delta, 0x8000_0000);
        assert(delta % 2 == 1);
        assert((0x8000_0000 * delta) % 0x1_0000_0000 == 0x8000_0000);
        lemma_two_words_differ();
        assert(false);
    }
}

/// Two generators made in a row do not yield the same words, whatever the times: at some point
/// the one yields another word than the other.
pub proof fn law_entropy_streams_differ(nanos: u64, later: u64, n: u32)
    ensures
        exists|k: nat| #[trigger]
            scramble(seeded(mixed_seed(nanos, n)).after(k).next().state) != scramble(
                seeded(mixed_seed(later, u32::wrapping_add(n, 1))).after(k).next().state,
            ),
{
    lemma_entropy_parities(nanos, later, n);
    lemma_odd_distance_streams_differ(
        seeded(mixed_seed(nanos, n)),
        seeded(mixed_seed(later, u32::wrapping_add(n, 1))),
    );
}

/// Without roughness there is no offset.
pub proof fn law_no_roughness_no_offset(r: Rng, x: Scalar, roughness: Scalar, gain: Scalar)
    requires
        roughness.magnitude() == 0,
        gain.finite(),
        r.draw_range(x.negated(), x).finite(),
    ensures
        r.draw_offset(x, roughness, gain).same(Scalar { bits: 0 }),
{
    laws::law_zero_absorbs(gain, roughness);
    let z = roughness.product(gain);
    laws::law_zero_absorbs(r.draw_range(x.negated(), x), z);
    scalar::lemma_zero(r.draw_offset(x, roughness, gain));
    scalar::lemma_zero(Scalar { bits: 0 });
}

proof fn lemma_word_bits()
    ensures
        (Scalar { bits: WORD_BITS }).finite(),
        (Scalar { bits: TOP_BITS }).finite(),
        (Scalar { bits: WORD_BITS }).abs_units() == 0x1_0000_0000 * digits::two_pow(1074),
        (Scalar { bits: TOP_BITS }).abs_units() * 0x1_0000_0000 == 0xffff_ffff
            * digits::two_pow(1074),
{
    let w = Scalar { bits: WORD_BITS };
    let t = Scalar { bits: TOP_BITS };
    let u = digits::two_pow(1074);
    lemma_small_powers();
    arith::lemma_two_pow_53();
    assert(w.scale() == 1054 && w.significand() == 0x10_0000_0000_0000);
    digits::lemma_two_pow_adds(20, 1054);
    assert(w.abs_units() == 0x1_0000_0000 * u) by (nonlinear_arith)
        requires
            w.abs_units() == 0x10_0000_0000_0000 * digits::two_pow(1054),
            u == 0x10_0000 * digits::two_pow(1054),
    ;
    assert(t.scale() == 1021 && t.significand() == 0x1f_ffff_ffe0_0000);
    digits::lemma_two_pow_adds(53, 1021);
    assert(t.abs_units() * 0x1_0000_0000 == 0xffff_ffff * u) by (nonlinear_arith)
        requires
            t.abs_units() == 0x1f_ffff_ffe0_0000 * digits::two_pow(1021),
            u == 0x20_0000_0000_0000 * digits::two_pow(1021),
    ;
}

proof fn lemma_small_powers()
    ensures
        digits::two_pow(20) == 0x10_0000,
{
    reveal_with_fuel(digits::two_pow, 21);
}

/// The largest number that is drawn.
pub const TOP_BITS: u64 = 0x3fef_ffff_ffe0_0000;

/// Numbers are drawn from `[0, 1)`.
pub proof fn law_draws_stay_in_unit_range(word: u32)
    ensures
        unit(word).finite(),
        !unit(word).less(Scalar { bits: 0 }),
        unit(word).less(Scalar { bits: ONE_BITS }),
{
    reveal(Scalar::quotient);
    reveal(Scalar::integer);
    let u = digits::two_pow(1074);
    let n = word as nat;
    digits::lemma_two_pow_positive(1074);
    laws::law_small_integers_are_exact(n);
    let w = Scalar { bits: WORD_BITS };
    let x = Scalar::integer(n);
    lemma_word_bits();
    let top = Scalar { bits: TOP_BITS };
    let zero = Scalar { bits: 0 };
    scalar::lemma_zero(zero);
    scalar::lemma_zero(x);
    let d = w.abs_units();
    let m = x.abs_units() * u;
    assert(zero.abs_units() * d <= m) by (nonlinear_arith)
        requires
            zero.abs_units() == 0,
            m >= 0,
    ;
    assert(m <= top.abs_units() * d) by (nonlinear_arith)
        requires
            m == (n * u) * u,
            d == 0x1_0000_0000 * u,
            top.abs_units() * 0x1_0000_0000 == 0xffff_ffff * u,
            n <= 0xffff_ffff,
    ;
    laws::lemma_between(m, d, zero, top);
    let r = unit(word);
    assert(!r.negative());
    assert(r.magnitude() <= TOP_BITS);
    scalar::lemma_magnitude_order(r, Scalar { bits: ONE_BITS });
}

} // verus!
