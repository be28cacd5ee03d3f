//! Drawing counts from probability distributions.
//!
//! A count (of files, directories, or bytes) is drawn around a mean: from a
//! log-normal-shaped distribution when the mean is large, where a normal
//! distribution's tails would stray too far in absolute terms, and from a
//! normal-shaped distribution otherwise, which is better behaved for small
//! means. Both are computed here in fixed-point integer arithmetic over the
//! generator's word stream, so a draw is a deterministic, fully specified
//! function of the mean and the generator's state:
//!
//! * a standard normal variate is approximated by an Irwin-Hall sum of twelve
//!   uniform words (mean `6 * 2^32`, standard deviation `2^32` in fixed
//!   point);
//! * the normal draw is `mean + mean / 5 * z`, i.e. standard deviation
//!   `0.2 * mean`, rounded to the nearest integer and clamped at zero;
//! * the log-normal draw has mean `mean` and coefficient of variation 2; it
//!   is `mean * exp(sigma * z - sigma^2 / 2)` with `sigma^2 = ln 5`, computed
//!   as a power of two with a quadratic fixed-point approximation of `2^x` on
//!   `[0, 1)`.
//!
//! Draws above `usize`'s range are clamped to `usize::MAX`.

use vstd::prelude::*;

use rand_xorshift::XorShiftRng;

use crate::rng::{prng_next_u32, rng_state, xorshift_next};
use vstd::arithmetic::power2::pow2;

verus! {

/// Means above this are drawn log-normally, means at or below it normally.
pub const LOG_NORMAL_CUTOFF: usize = 10000;

/// The fixed-point unit: values are carried as multiples of `2^-32`.
pub const Q: u128 = 4294967296;

/// `sqrt(ln 5) * log2(e)` in fixed point: the factor that turns a standard
/// normal variate into the log-normal draw's base-2 exponent.
pub const A32: u128 = 7860886287;

/// `(ln 5 / 2) * log2(e)` in fixed point: the exponent correction that gives
/// the log-normal draw its intended mean.
pub const B32: u128 = 4986302616;

/// The log-normal exponent, rebased by 64 so that it is never negative.
pub const EXP_OFFSET: u128 = 64 * Q - 6 * A32 - B32;

/// Linear coefficient of the quadratic approximation of `2^x` on `[0, 1)`.
pub const C1: u128 = 2821149268;

/// Quadratic coefficient; `C1 + C2 == Q`, so the approximation is exact at
/// both ends of the interval.
pub const C2: u128 = Q - C1;

/// Clamp a mathematical count into `usize`'s range.
pub open spec fn clamp_to_usize(v: int) -> usize {
    if v > usize::MAX {
        usize::MAX
    } else if v < 0 {
        0usize
    } else {
        v as usize
    }
}

/// The sum of `k` uniform words drawn from a state, and the state they leave
/// behind.
pub open spec fn spec_uniform_sum(k: nat, state: Seq<u32>) -> (int, Seq<u32>)
    decreases k,
{
    if k == 0 {
        (0int, state)
    } else {
        let (prev, st) = spec_uniform_sum((k - 1) as nat, state);
        let (w, st2) = xorshift_next(st);
        (prev + w, st2)
    }
}

/// The count that a normal draw around `mean` takes from a state, and the
/// state it leaves behind. With `s` the Irwin-Hall sum, the standard variate
/// is `z = (s - 6Q) / Q` and the draw is `mean * (1 + z / 5)`, i.e.
/// `mean * (s - Q) / (5Q)`, rounded to nearest and clamped at zero.
#[verifier::opaque]
pub open spec fn spec_normal(mean: usize, state: Seq<u32>) -> (usize, Seq<u32>) {
    let q = Q as int;
    let (s, st) = spec_uniform_sum(12, state);
    let v = if s <= q {
        0int
    } else {
        (mean * (s - q) + (5 * q) / 2) / (5 * q)
    };
    (clamp_to_usize(v), st)
}

/// The count that a log-normal draw around `mean` takes from a state, and the
/// state it leaves behind. The draw is `mean * 2^(e - 64)` where
/// `e = z * A32 / Q + EXP_OFFSET` is the rebased fixed-point exponent and the
/// fractional power of two comes from the quadratic approximation.
#[verifier::opaque]
pub open spec fn spec_lognormal(mean: usize, state: Seq<u32>) -> (usize, Seq<u32>) {
    let q = Q as int;
    let (s, st) = spec_uniform_sum(12, state);
    let e = (s * A32) / q + EXP_OFFSET;
    let k = e / q;
    let f = e % q;
    let p = q + (C1 * f) / q + (C2 * ((f * f) / q)) / q;
    let den = pow2((96 - k) as nat) as int;
    let v = (mean * p + den / 2) / den;
    (clamp_to_usize(v), st)
}

/// The count that [`sample_count`] draws around a mean, and the state the draw
/// leaves behind.
pub open spec fn spec_sample(mean: usize, state: Seq<u32>) -> (usize, Seq<u32>) {
    if mean > LOG_NORMAL_CUTOFF {
        spec_lognormal(mean, state)
    } else {
        spec_normal(mean, state)
    }
}

/// Sum twelve uniform words from the node's private stream.
fn uniform_sum_12(rng: &mut XorShiftRng) -> (r: u64)
    ensures
        r == spec_uniform_sum(12, rng_state(*old(rng))).0,
        rng_state(*final(rng)) == spec_uniform_sum(12, rng_state(*old(rng))).1,
        r < 12 * Q,
{
    let ghost st0 = rng_state(*rng);
    let mut s: u64 = 0;
    let mut i: usize = 0;
    while i < 12
        invariant
            0 <= i <= 12,
            s == spec_uniform_sum(i as nat, st0).0,
            rng_state(*rng) == spec_uniform_sum(i as nat, st0).1,
            s <= i * 0xffff_ffff,
        decreases 12 - i,
    {
        let w = prng_next_u32(rng);
        s = s + (w as u64);
        i = i + 1;
    }
    s
}

/// `2^e`, for exponents small enough that the result fits a `u128`.
fn pow2_u128(e: usize) -> (r: u128)
    requires
        e < 64,
    ensures
        r == pow2(e as nat),
{
    proof {
        vstd::arithmetic::power2::lemma2_to64();
    }
    let mut r: u128 = 1;
    let mut i: usize = 0;
    while i < e
        invariant
            0 <= i <= e < 64,
            r == pow2(i as nat),
        decreases e - i,
    {
        proof {
            vstd::arithmetic::power2::lemma_pow2_strictly_increases(i as nat, 63);
            vstd::arithmetic::power2::lemma_pow2_unfold((i + 1) as nat);
            vstd::arithmetic::power2::lemma2_to64_rest();
        }
        r = r * 2;
        i = i + 1;
    }
    r
}

/// Draw a count around `mean` from the normal-shaped distribution.
fn draw_normal(mean: usize, rng: &mut XorShiftRng) -> (r: usize)
    ensures
        r == spec_normal(mean, rng_state(*old(rng))).0,
        rng_state(*final(rng)) == spec_normal(mean, rng_state(*old(rng))).1,
{
    proof {
        reveal(spec_normal);
    }
    let s = uniform_sum_12(rng);
    if s <= Q as u64 {
        0
    } else {
        proof {
            assert((mean as int) * (s - Q) <= (usize::MAX as int) * (11 * Q)) by (nonlinear_arith)
                requires
                    0 <= mean <= usize::MAX,
                    0 <= s - Q <= 11 * Q,
            ;
        }
        let num: u128 = (mean as u128) * ((s - Q as u64) as u128);
        let v: u128 = (num + (5 * Q) / 2) / (5 * Q);
        if v > usize::MAX as u128 {
            usize::MAX
        } else {
            v as usize
        }
    }
}

/// Draw a count around `mean` from the log-normal-shaped distribution.
fn draw_lognormal(mean: usize, rng: &mut XorShiftRng) -> (r: usize)
    ensures
        r == spec_lognormal(mean, rng_state(*old(rng))).0,
        rng_state(*final(rng)) == spec_lognormal(mean, rng_state(*old(rng))).1,
{
    proof {
        reveal(spec_lognormal);
    }
    let s = uniform_sum_12(rng);
    let e: u128 = ((s as u128) * A32) / Q + EXP_OFFSET;
    proof {
        // s * A32 stays linear because A32 is a constant; bound the quotient
        // through the division identity so that k's range is linear too.
        vstd::arithmetic::div_mod::lemma_fundamental_div_mod((s as int) * (A32 as int), Q as int);
        vstd::arithmetic::div_mod::lemma_fundamental_div_mod(e as int, Q as int);
    }
    let k: u128 = e / Q;
    let f: u128 = e % Q;
    proof {
        assert(e < 75 * Q);
        assert(51 <= k < 75);
        assert(f * f <= (Q - 1) * (Q - 1)) by (nonlinear_arith)
            requires
                0 <= f <= Q - 1,
        ;
        vstd::arithmetic::div_mod::lemma_fundamental_div_mod((C1 as int) * (f as int), Q as int);
        vstd::arithmetic::div_mod::lemma_fundamental_div_mod((f as int) * (f as int), Q as int);
        assert((C2 as int) * (((f as int) * (f as int)) / (Q as int)) <= (C2 as int) * (Q - 1));
        vstd::arithmetic::div_mod::lemma_fundamental_div_mod(
            (C2 as int) * (((f as int) * (f as int)) / (Q as int)),
            Q as int,
        );
    }
    let p: u128 = Q + (C1 * f) / Q + (C2 * ((f * f) / Q)) / Q;
    let shift: usize = (96 - k) as usize;
    let den: u128 = pow2_u128(shift);
    proof {
        vstd::arithmetic::power2::lemma_pow2_pos(shift as nat);
        vstd::arithmetic::power2::lemma_pow2_strictly_increases(shift as nat, 63);
        vstd::arithmetic::power2::lemma2_to64_rest();
        assert((mean as int) * p <= (usize::MAX as int) * (2 * Q)) by (nonlinear_arith)
            requires
                0 <= mean <= usize::MAX,
                0 <= p <= 2 * Q,
        ;
    }
    let v: u128 = ((mean as u128) * p + den / 2) / den;
    if v > usize::MAX as u128 {
        usize::MAX
    } else {
        v as usize
    }
}

/// Draw a non-negative count around `mean` from the node's private stream.
pub fn sample_count(mean: usize, rng: &mut XorShiftRng) -> (r: usize)
    ensures
        r == spec_sample(mean, rng_state(*old(rng))).0,
        rng_state(*final(rng)) == spec_sample(mean, rng_state(*old(rng))).1,
{
    if mean > LOG_NORMAL_CUTOFF {
        draw_lognormal(mean, rng)
    } else {
        draw_normal(mean, rng)
    }
}

} // verus!
