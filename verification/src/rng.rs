//! A seeded pseudo-random word stream.
//!
//! The generator itself comes from the `rand_xorshift` crate and is opaque
//! here; `rng_state` names an abstraction of its 128-bit internal state, and
//! every operation's contract says how that abstract state evolves through the
//! uninterpreted functions below. Since each of those is a pure function of
//! the state, every value drawn anywhere in this crate is a deterministic
//! function of the seed it started from.

use vstd::prelude::*;

use rand_xorshift::XorShiftRng;

verus! {

/// A 128-bit generator seed, held as four 32-bit words.
#[derive(Clone, Copy, PartialEq, Eq, Structural, Debug)]
pub struct Seed {
    pub w0: u32,
    pub w1: u32,
    pub w2: u32,
    pub w3: u32,
}

impl View for Seed {
    type V = Seq<u32>;

    open spec fn view(&self) -> Seq<u32> {
        seq![self.w0, self.w1, self.w2, self.w3]
    }
}

impl Seed {
    /// The all-zero seed, used where a plan entry carries no content stream.
    pub fn zero() -> (r: Seed)
        ensures
            r == (Seed { w0: 0u32, w1: 0u32, w2: 0u32, w3: 0u32 }),
    {
        Seed { w0: 0, w1: 0, w2: 0, w3: 0 }
    }
}

#[verifier::external_type_specification]
#[verifier::external_body]
pub struct ExXorShiftRng(XorShiftRng);

/// The abstraction of a generator's internal state that the contracts below
/// speak of.
pub uninterp spec fn rng_state(rng: XorShiftRng) -> Seq<u32>;

/// The abstract state that `XorShiftRng::from_seed` builds from 16 seed bytes,
/// given here as the seed's four little-endian words.
pub uninterp spec fn xorshift_init(seed: Seq<u32>) -> Seq<u32>;

/// The abstract state that `SeedableRng::seed_from_u64` expands a word into.
pub uninterp spec fn xorshift_init_u64(n: u64) -> Seq<u32>;

/// The word that `XorShiftRng::next_u32` draws from a state, and the state it
/// leaves behind.
pub uninterp spec fn xorshift_next(state: Seq<u32>) -> (u32, Seq<u32>);

/// The bytes that `RngCore::fill_bytes` draws from a state for a buffer of a
/// given length, and the state it leaves behind.
pub uninterp spec fn xorshift_fill(state: Seq<u32>, len: nat) -> (Seq<u8>, Seq<u32>);

/// Relies on `rand_xorshift`'s `XorShiftRng::from_seed`: the generator built
/// from 16 seed bytes is a deterministic, total function of those bytes.
#[verifier::external_body]
pub fn prng_from_seed(seed: &Seed) -> (r: XorShiftRng)
    ensures
        rng_state(r) == xorshift_init(seed@),
{
    let mut bytes = [0u8; 16];
    bytes[0..4].copy_from_slice(&seed.w0.to_le_bytes());
    bytes[4..8].copy_from_slice(&seed.w1.to_le_bytes());
    bytes[8..12].copy_from_slice(&seed.w2.to_le_bytes());
    bytes[12..16].copy_from_slice(&seed.w3.to_le_bytes());
    rand::SeedableRng::from_seed(bytes)
}

/// Relies on `SeedableRng::seed_from_u64` for `XorShiftRng`: the word is
/// expanded into a 16-byte seed by a fixed integer permutation, so the
/// generator built from it is a deterministic, total function of the word.
#[verifier::external_body]
pub fn prng_from_u64(n: u64) -> (r: XorShiftRng)
    ensures
        rng_state(r) == xorshift_init_u64(n),
{
    rand::SeedableRng::seed_from_u64(n)
}

/// Relies on `XorShiftRng`'s `RngCore::next_u32`: the drawn word and the
/// successor state are a deterministic function of the state, computed by
/// integer shifts and xors alone.
#[verifier::external_body]
pub fn prng_next_u32(rng: &mut XorShiftRng) -> (r: u32)
    ensures
        r == xorshift_next(rng_state(*old(rng))).0,
        rng_state(*final(rng)) == xorshift_next(rng_state(*old(rng))).1,
{
    rand::RngCore::next_u32(rng)
}

/// Relies on `XorShiftRng`'s `RngCore::fill_bytes`, which fills the whole
/// buffer from consecutive draws in little-endian order: the bytes and the
/// successor state are a deterministic function of the state and the buffer's
/// length.
#[verifier::external_body]
pub fn prng_fill(rng: &mut XorShiftRng, len: usize) -> (r: Vec<u8>)
    ensures
        r@ == xorshift_fill(rng_state(*old(rng)), len as nat).0,
        r@.len() == len,
        rng_state(*final(rng)) == xorshift_fill(rng_state(*old(rng)), len as nat).1,
{
    let mut buf = vec![0u8; len];
    rand::RngCore::fill_bytes(rng, &mut buf);
    buf
}

/// The seed that [`next_seed`] assembles from four consecutive draws, and the
/// state those draws leave behind.
pub open spec fn spec_next_seed(state: Seq<u32>) -> (Seed, Seq<u32>) {
    let (w0, s1) = xorshift_next(state);
    let (w1, s2) = xorshift_next(s1);
    let (w2, s3) = xorshift_next(s2);
    let (w3, s4) = xorshift_next(s3);
    (Seed { w0, w1, w2, w3 }, s4)
}

/// Draw a fresh 128-bit seed for a child generator from this generator's
/// stream. The parent's stream moves on, so successive children get
/// independent seeds, each still a deterministic function of the parent's.
pub fn next_seed(rng: &mut XorShiftRng) -> (r: Seed)
    ensures
        r == spec_next_seed(rng_state(*old(rng))).0,
        rng_state(*final(rng)) == spec_next_seed(rng_state(*old(rng))).1,
{
    let w0 = prng_next_u32(rng);
    let w1 = prng_next_u32(rng);
    let w2 = prng_next_u32(rng);
    let w3 = prng_next_u32(rng);
    Seed { w0, w1, w2, w3 }
}

} // verus!
