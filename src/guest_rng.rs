//! The guest's source of pseudorandom bytes. The guest has no entropy, so the
//! generator is seeded with a fixed constant the first time it is used: every
//! run draws the same bytes, on purpose.

use rand::rngs::StdRng;
use vstd::prelude::*;

verus! {

/// The seed of the guest's generator.
pub const PRNG_SEED: u64 = 0xdeadbeefdeadbeef;

#[verifier::external_type_specification]
#[verifier::external_body]
pub struct ExStdRng(rand::rngs::StdRng);

/// The `k`-th byte (from 0) that `rand::Rng::gen::<u8>` draws from
/// `StdRng::seed_from_u64(seed)`: the stream depends on the seed and the
/// position alone.
pub uninterp spec fn seeded_byte(seed: u64, k: nat) -> u8;

/// The seed that a generator was made from.
pub uninterp spec fn stream_seed(r: StdRng) -> u64;

/// How many bytes a generator has drawn since it was seeded.
pub uninterp spec fn stream_position(r: StdRng) -> nat;

/// Relies on `rand::SeedableRng::seed_from_u64` for `StdRng`: a generator
/// whose stream is fixed by the seed, with nothing drawn yet.
#[verifier::external_body]
fn seeded_generator(seed: u64) -> (r: StdRng)
    ensures
        stream_seed(r) == seed,
        stream_position(r) == 0,
{
    <StdRng as rand::SeedableRng>::seed_from_u64(seed)
}

/// Relies on `rand::Rng::gen::<u8>`: the generator's next byte of its seeded
/// stream.
#[verifier::external_body]
fn next_byte(rng: &mut StdRng) -> (b: u8)
    ensures
        b == seeded_byte(stream_seed(*old(rng)), stream_position(*old(rng))),
        stream_seed(*final(rng)) == stream_seed(*old(rng)),
        stream_position(*final(rng)) == stream_position(*old(rng)) + 1,
{
    rand::Rng::gen::<u8>(rng)
}

/// A generator that is seeded with `PRNG_SEED` when it is first used.
pub struct GuestRng {
    rng: Option<StdRng>,
}

impl GuestRng {
    /// Whether the generator has been seeded.
    pub closed spec fn seeded(&self) -> bool {
        self.rng is Some
    }

    /// How many bytes have been drawn.
    pub closed spec fn drawn(&self) -> nat {
        match self.rng {
            Some(r) => stream_position(r),
            None => 0,
        }
    }

    /// The generator, once made, was seeded with `PRNG_SEED`.
    pub closed spec fn wf(&self) -> bool {
        match self.rng {
            Some(r) => stream_seed(r) == PRNG_SEED,
            None => true,
        }
    }

    pub fn new() -> (g: Self)
        ensures
            g.wf(),
            !g.seeded(),
            g.drawn() == 0,
    {
        GuestRng { rng: None }
    }
}

/// Fills `s` with the next bytes of the stream seeded with `PRNG_SEED`,
/// seeding the generator first where this is its first use. It never fails.
pub fn delendum_rand(g: &mut GuestRng, s: &mut [u8])
    requires
        old(g).wf(),
    ensures
        final(g).wf(),
        final(g).seeded(),
        final(g).drawn() == old(g).drawn() + old(s)@.len(),
        final(s)@.len() == old(s)@.len(),
        forall|i: int|
            0 <= i < old(s)@.len() ==> #[trigger] final(s)@[i] == seeded_byte(
                PRNG_SEED,
                (old(g).drawn() + i) as nat,
            ),
{
    let mut rng = match g.rng.take() {
        Some(r) => r,
        None => seeded_generator(PRNG_SEED),
    };
    let ghost start = old(g).drawn();
    assert(stream_position(rng) == start);
    let n = s.len();
    let mut i: usize = 0;
    while i < n
        invariant
            i <= n == s@.len() == old(s)@.len(),
            stream_seed(rng) == PRNG_SEED,
            stream_position(rng) == start + i,
            forall|j: int| 0 <= j < i ==> #[trigger] s@[j] == seeded_byte(PRNG_SEED, (start + j) as nat),
        decreases n - i,
    {
        s[i] = next_byte(&mut rng);
        i = i + 1;
    }
    g.rng = Some(rng);
}

} // verus!
