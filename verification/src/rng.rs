//! The deterministic random number source of dungeon generation: a
//! xoshiro256++ generator seeded from a `u64`.
use vstd::prelude::*;
use rand_core::RngCore;
use rand_core::SeedableRng;
use rand_xoshiro::Xoshiro256PlusPlus;

verus! {

#[verifier::external_type_specification]
#[verifier::external_body]
pub struct ExXoshiro256PlusPlus(Xoshiro256PlusPlus);

/// The value that `next_u32` returns from a xoshiro256++ generator created
/// by `seed_from_u64(seed)` after `draws` earlier values were taken from it.
pub uninterp spec fn xoshiro_u32(seed: u64, draws: nat) -> u32;

/// A seeded generator together with the seed it came from and the number
/// of values taken from it so far.
pub struct DungeonRng {
    inner: Xoshiro256PlusPlus,
    seed: Ghost<u64>,
    draws: Ghost<nat>,
}

impl View for DungeonRng {
    type V = (u64, nat);

    closed spec fn view(&self) -> (u64, nat) {
        (self.seed@, self.draws@)
    }
}

/// The next value that `rng` (seen through its view) hands out.
pub open spec fn next_draw(rng: (u64, nat)) -> u32 {
    xoshiro_u32(rng.0, rng.1)
}

/// The generator after `n` more values were taken.
pub open spec fn advanced(rng: (u64, nat), n: nat) -> (u64, nat) {
    (rng.0, rng.1 + n)
}

/// `rand_xoshiro`'s `Xoshiro256PlusPlus::seed_from_u64`; nothing is stated
/// of the generator it builds, which is only ever read through
/// `DungeonRng::next_u32`.
#[verifier::external_body]
fn xoshiro_from_seed(seed: u64) -> Xoshiro256PlusPlus {
    Xoshiro256PlusPlus::seed_from_u64(seed)
}

impl DungeonRng {
    /// A generator seeded with `seed` from which nothing was drawn yet.
    pub fn seed_from_u64(seed: u64) -> (rng: Self)
        ensures
            rng@ == (seed, 0nat),
    {
        DungeonRng { inner: xoshiro_from_seed(seed), seed: Ghost(seed), draws: Ghost(0) }
    }

    /// `rand_core`'s `RngCore::next_u32` on the xoshiro256++ generator: the
    /// value is the one the seed and the number of earlier draws determine
    /// (xoshiro256++ keeps no other state), and one more value is taken.
    #[verifier::external_body]
    pub(crate) fn next_u32(&mut self) -> (value: u32)
        ensures
            value == xoshiro_u32(old(self)@.0, old(self)@.1),
            final(self)@ == advanced(old(self)@, 1),
    {
        self.inner.next_u32()
    }
}

/// The number in `[min, max)` that the random value `value` selects.
pub open spec fn range_pick(value: u32, min: int, max: int) -> int {
    min + (value as int) % (max - min)
}

/// Maps a random `u32` into `[min, max)`.
pub fn range_from_u32(value: u32, min: i32, max: i32) -> (r: i32)
    requires
        min < max,
        max - min <= i32::MAX,
    ensures
        r == range_pick(value, min as int, max as int),
        min <= r < max,
{
    let span = (max - min) as u32;
    let off = value % span;
    min + off as i32
}

/// Draws a number in `[min, max)`.
pub fn rand_range_i32(rng: &mut DungeonRng, min: i32, max: i32) -> (r: i32)
    requires
        min < max,
        max - min <= i32::MAX,
    ensures
        r == range_pick(next_draw(old(rng)@), min as int, max as int),
        min <= r < max,
        final(rng)@ == advanced(old(rng)@, 1),
{
    let value = rng.next_u32();
    range_from_u32(value, min, max)
}

} // verus!
