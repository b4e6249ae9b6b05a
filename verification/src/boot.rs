//! Boot-time seed for the dungeon generator.
use vstd::prelude::*;

verus! {

/// `x * y` modulo 2^64.
pub open spec fn mul_mod64(x: u64, y: u64) -> u64 {
    ((x as nat * y as nat) % 0x1_0000_0000_0000_0000nat) as u64
}

/// The SplitMix64 finaliser.
pub open spec fn mix64_of(value: u64) -> u64 {
    let a = value ^ (value >> 30u64);
    let b = mul_mod64(a, 0xbf58_476d_1ce4_e5b9);
    let c = b ^ (b >> 27u64);
    let d = mul_mod64(c, 0x94d0_49bb_1331_11eb);
    d ^ (d >> 31u64)
}

/// Scrambles the bits of `value` (SplitMix64's finaliser).
pub fn mix64(value: u64) -> (mixed: u64)
    ensures
        mixed == mix64_of(value),
{
    let mut value = value;
    value ^= value >> 30;
    value = value.wrapping_mul(0xbf58_476d_1ce4_e5b9);
    value ^= value >> 27;
    value = value.wrapping_mul(0x94d0_49bb_1331_11eb);
    value ^ (value >> 31)
}

/// The seed of a boot: the time counter mixed with the hart id and the
/// device-tree address.
pub open spec fn boot_seed_of(hartid: usize, dtb: usize, time: u64) -> u64 {
    mix64_of(time ^ ((hartid as u64) << 32u64) ^ (dtb as u64))
}

/// The dungeon seed for this boot, from the hardware time counter `time`
/// (read by the caller), the hart id and the device-tree address.
pub fn boot_seed(hartid: usize, dtb: usize, time: u64) -> (seed: u64)
    ensures
        seed == boot_seed_of(hartid, dtb, time),
{
    mix64(time ^ ((hartid as u64) << 32) ^ (dtb as u64))
}

} // verus!
