//! Structural hash primitives: folding child fingerprints into a parent
//! fingerprint.

use vstd::prelude::*;

verus! {

/// Seed that every combination starts from.
pub const HASH_SEED: u64 = 0x0123456789abcdef;

/// Multiplier of both mixing steps.
pub const HASH_PRIME: u64 = 1000003;

/// The value that no fingerprint takes: it is left free as a sentinel.
pub const HASH_SENTINEL: u64 = 0xffff_ffff_ffff_ffff;

/// `x * y` reduced to 64 bits.
pub open spec fn mul64(x: u64, y: u64) -> u64 {
    ((x as nat * y as nat) % 0x1_0000_0000_0000_0000nat) as u64
}

/// `x + y` reduced to 64 bits.
pub open spec fn add64(x: u64, y: u64) -> u64 {
    if x + y > u64::MAX {
        (x + y - 0x1_0000_0000_0000_0000) as u64
    } else {
        (x + y) as u64
    }
}

/// The two mixing steps and the final scramble, before the sentinel is
/// avoided.
pub open spec fn mix(lhs: u64, rhs: u64) -> u64 {
    let first = mul64(HASH_SEED, HASH_PRIME) ^ add64(lhs, 1);
    let second = mul64(first, HASH_PRIME) ^ add64(rhs, 2);
    second ^ 2
}

/// The combination of an accumulated hash `lhs` with the next child hash
/// `rhs`. It depends on the order of its arguments, and never equals
/// [`HASH_SENTINEL`].
pub open spec fn structure_hash(lhs: u64, rhs: u64) -> u64 {
    if mix(lhs, rhs) == HASH_SENTINEL {
        0xffff_ffff_ffff_fffe
    } else {
        mix(lhs, rhs)
    }
}

/// Merges an accumulated hash and a child hash into one 64-bit value.
/// Additions and multiplications wrap at 64 bits.
pub fn merge_structure_hash(lhs: u64, rhs: u64) -> (result: u64)
    ensures
        result == structure_hash(lhs, rhs),
        result != HASH_SENTINEL,
{
    let mut value: u64 = HASH_SEED.wrapping_mul(HASH_PRIME) ^ lhs.wrapping_add(1);
    value = value.wrapping_mul(HASH_PRIME) ^ rhs.wrapping_add(2);
    value = value ^ 2;
    if value == u64::MAX {
        u64::MAX - 1
    } else {
        value
    }
}

} // verus!
