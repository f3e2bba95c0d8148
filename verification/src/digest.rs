//! The keyed 64-bit digest of a run of bytes, by which leaves are hashed.

use vstd::prelude::*;

verus! {

/// The four keys of a digest. Digests under different keys are unrelated.
#[derive(Clone, Copy, Debug, PartialEq, Eq, Structural)]
pub struct Seeds {
    pub k0: u64,
    pub k1: u64,
    pub k2: u64,
    pub k3: u64,
}

/// The digest of `data` under the keys `k0` to `k3`: what `ahash` computes
/// for a byte slice with a hasher state that was made from these four keys.
pub uninterp spec fn digest(k0: u64, k1: u64, k2: u64, k3: u64, data: Seq<u8>) -> u64;

impl Seeds {
    /// The digest of `data` under these keys.
    pub open spec fn digest(self, data: Seq<u8>) -> u64 {
        digest(self.k0, self.k1, self.k2, self.k3, data)
    }

    /// Keys that differ from one call to the next.
    pub fn fresh() -> (seeds: Self) {
        let keys = fresh_keys();
        Seeds { k0: keys.0, k1: keys.1, k2: keys.2, k3: keys.3 }
    }

    /// Computes the digest of `data` under these keys.
    pub fn hash(&self, data: &[u8]) -> (h: u64)
        ensures
            h == self.digest(data@),
    {
        hash_bytes(self.k0, self.k1, self.k2, self.k3, data)
    }
}

/// Trusted: `ahash::RandomState::with_seeds` builds the same hasher state from
/// the same four keys, and `hash_one` of a state and a byte slice depends on
/// these two alone.
#[verifier::external_body]
fn hash_bytes(k0: u64, k1: u64, k2: u64, k3: u64, data: &[u8]) -> (h: u64)
    ensures
        h == digest(k0, k1, k2, k3, data@),
{
    ahash::RandomState::with_seeds(k0, k1, k2, k3).hash_one(data)
}

/// Trusted: four numbers drawn from a randomly keyed `ahash::RandomState`.
/// Nothing is known of them.
#[verifier::external_body]
fn fresh_keys() -> (keys: (u64, u64, u64, u64)) {
    let state = ahash::RandomState::new();
    (state.hash_one(0u8), state.hash_one(1u8), state.hash_one(2u8), state.hash_one(3u8))
}

} // verus!
