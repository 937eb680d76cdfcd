//! The stable identifier hash: XXH64 over the identifier's UTF-8 bytes with
//! a seed that is fixed for good, since stored keys depend on it.

use vstd::prelude::*;

verus! {

/// Seed of the identifier hash. Keys that were written out depend on it.
pub const HASH_SEED: u64 = 123456789123456789;

/// The XXH64 digest of `bytes` under `seed`.
pub uninterp spec fn xxh64_digest(bytes: Seq<u8>, seed: u64) -> u64;

/// `xxhash_rust::xxh64::xxh64`: a pure function of the input bytes and the
/// seed. The contract gives its result the name `xxh64_digest` and claims
/// nothing else of it.
pub assume_specification[ xxhash_rust::xxh64::xxh64 ](input: &[u8], seed: u64) -> (digest: u64)
    ensures
        digest == xxh64_digest(input@, seed),
;

/// The stable hash of an identifier.
pub open spec fn stable_hash(ident: Seq<char>) -> u64 {
    xxh64_digest(vstd::utf8::encode_utf8(ident), HASH_SEED)
}

/// Hashes an identifier: XXH64 of its UTF-8 bytes under `HASH_SEED`.
pub fn hash_ident(ident: &str) -> (h: u64)
    ensures
        h == stable_hash(ident@),
{
    xxhash_rust::xxh64::xxh64(ident.as_bytes(), HASH_SEED)
}

} // verus!
