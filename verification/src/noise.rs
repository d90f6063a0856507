//! The deterministic noise that shapes the terrain: a seeded hash of a world
//! coordinate.

use vstd::prelude::*;

verus! {

/// The seed of every hash of the terrain.
pub const SEED: u32 = 42;

/// The 32-bit xxHash digest of `bytes` under `seed`, widened to 64 bits.
pub uninterp spec fn xxhash32(seed: u32, bytes: Seq<u8>) -> u64;

/// Hashes `bytes` with `twox_hash::XxHash32`: a hasher made by `with_seed`,
/// fed once by `write` and read by `finish`. The digest depends on the seed
/// and the bytes alone, and `finish` widens a 32-bit value, so the upper
/// half of the result is zero.
#[verifier::external_body]
fn xxhash32_digest(seed: u32, bytes: &Vec<u8>) -> (digest: u64)
    ensures
        digest == xxhash32(seed, bytes@),
        digest <= u32::MAX,
{
    let mut hasher = twox_hash::XxHash32::with_seed(seed);
    std::hash::Hasher::write(&mut hasher, bytes.as_slice());
    std::hash::Hasher::finish(&hasher)
}

/// The bytes that stand for the coordinate `x` when it is hashed: the low 64
/// bits of its two's complement, least significant byte first.
pub open spec fn coordinate_bytes(x: int) -> Seq<u8> {
    vstd::bytes::spec_u64_to_le_bytes(x as u64)
}

/// The hash of the coordinate `x`.
pub open spec fn coordinate_hash(x: int) -> int {
    xxhash32(SEED, coordinate_bytes(x)) as int
}

/// The hash of the coordinate `x`: the same on every machine.
pub fn hash_coordinate(x: isize) -> (hash: u32)
    ensures
        hash == coordinate_hash(x as int),
{
    hash_position(x as i128)
}

/// The hash of a position that may lie beyond the coordinates that the
/// machine can count, as the neighbour of the last of them does.
pub fn hash_position(x: i128) -> (hash: u32)
    ensures
        hash == coordinate_hash(x as int),
{
    let bytes = vstd::bytes::u64_to_le_bytes(#[verifier::truncate] (x as u64));
    let digest = xxhash32_digest(SEED, &bytes);
    digest as u32
}

} // verus!
