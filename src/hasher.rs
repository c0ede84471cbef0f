use vstd::prelude::*;
use blake2::digest::{Update, VariableOutput};
use crate::codec::append_bytes;

verus! {

/// The eight little-endian bytes of the 64-bit xxHash of `data` under `seed`.
pub uninterp spec fn xxh64_le_of(seed: u64, data: Seq<u8>) -> Seq<u8>;

/// The BLAKE2b digest of `data` with an output of `n` bytes.
pub uninterp spec fn blake2b_of(n: nat, data: Seq<u8>) -> Seq<u8>;

/// Relies on twox_hash::XxHash64 (seeded, via std::hash::Hasher) and
/// u64::to_le_bytes: the 64-bit xxHash of `data`, as eight little-endian bytes.
#[verifier::external_body]
fn xxh64_le(seed: u64, data: &[u8]) -> (r: Vec<u8>)
    ensures
        r@ == xxh64_le_of(seed, data@),
        r@.len() == 8,
{
    let mut h = twox_hash::XxHash64::with_seed(seed);
    std::hash::Hasher::write(&mut h, data);
    std::hash::Hasher::finish(&h).to_le_bytes().to_vec()
}

/// Relies on blake2::Blake2bVar: the BLAKE2b digest of `data` with `n`
/// output bytes, which the crate accepts for 1 to 64 bytes.
#[verifier::external_body]
fn blake2b(n: usize, data: &[u8]) -> (r: Vec<u8>)
    requires
        1 <= n <= 64,
    ensures
        r@ == blake2b_of(n as nat, data@),
        r@.len() == n,
{
    let mut h = blake2::Blake2bVar::new(n).unwrap();
    h.update(data);
    let mut out = vec![0u8; n];
    h.finalize_variable(&mut out).unwrap();
    out
}

/// How a storage key component is hashed into the final key.
#[derive(Debug, Clone, Copy, PartialEq, Eq, Structural)]
pub enum Hasher {
    Blake2_128,
    Blake2_256,
    Blake2_128Concat,
    Twox128,
    Twox256,
    Twox64Concat,
    Identity,
}

/// xxHash-based hash of `n` 64-bit lanes, seeds 0 to n-1, concatenated.
pub open spec fn twox_spec(lanes: nat, data: Seq<u8>) -> Seq<u8>
    decreases lanes,
{
    if lanes == 0 {
        Seq::empty()
    } else {
        twox_spec((lanes - 1) as nat, data) + xxh64_le_of((lanes - 1) as u64, data)
    }
}

/// The bytes that `h` contributes to a storage key for the component `data`.
pub open spec fn hash_spec(h: Hasher, data: Seq<u8>) -> Seq<u8> {
    match h {
        Hasher::Blake2_128 => blake2b_of(16, data),
        Hasher::Blake2_256 => blake2b_of(32, data),
        Hasher::Blake2_128Concat => blake2b_of(16, data) + data,
        Hasher::Twox128 => twox_spec(2, data),
        Hasher::Twox256 => twox_spec(4, data),
        Hasher::Twox64Concat => twox_spec(1, data) + data,
        Hasher::Identity => data,
    }
}

/// The 64-bit xxHash of `data` under `lanes` seeds, concatenated.
pub fn twox(lanes: u64, data: &[u8]) -> (r: Vec<u8>)
    ensures
        r@ == twox_spec(lanes as nat, data@),
{
    let mut r: Vec<u8> = Vec::new();
    let mut i: u64 = 0;
    while i < lanes
        invariant
            i <= lanes,
            r@ == twox_spec(i as nat, data@),
        decreases lanes - i,
    {
        let lane = xxh64_le(i, data);
        append_bytes(&mut r, lane.as_slice());
        i = i + 1;
    }
    r
}

/// Hashes a key component as the scheme `h` prescribes.
pub fn hash(h: Hasher, data: &[u8]) -> (r: Vec<u8>)
    ensures
        r@ == hash_spec(h, data@),
{
    match h {
        Hasher::Blake2_128 => blake2b(16, data),
        Hasher::Blake2_256 => blake2b(32, data),
        Hasher::Blake2_128Concat => {
            let mut r = blake2b(16, data);
            append_bytes(&mut r, data);
            r
        },
        Hasher::Twox128 => twox(2, data),
        Hasher::Twox256 => twox(4, data),
        Hasher::Twox64Concat => {
            let mut r = twox(1, data);
            append_bytes(&mut r, data);
            r
        },
        Hasher::Identity => {
            let mut r: Vec<u8> = Vec::new();
            append_bytes(&mut r, data);
            r
        },
    }
}

} // verus!
