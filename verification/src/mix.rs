//! String-keyed entropy helpers: a djb2-style hash over a string's UTF-8
//! bytes, a splitmix finalizer, and their composition seeded by a fixed
//! tag.  Every function's exact value is pinned by its contract.

use vstd::prelude::*;
use vstd::string::StringSliceAdditionalSpecFns;

verus! {

/// The hash state after folding in the first `n` bytes, starting
/// from 3581 and taking each step as `state * 33` (wrapping) xor byte.
pub open spec fn djb2(bytes: Seq<u8>, n: int) -> u32
    decreases n,
{
    if n <= 0 {
        3581u32
    } else {
        djb2(bytes, n - 1).wrapping_mul(33) ^ (bytes[n - 1] as u32)
    }
}

/// The hash of a whole byte sequence.
pub open spec fn djb2_full(bytes: Seq<u8>) -> u32 {
    djb2(bytes, bytes.len() as int)
}

/// Hash a string's UTF-8 bytes.
pub fn hash(s: &str) -> (r: u32)
    ensures
        r == djb2_full(s.spec_bytes()),
{
    let bytes = s.as_bytes();
    let mut result: u32 = 3581;
    let mut i: usize = 0;
    while i < bytes.len()
        invariant
            i <= bytes.len(),
            bytes@ == s.spec_bytes(),
            result == djb2(s.spec_bytes(), i as int),
        decreases bytes.len() - i,
    {
        result = result.wrapping_mul(33) ^ (bytes[i] as u32);
        i += 1;
    }
    result
}

/// One splitmix64 scrambling step.
pub open spec fn splitmix_spec(seed: u64) -> u64 {
    let next = seed.wrapping_add(0x9e3779b97f4a7c15);
    let z1 = (next ^ (next >> 30)).wrapping_mul(0xbf58476d1ce4e5b9);
    let z2 = (z1 ^ (z1 >> 27)).wrapping_mul(0x94d049bb133111eb);
    z2 ^ (z2 >> 31)
}

/// Scramble a 64-bit value.
pub fn splitmix(seed: u64) -> (r: u64)
    ensures
        r == splitmix_spec(seed),
{
    let next = seed.wrapping_add(0x9e3779b97f4a7c15);
    let mut z = next;
    z = (z ^ (z >> 30)).wrapping_mul(0xbf58476d1ce4e5b9);
    z = (z ^ (z >> 27)).wrapping_mul(0x94d049bb133111eb);
    z ^ (z >> 31)
}

/// The bytes of the fixed seeding tag.
pub open spec fn fixed_tag_bytes() -> Seq<u8> {
    "FIXED".spec_bytes()
}

/// The entropy drawn for a string: the scrambled hash of the string,
/// mixed with the scrambled hash of the fixed tag and scrambled once
/// more.
pub open spec fn entropy_spec(s_bytes: Seq<u8>) -> u64 {
    splitmix_spec(splitmix_spec(djb2_full(fixed_tag_bytes()) as u64) ^ splitmix_spec(
        djb2_full(s_bytes) as u64,
    ))
}

/// Deterministic entropy for a string key.
pub fn entropy(string: &str) -> (r: u64)
    ensures
        r == entropy_spec(string.spec_bytes()),
{
    let seed = splitmix(hash("FIXED") as u64);
    splitmix(seed ^ splitmix(hash(string) as u64))
}

} // verus!
