//! One-shot digests from the `sha3`, `sha2` and `blake2` crates.
use vstd::prelude::*;

use crate::primitives::Bytes32;
// The three digest crates share this trait.
use sha3::Digest;

verus! {

/// The Keccak-256 digest of `data`.
pub uninterp spec fn keccak256_of(data: Seq<u8>) -> Seq<u8>;

/// The SHA-256 digest of `data`.
pub uninterp spec fn sha256_of(data: Seq<u8>) -> Seq<u8>;

/// The BLAKE2s-256 digest of `data`.
pub uninterp spec fn blake2s256_of(data: Seq<u8>) -> Seq<u8>;

/// `<sha3::Keccak256 as Digest>::digest`: a function of the input bytes alone, 32 bytes
/// long.
#[verifier::external_body]
pub(crate) fn keccak256(data: &[u8]) -> (r: Bytes32)
    ensures
        r@ == keccak256_of(data@),
{
    Bytes32 { bytes: sha3::Keccak256::digest(data).into() }
}

/// `<sha2::Sha256 as Digest>::digest`: a function of the input bytes alone.
#[verifier::external_body]
pub(crate) fn sha256(data: &[u8]) -> (r: Bytes32)
    ensures
        r@ == sha256_of(data@),
{
    Bytes32 { bytes: sha2::Sha256::digest(data).into() }
}

/// `<blake2::Blake2s256 as Digest>::digest`: a function of the input bytes alone.
#[verifier::external_body]
pub(crate) fn blake2s256(data: &[u8]) -> (r: Bytes32)
    ensures
        r@ == blake2s256_of(data@),
{
    Bytes32 { bytes: blake2::Blake2s256::digest(data).into() }
}

} // verus!
