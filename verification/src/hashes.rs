//! Trusted bridge to the two hash primitives of key derivation.
//!
//! A message key is SHA-256 of the message compressed to 128 bits by
//! BLAKE2b-128 — two distinct hash families, so a weakness specific to one
//! does not reach the derived key alone. Both digests are functions of the
//! input bytes alone, so each gets a name and nothing more.

use vstd::prelude::*;
use sha2::Digest;

verus! {

/// What SHA-256 returns: a 32-byte digest, a function of the input alone.
pub uninterp spec fn sha256_of(data: Seq<u8>) -> Seq<u8>;

/// What BLAKE2b-128 returns: a 16-byte digest, a function of the input alone.
pub uninterp spec fn blake2_128_of(data: Seq<u8>) -> Seq<u8>;

/// Relies on `sha2::Sha256` (`Digest::digest`): the SHA-256 digest of the
/// input, 32 bytes.
#[verifier::external_body]
pub(crate) fn sha256_bytes(data: &Vec<u8>) -> (r: Vec<u8>)
    ensures
        r@ == sha256_of(data@),
        r@.len() == 32,
{
    sha2::Sha256::digest(data.as_slice()).to_vec()
}

/// Relies on `sp_core::hashing::blake2_128`: the BLAKE2b digest of the
/// input at a 16-byte output length.
#[verifier::external_body]
pub(crate) fn blake2_128_bytes(data: &Vec<u8>) -> (r: Vec<u8>)
    ensures
        r@ == blake2_128_of(data@),
        r@.len() == 16,
{
    sp_core::hashing::blake2_128(data.as_slice()).to_vec()
}

} // verus!
