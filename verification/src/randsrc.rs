//! Trusted bridge to the operating system's randomness source.
//!
//! Signing draws one fresh value per non-signer position and one glue value.
//! Nothing can be promised of random bytes but their number; a failing
//! entropy source is reported, never papered over.

use vstd::prelude::*;
use rand::RngCore;
use crate::RingError;

verus! {

/// Relies on `rand::Error` as an opaque error type: it only passes through
/// the trusted boundary before being mapped to the library's own error.
#[verifier::external_type_specification]
#[verifier::external_body]
pub struct ExRandError(rand::Error);

/// Relies on `rand::rngs::OsRng` (`RngCore::try_fill_bytes`): fills the
/// buffer from the operating system's entropy source, or reports failure.
#[verifier::external_body]
fn os_random_bytes(len: usize) -> (r: Result<Vec<u8>, rand::Error>)
    ensures
        r matches Ok(v) ==> v@.len() == len as nat,
{
    let mut buf = vec![0u8; len];
    match rand::rngs::OsRng.try_fill_bytes(&mut buf) {
        Ok(()) => Ok(buf),
        Err(e) => Err(e),
    }
}

/// One bit-shift to the right, big-endian: every byte keeps its neighbour's
/// lowest bit on top, and the leading byte's top bit becomes zero.
fn shr1(v: &Vec<u8>) -> (r: Vec<u8>)
    ensures
        r@.len() == v@.len(),
        v@.len() >= 1 ==> r@[0] < 128,
{
    let mut r: Vec<u8> = Vec::new();
    let mut i: usize = 0;
    while i < v.len()
        invariant
            i <= v@.len(),
            r@.len() == i as nat,
            i >= 1 ==> r@[0] < 128,
        decreases v@.len() - i,
    {
        let carry: u8 = if i > 0 && v[i - 1] & 1 == 1 {
            128
        } else {
            0
        };
        let b = v[i];
        proof {
            assert(b >> 1 < 128u8) by (bit_vector);
        }
        r.push((b >> 1) | carry);
        proof {
            let c = carry;
            assert(c == 0 || c == 128 ==> ((b >> 1) | c) >= (b >> 1)) by (bit_vector);
            if i == 0 {
                assert(((b >> 1) | 0u8) == (b >> 1)) by (bit_vector);
            }
        }
        i += 1;
    }
    r
}

/// A fresh random value of `len` bytes whose leading bit is clear, drawn
/// from the operating system; a source failure is propagated.
pub(crate) fn random_below_half(len: usize) -> (r: Result<Vec<u8>, RingError>)
    ensures
        r matches Ok(v) ==> v@.len() == len as nat && (len >= 1 ==> v@[0] < 128),
        r matches Err(e) ==> e == RingError::RandomSourceFailure,
{
    match os_random_bytes(len) {
        Ok(buf) => Ok(shr1(&buf)),
        Err(_) => Err(RingError::RandomSourceFailure),
    }
}

} // verus!
