//! RSA ring signatures in the Rivest-Shamir-Tauman style.
//!
//! A member of a ring of RSA public keys signs a message so that the
//! signature proves some ring member produced it without revealing which.
//! The construction chains a keyed block cipher and XOR across all ring
//! positions into a loop anchored at a random glue value; the signer closes
//! the loop with one private-exponent inversion of the domain-extended RSA
//! permutation.

use vstd::prelude::*;

pub mod bignum;
pub mod bytes;
pub mod chain;
pub mod hashes;
pub mod randsrc;
pub mod ring;
pub mod sym;
pub mod trapdoor;

verus! {

/// Everything that a signing or verification call can report.
#[derive(Debug, Clone, Copy, PartialEq, Eq, Structural)]
pub enum RingError {
    /// The ring holds no public key at all.
    EmptyRing,
    /// Some ring modulus does not share the common width, or the width is
    /// not a positive multiple of the cipher block size with its top bit set.
    InvalidRingModulus,
    /// The signer's modulus appears in no ring entry.
    SignerKeyMissing,
    /// The signer's modulus appears in more than one ring entry.
    SignerKeyDuplicated,
    /// A signature's xi sequence does not have one entry per ring position.
    XiLengthMismatch,
    /// Data handed to the block cipher is not a whole number of blocks.
    BlockLengthMismatch,
    /// The operating system's randomness source failed.
    RandomSourceFailure,
}

} // verus!
