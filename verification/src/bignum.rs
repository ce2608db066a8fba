//! Trusted bridge to the big-integer backend.
//!
//! Every arbitrary-precision operation the scheme needs — modular
//! exponentiation, quotient, remainder, product, sum — is one call into
//! `rsa::BigUint`, stated here over `be_val` of big-endian byte strings.
//! `from_bytes_be`/`to_bytes_be` are the codec at both ends; `to_bytes_be`
//! emits no leading zero byte, and a single 0 byte for the value zero.

use vstd::prelude::*;
use vstd::arithmetic::power::pow;
use crate::bytes::{be_val, min_be};

verus! {

/// `(b ^ e) % m` over the mathematical integers.
pub open spec fn pow_mod(b: nat, e: nat, m: nat) -> nat {
    (pow(b as int, e) % (m as int)) as nat
}

/// Relies on `rsa::BigUint::modpow` (num-bigint-dig): returns
/// `(base ^ exponent) % modulus`, reduced below the modulus. The backend
/// panics on a zero modulus and skips the final reduction when the modulus
/// is one, so a modulus of at least two is required.
#[verifier::external_body]
pub(crate) fn big_modpow(base: &Vec<u8>, exponent: &Vec<u8>, modulus: &Vec<u8>) -> (r: Vec<u8>)
    requires
        2 <= be_val(modulus@),
    ensures
        be_val(r@) == pow_mod(be_val(base@), be_val(exponent@), be_val(modulus@)),
        be_val(r@) < be_val(modulus@),
        min_be(r@),
{
    let b = rsa::BigUint::from_bytes_be(base.as_slice());
    let e = rsa::BigUint::from_bytes_be(exponent.as_slice());
    let m = rsa::BigUint::from_bytes_be(modulus.as_slice());
    b.modpow(&e, &m).to_bytes_be()
}

/// Relies on `rsa::BigUint`'s `Div` (num-bigint-dig): the Euclidean
/// quotient, which panics on a zero divisor.
#[verifier::external_body]
pub(crate) fn big_div(x: &Vec<u8>, n: &Vec<u8>) -> (r: Vec<u8>)
    requires
        1 <= be_val(n@),
    ensures
        be_val(r@) == be_val(x@) / be_val(n@),
        min_be(r@),
{
    let a = rsa::BigUint::from_bytes_be(x.as_slice());
    let b = rsa::BigUint::from_bytes_be(n.as_slice());
    (a / b).to_bytes_be()
}

/// Relies on `rsa::BigUint`'s `Rem` (num-bigint-dig): the Euclidean
/// remainder, which panics on a zero divisor.
#[verifier::external_body]
pub(crate) fn big_rem(x: &Vec<u8>, n: &Vec<u8>) -> (r: Vec<u8>)
    requires
        1 <= be_val(n@),
    ensures
        be_val(r@) == be_val(x@) % be_val(n@),
        min_be(r@),
{
    let a = rsa::BigUint::from_bytes_be(x.as_slice());
    let b = rsa::BigUint::from_bytes_be(n.as_slice());
    (a % b).to_bytes_be()
}

/// Relies on `rsa::BigUint`'s `Mul` (num-bigint-dig): the product.
#[verifier::external_body]
pub(crate) fn big_mul(a: &Vec<u8>, b: &Vec<u8>) -> (r: Vec<u8>)
    ensures
        be_val(r@) == be_val(a@) * be_val(b@),
        min_be(r@),
{
    let x = rsa::BigUint::from_bytes_be(a.as_slice());
    let y = rsa::BigUint::from_bytes_be(b.as_slice());
    (x * y).to_bytes_be()
}

/// Relies on `rsa::BigUint`'s `Add` (num-bigint-dig): the sum.
#[verifier::external_body]
pub(crate) fn big_add(a: &Vec<u8>, b: &Vec<u8>) -> (r: Vec<u8>)
    ensures
        be_val(r@) == be_val(a@) + be_val(b@),
        min_be(r@),
{
    let x = rsa::BigUint::from_bytes_be(a.as_slice());
    let y = rsa::BigUint::from_bytes_be(b.as_slice());
    (x + y).to_bytes_be()
}

} // verus!
