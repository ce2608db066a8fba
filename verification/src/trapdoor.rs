//! The domain-extended RSA trapdoor permutation.
//!
//! RSA's `r ^ exp mod n` is a bijection only on `[0, n)`. To permute a wider
//! domain, split the input as `q*n + r` with `r < n`, permute the low digit
//! `r`, and keep the quotient `q`: the result is again a bijection, forward
//! with the public exponent and backward with the private one.

use vstd::prelude::*;
use vstd::arithmetic::div_mod::{
    lemma_fundamental_div_mod, lemma_fundamental_div_mod_converse, lemma_mod_bound,
};
use vstd::arithmetic::power::pow;
use crate::bytes::{be_val, min_be};
use crate::bignum::{big_add, big_div, big_modpow, big_mul, big_rem, pow_mod};

verus! {

/// An RSA public key: modulus and public exponent, big-endian bytes.
#[derive(Clone)]
pub struct PublicKey {
    pub n: Vec<u8>,
    pub e: Vec<u8>,
}

/// An RSA private key: modulus and private exponent, big-endian bytes.
#[derive(Clone)]
pub struct PrivateKey {
    pub n: Vec<u8>,
    pub d: Vec<u8>,
}

/// The domain-extended RSA permutation: split `x` as `q*n + r` with `r < n`,
/// replace `r` by `r ^ exp mod n`, keep `q`.
pub open spec fn trapdoor(x: nat, n: nat, exp: nat) -> nat {
    (x / n) * n + pow_mod(x % n, exp, n)
}

/// Exponents that undo one another over modulus `n`: the defining property
/// of a matching RSA key pair, which key generation is trusted to supply.
pub open spec fn matching_key_pair(n: nat, e: nat, d: nat) -> bool {
    &&& 2 <= n
    &&& forall|r: nat| r < n ==> pow_mod(#[trigger] pow_mod(r, e, n), d, n) == r
    &&& forall|r: nat| r < n ==> pow_mod(#[trigger] pow_mod(r, d, n), e, n) == r
}

/// The forward direction, from public material only.
pub fn compute_trapdoor(x: &Vec<u8>, key: &PublicKey) -> (r: Vec<u8>)
    requires
        2 <= be_val(key.n@),
    ensures
        be_val(r@) == trapdoor(be_val(x@), be_val(key.n@), be_val(key.e@)),
        min_be(r@),
{
    let q = big_div(x, &key.n);
    let rem = big_rem(x, &key.n);
    let t = big_modpow(&rem, &key.e, &key.n);
    let qn = big_mul(&q, &key.n);
    big_add(&qn, &t)
}

/// The backward direction: the same decomposition, inverted with the
/// private exponent — the one step only the key's owner can perform.
pub fn invert_trapdoor(y: &Vec<u8>, key: &PrivateKey) -> (r: Vec<u8>)
    requires
        2 <= be_val(key.n@),
    ensures
        be_val(r@) == trapdoor(be_val(y@), be_val(key.n@), be_val(key.d@)),
        min_be(r@),
{
    let q = big_div(y, &key.n);
    let rem = big_rem(y, &key.n);
    let t = big_modpow(&rem, &key.d, &key.n);
    let qn = big_mul(&q, &key.n);
    big_add(&qn, &t)
}

proof fn lemma_trapdoor_chain(x: nat, n: nat, e1: nat, e2: nat)
    requires
        2 <= n,
        forall|r: nat| r < n ==> pow_mod(#[trigger] pow_mod(r, e1, n), e2, n) == r,
    ensures
        trapdoor(trapdoor(x, n, e1), n, e2) == x,
{
    let q = x / n;
    let r0 = x % n;
    lemma_mod_bound(x as int, n as int);
    let t = pow_mod(r0, e1, n);
    assert(t < n) by {
        lemma_mod_bound(pow(r0 as int, e1), n as int);
    }
    let y = trapdoor(x, n, e1);
    assert(y == q * n + t);
    lemma_fundamental_div_mod_converse(y as int, n as int, q as int, t as int);
    assert(y / n == q);
    assert(y % n == t);
    assert(pow_mod(t, e2, n) == r0);
    lemma_fundamental_div_mod(x as int, n as int);
    assert(trapdoor(y, n, e2) == q * n + r0);
}

/// Applying the permutation with one exponent of a matching key pair and
/// then the other returns the argument, in either order and for every
/// input of the extended domain.
pub proof fn lemma_trapdoor_round_trip(x: nat, n: nat, e: nat, d: nat)
    requires
        matching_key_pair(n, e, d),
    ensures
        trapdoor(trapdoor(x, n, e), n, d) == x,
        trapdoor(trapdoor(x, n, d), n, e) == x,
{
    lemma_trapdoor_chain(x, n, e, d);
    lemma_trapdoor_chain(x, n, d, e);
}

} // verus!
