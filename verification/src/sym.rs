//! The symmetric mixing primitive: AES-128 applied block by block.
//!
//! The combining function needs one keyed permutation of wide byte strings.
//! It is built from AES-128 applied independently to each 16-byte block
//! under one 16-byte key — no chaining, no IV, deliberately no integrity:
//! just the raw keyed bijection the ring chain is built on.

use vstd::prelude::*;
use vstd::arithmetic::div_mod::{lemma_small_mod, lemma_sub_mod_noop};
use aes::cipher::generic_array::GenericArray;
use aes::cipher::{BlockDecrypt, BlockEncrypt, NewBlockCipher};
use crate::RingError;

verus! {

/// What AES-128 encryption of one 16-byte block returns for a 16-byte key.
pub uninterp spec fn aes_enc_block(key: Seq<u8>, block: Seq<u8>) -> Seq<u8>;

/// What AES-128 decryption of one 16-byte block returns for a 16-byte key.
pub uninterp spec fn aes_dec_block(key: Seq<u8>, block: Seq<u8>) -> Seq<u8>;

/// Relies on `aes::Aes128` (`encrypt_block`): AES-128 is a deterministic
/// keyed permutation of 16-byte blocks, and `decrypt_block` is its inverse.
#[verifier::external_body]
fn aes128_encrypt_block(key: &Vec<u8>, block: &Vec<u8>) -> (r: Vec<u8>)
    requires
        key@.len() == 16,
        block@.len() == 16,
    ensures
        r@ == aes_enc_block(key@, block@),
        aes_dec_block(key@, r@) == block@,
        r@.len() == 16,
{
    let cipher = aes::Aes128::new(GenericArray::from_slice(key.as_slice()));
    let mut b = GenericArray::clone_from_slice(block.as_slice());
    cipher.encrypt_block(&mut b);
    b.as_slice().to_vec()
}

/// Relies on `aes::Aes128` (`decrypt_block`): the inverse permutation of
/// `encrypt_block` under the same 16-byte key.
#[verifier::external_body]
fn aes128_decrypt_block(key: &Vec<u8>, block: &Vec<u8>) -> (r: Vec<u8>)
    requires
        key@.len() == 16,
        block@.len() == 16,
    ensures
        r@ == aes_dec_block(key@, block@),
        aes_enc_block(key@, r@) == block@,
        r@.len() == 16,
{
    let cipher = aes::Aes128::new(GenericArray::from_slice(key.as_slice()));
    let mut b = GenericArray::clone_from_slice(block.as_slice());
    cipher.decrypt_block(&mut b);
    b.as_slice().to_vec()
}

/// Blockwise AES-128 encryption of a whole-block byte string.
pub open spec fn ecb_enc(k: Seq<u8>, d: Seq<u8>) -> Seq<u8>
    decreases d.len(),
{
    if d.len() < 16 {
        Seq::empty()
    } else {
        aes_enc_block(k, d.take(16)) + ecb_enc(k, d.skip(16))
    }
}

/// Blockwise AES-128 decryption of a whole-block byte string.
pub open spec fn ecb_dec(k: Seq<u8>, d: Seq<u8>) -> Seq<u8>
    decreases d.len(),
{
    if d.len() < 16 {
        Seq::empty()
    } else {
        aes_dec_block(k, d.take(16)) + ecb_dec(k, d.skip(16))
    }
}

/// Appending one block to the data appends its encryption to the output.
pub proof fn lemma_ecb_enc_snoc(k: Seq<u8>, d: Seq<u8>, b: Seq<u8>)
    requires
        d.len() % 16 == 0,
        b.len() == 16,
    ensures
        ecb_enc(k, d + b) == ecb_enc(k, d) + aes_enc_block(k, b),
    decreases d.len(),
{
    if d.len() == 0 {
        assert((d + b).len() == 16);
        assert((d + b).take(16) =~= b);
        assert((d + b).skip(16) =~= Seq::<u8>::empty());
        assert(ecb_enc(k, d + b) == aes_enc_block(k, (d + b).take(16)) + ecb_enc(
            k,
            (d + b).skip(16),
        ));
        assert(ecb_enc(k, (d + b).skip(16)) =~= Seq::<u8>::empty());
        assert(ecb_enc(k, d) =~= Seq::<u8>::empty());
        assert(ecb_enc(k, d + b) =~= ecb_enc(k, d) + aes_enc_block(k, b));
    } else {
        assert((d + b).take(16) =~= d.take(16));
        assert((d + b).skip(16) =~= d.skip(16) + b);
        lemma_ecb_enc_snoc(k, d.skip(16), b);
        assert(ecb_enc(k, d + b) =~= ecb_enc(k, d) + aes_enc_block(k, b));
    }
}

/// Appending one block to the data appends its decryption to the output.
pub proof fn lemma_ecb_dec_snoc(k: Seq<u8>, d: Seq<u8>, b: Seq<u8>)
    requires
        d.len() % 16 == 0,
        b.len() == 16,
    ensures
        ecb_dec(k, d + b) == ecb_dec(k, d) + aes_dec_block(k, b),
    decreases d.len(),
{
    if d.len() == 0 {
        assert((d + b).len() == 16);
        assert((d + b).take(16) =~= b);
        assert((d + b).skip(16) =~= Seq::<u8>::empty());
        assert(ecb_dec(k, d + b) == aes_dec_block(k, (d + b).take(16)) + ecb_dec(
            k,
            (d + b).skip(16),
        ));
        assert(ecb_dec(k, (d + b).skip(16)) =~= Seq::<u8>::empty());
        assert(ecb_dec(k, d) =~= Seq::<u8>::empty());
        assert(ecb_dec(k, d + b) =~= ecb_dec(k, d) + aes_dec_block(k, b));
    } else {
        assert((d + b).take(16) =~= d.take(16));
        assert((d + b).skip(16) =~= d.skip(16) + b);
        lemma_ecb_dec_snoc(k, d.skip(16), b);
        assert(ecb_dec(k, d + b) =~= ecb_dec(k, d) + aes_dec_block(k, b));
    }
}

/// Two multiples of the block size at most 16 apart are equal or a full
/// block apart.
proof fn lemma_block_gap(i: nat, n: nat)
    requires
        i <= n,
        i % 16 == 0,
        n % 16 == 0,
    ensures
        i == n || i + 16 <= n,
{
    if n < i + 16 {
        lemma_sub_mod_noop(n as int, i as int, 16);
        lemma_small_mod((n - i) as nat, 16);
    }
}

/// Encrypt a whole number of 16-byte blocks under a 16-byte key, each block
/// independently. Data of any other length is reported, never truncated or
/// padded. The output decrypts back to the input under the same key.
pub fn encrypt(key: &Vec<u8>, data: &Vec<u8>) -> (r: Result<Vec<u8>, RingError>)
    requires
        key@.len() == 16,
    ensures
        r matches Ok(c) ==> c@ == ecb_enc(key@, data@) && ecb_dec(key@, c@) == data@
            && c@.len() == data@.len(),
        r is Ok <==> data@.len() % 16 == 0,
        data@.len() % 16 != 0 ==> r == Err::<Vec<u8>, RingError>(RingError::BlockLengthMismatch),
{
    let n = data.len();
    if n % 16 != 0 {
        return Err(RingError::BlockLengthMismatch);
    }
    let mut out: Vec<u8> = Vec::new();
    let mut i: usize = 0;
    proof {
        assert(data@.take(0) =~= Seq::<u8>::empty());
        assert(out@ =~= ecb_enc(key@, data@.take(0)));
        assert(ecb_dec(key@, out@) =~= data@.take(0));
    }
    while i < n
        invariant
            i <= n,
            i % 16 == 0,
            n % 16 == 0,
            n == data@.len(),
            key@.len() == 16,
            out@.len() == i as nat,
            out@ == ecb_enc(key@, data@.take(i as int)),
            ecb_dec(key@, out@) == data@.take(i as int),
        decreases n - i,
    {
        proof {
            lemma_block_gap(i as nat, n as nat);
        }
        let mut block: Vec<u8> = Vec::new();
        let mut j: usize = 0;
        while j < 16
            invariant
                j <= 16,
                i + 16 <= n,
                n == data@.len(),
                block@.len() == j as nat,
                forall|t: int| 0 <= t < j ==> block@[t] == data@[i + t],
            decreases 16 - j,
        {
            block.push(data[i + j]);
            j += 1;
        }
        let mut eb = aes128_encrypt_block(key, &block);
        proof {
            assert(block@ =~= data@.subrange(i as int, i + 16));
            assert(data@.take(i + 16) =~= data@.take(i as int) + block@);
            lemma_ecb_enc_snoc(key@, data@.take(i as int), block@);
            lemma_ecb_dec_snoc(key@, out@, eb@);
        }
        out.append(&mut eb);
        i += 16;
    }
    proof {
        assert(data@.take(n as int) =~= data@);
    }
    Ok(out)
}

/// Decrypt a whole number of 16-byte blocks under a 16-byte key: the exact
/// structural inverse of `encrypt`. The output encrypts back to the input
/// under the same key.
pub fn decrypt(key: &Vec<u8>, data: &Vec<u8>) -> (r: Result<Vec<u8>, RingError>)
    requires
        key@.len() == 16,
    ensures
        r matches Ok(p) ==> p@ == ecb_dec(key@, data@) && ecb_enc(key@, p@) == data@
            && p@.len() == data@.len(),
        r is Ok <==> data@.len() % 16 == 0,
        data@.len() % 16 != 0 ==> r == Err::<Vec<u8>, RingError>(RingError::BlockLengthMismatch),
{
    let n = data.len();
    if n % 16 != 0 {
        return Err(RingError::BlockLengthMismatch);
    }
    let mut out: Vec<u8> = Vec::new();
    let mut i: usize = 0;
    proof {
        assert(data@.take(0) =~= Seq::<u8>::empty());
        assert(out@ =~= ecb_dec(key@, data@.take(0)));
        assert(ecb_enc(key@, out@) =~= data@.take(0));
    }
    while i < n
        invariant
            i <= n,
            i % 16 == 0,
            n % 16 == 0,
            n == data@.len(),
            key@.len() == 16,
            out@.len() == i as nat,
            out@ == ecb_dec(key@, data@.take(i as int)),
            ecb_enc(key@, out@) == data@.take(i as int),
        decreases n - i,
    {
        proof {
            lemma_block_gap(i as nat, n as nat);
        }
        let mut block: Vec<u8> = Vec::new();
        let mut j: usize = 0;
        while j < 16
            invariant
                j <= 16,
                i + 16 <= n,
                n == data@.len(),
                block@.len() == j as nat,
                forall|t: int| 0 <= t < j ==> block@[t] == data@[i + t],
            decreases 16 - j,
        {
            block.push(data[i + j]);
            j += 1;
        }
        let mut db = aes128_decrypt_block(key, &block);
        proof {
            assert(block@ =~= data@.subrange(i as int, i + 16));
            assert(data@.take(i + 16) =~= data@.take(i as int) + block@);
            lemma_ecb_dec_snoc(key@, data@.take(i as int), block@);
            lemma_ecb_enc_snoc(key@, out@, db@);
        }
        out.append(&mut db);
        i += 16;
    }
    proof {
        assert(data@.take(n as int) =~= data@);
    }
    Ok(out)
}

} // verus!
