//! Signing and verifying ring signatures.
//!
//! A signature over a ring of RSA public keys is one xi value per position
//! and a glue value. Verification reconstructs each position's member value
//! through the forward trapdoor permutation, walks the combining chain from
//! the glue across all positions, and accepts exactly when the walk returns
//! to the glue. Signing closes that loop: it walks forward up to the
//! signer's position and backward down to it, isolates the one member value
//! that closes the loop, and inverts the trapdoor there with the private
//! exponent — the only step that needs it.

use vstd::prelude::*;
use vstd::arithmetic::div_mod::{
    lemma_fundamental_div_mod, lemma_fundamental_div_mod_converse, lemma_mod_bound,
};
use vstd::arithmetic::mul::{lemma_mul_inequality, lemma_mul_is_commutative};
use vstd::arithmetic::power::pow;
use crate::RingError;
use crate::bytes::{
    be_bytes, be_val, bytes_eq, lemma_be_bytes_of_val, lemma_be_val_bound,
    lemma_be_val_digit_lower, lemma_be_val_top_upper, lemma_min_be_len, lemma_pow256_increases,
    lemma_pow256_pos,
    lemma_pow256_unfold, lemma_xor_cancel, lemma_xor_mix, pad_to, pow256, to_width, xor_bytes,
    xor_fixed,
};
use crate::chain::{
    chain_seg, lemma_chain_seg_compose, lemma_chain_seg_frame, lemma_chain_seg_snoc,
};
use crate::hashes::{blake2_128_bytes, blake2_128_of, sha256_bytes, sha256_of};
use crate::randsrc::random_below_half;
use crate::sym::{decrypt, ecb_enc, encrypt};
use crate::trapdoor::{
    compute_trapdoor, invert_trapdoor, matching_key_pair, lemma_trapdoor_round_trip, trapdoor,
    PrivateKey, PublicKey,
};

verus! {

/// The view of each byte vector in a sequence of them.
pub open spec fn views(xs: Seq<Vec<u8>>) -> Seq<Seq<u8>> {
    Seq::new(xs.len(), |i: int| xs[i]@)
}

/// The 16-byte message key: SHA-256 of the message, compressed by
/// BLAKE2b-128.
pub open spec fn derived_key(msg: Seq<u8>) -> Seq<u8> {
    blake2_128_of(sha256_of(msg))
}

/// Key derivation: map a message deterministically to the 16-byte symmetric
/// key that drives the combining chain.
pub fn hash(message: &Vec<u8>) -> (r: Vec<u8>)
    ensures
        r@ == derived_key(message@),
        r@.len() == 16,
{
    let digest = sha256_bytes(message);
    blake2_128_bytes(&digest)
}

/// A fresh 256-byte random value shifted right by one bit, so its leading
/// bit is clear; a randomness failure is propagated, never substituted.
#[allow(non_snake_case)]
pub fn rand256Bytes() -> (r: Result<Vec<u8>, RingError>)
    ensures
        r matches Ok(v) ==> v@.len() == 256 && v@[0] < 128,
        r matches Err(e) ==> e == RingError::RandomSourceFailure,
{
    random_below_half(256)
}

/// A well-formed ring: at least one key, every modulus of one common byte
/// width with its top bit set, the width a positive multiple of the cipher
/// block size and below the machine's address bound.
pub open spec fn ring_wf(ring: Seq<PublicKey>) -> bool {
    &&& ring.len() >= 1
    &&& ring[0].n@.len() >= 16
    &&& ring[0].n@.len() % 16 == 0
    &&& ring[0].n@.len() < usize::MAX
    &&& forall|j: int| 0 <= j < ring.len() ==> (#[trigger] ring[j].n@).len() == ring[0].n@.len()
    &&& forall|j: int| 0 <= j < ring.len() ==> (#[trigger] ring[j].n@)[0] >= 128
}

/// The common width of all chain values of a ring, in bytes.
pub open spec fn chain_width(ring: Seq<PublicKey>) -> nat {
    ring[0].n@.len()
}

/// The member value a verifier reconstructs at one position: the forward
/// trapdoor permutation of the position's xi value under its public key.
pub open spec fn member_y(xi: Seq<u8>, key: PublicKey) -> nat {
    trapdoor(be_val(xi), be_val(key.n@), be_val(key.e@))
}

/// Acceptance of a signature: the glue value and every reconstructed member
/// value fit the chain width, and the combining walk from the glue across
/// all positions returns exactly to the glue.
///
/// This predicate ties signing and verification together: `sign` ensures it
/// of every signature it produces, and `verify` returns exactly its value,
/// so a signature fresh from `sign` always verifies, for any message, ring
/// and signer position.
pub open spec fn sig_accepted(
    ring: Seq<PublicKey>,
    xi: Seq<Seq<u8>>,
    glue: Seq<u8>,
    msg: Seq<u8>,
) -> bool {
    let cb = chain_width(ring);
    let g = be_bytes(be_val(glue), cb);
    let ys = Seq::new(ring.len(), |j: int| be_bytes(member_y(xi[j], ring[j]), cb));
    &&& be_val(glue) < pow256(cb)
    &&& (forall|j: int| 0 <= j < ring.len() ==> member_y(#[trigger] xi[j], ring[j]) < pow256(cb))
    &&& chain_seg(derived_key(msg), g, ys, 0, ring.len() as int) == g
}

/// A well-formed ring's moduli lie between half the chain range and the
/// full chain range, and in particular support the big-integer calls.
proof fn lemma_ring_modulus_bounds(ring: Seq<PublicKey>, j: int)
    requires
        ring_wf(ring),
        0 <= j < ring.len(),
    ensures
        128 * pow256((chain_width(ring) - 1) as nat) <= be_val(ring[j].n@),
        be_val(ring[j].n@) < pow256(chain_width(ring)),
        2 <= be_val(ring[j].n@),
{
    let s = ring[j].n@;
    let p = pow256((s.len() - 1) as nat) as int;
    lemma_be_val_digit_lower(s, 0);
    lemma_mul_inequality(128, s[0] as int, p);
    lemma_be_val_bound(s);
    lemma_pow256_pos((s.len() - 1) as nat);
}

/// Decide well-formedness of a non-empty ring's moduli.
fn ring_ok(list: &Vec<PublicKey>) -> (r: bool)
    requires
        list@.len() >= 1,
    ensures
        r == ring_wf(list@),
{
    let cb = list[0].n.len();
    if cb < 16 || cb % 16 != 0 || cb == usize::MAX {
        return false;
    }
    let mut j: usize = 0;
    while j < list.len()
        invariant
            j <= list@.len(),
            list@.len() >= 1,
            cb == list@[0].n@.len(),
            16 <= cb < usize::MAX,
            cb % 16 == 0,
            forall|t: int|
                0 <= t < j ==> (#[trigger] list@[t].n@).len() == cb && list@[t].n@[0] >= 128,
        decreases list@.len() - j,
    {
        let entry = &list[j];
        if entry.n.len() != cb {
            return false;
        }
        if entry.n[0] < 128 {
            return false;
        }
        j += 1;
    }
    true
}

/// Verify a ring signature: reconstruct every member value from public
/// material alone, walk the chain from the glue, and compare. A malformed
/// ring or a wrong xi count is reported as an error; a signature that
/// merely fails to close the loop yields `Ok(false)`.
#[verifier::loop_isolation(false)]
pub fn verify(
    list: &Vec<PublicKey>,
    xi_arr: &Vec<Vec<u8>>,
    glue: &Vec<u8>,
    message: &Vec<u8>,
) -> (r: Result<bool, RingError>)
    ensures
        r is Ok <==> (list@.len() >= 1 && ring_wf(list@) && xi_arr@.len() == list@.len()),
        list@.len() == 0 ==> r == Err::<bool, RingError>(RingError::EmptyRing),
        list@.len() >= 1 && !ring_wf(list@) ==> r == Err::<bool, RingError>(
            RingError::InvalidRingModulus,
        ),
        ring_wf(list@) && xi_arr@.len() != list@.len() ==> r == Err::<bool, RingError>(
            RingError::XiLengthMismatch,
        ),
        r matches Ok(b) ==> b == sig_accepted(list@, views(xi_arr@), glue@, message@),
{
    if list.len() == 0 {
        return Err(RingError::EmptyRing);
    }
    if !ring_ok(list) {
        return Err(RingError::InvalidRingModulus);
    }
    if xi_arr.len() != list.len() {
        return Err(RingError::XiLengthMismatch);
    }
    let nlen = list.len();
    let cb = list[0].n.len();
    let k = hash(message);
    let gc = match to_width(glue, cb) {
        Some(g) => g,
        None => {
            return Ok(false);
        },
    };
    proof {
        lemma_be_bytes_of_val(gc@);
    }
    let mut ys: Vec<Vec<u8>> = Vec::new();
    let mut idx: usize = 0;
    while idx < nlen
        invariant
            idx <= nlen,
            ys@.len() == idx as nat,
            forall|t: int|
                0 <= t < idx ==> member_y(views(xi_arr@)[t], list@[t]) < pow256(cb as nat),
            forall|t: int|
                0 <= t < idx ==> (#[trigger] ys@[t])@ == be_bytes(
                    member_y(views(xi_arr@)[t], list@[t]),
                    cb as nat,
                ),
            forall|t: int| 0 <= t < idx ==> (#[trigger] ys@[t])@.len() == cb as nat,
        decreases nlen - idx,
    {
        proof {
            lemma_ring_modulus_bounds(list@, idx as int);
        }
        let y = compute_trapdoor(&xi_arr[idx], &list[idx]);
        proof {
            assert(views(xi_arr@)[idx as int] == xi_arr@[idx as int]@);
            assert(member_y(views(xi_arr@)[idx as int], list@[idx as int]) == be_val(y@));
        }
        if y.len() > cb {
            proof {
                if be_val(y@) < pow256(cb as nat) {
                    lemma_min_be_len(y@, cb as nat);
                }
            }
            return Ok(false);
        }
        proof {
            lemma_be_val_bound(y@);
            lemma_pow256_increases(y@.len(), cb as nat);
        }
        let yp = pad_to(&y, cb);
        ys.push(yp);
        idx += 1;
    }
    let ghost ysv = Seq::new(list@.len(), |j: int| be_bytes(
        member_y(views(xi_arr@)[j], list@[j]),
        cb as nat,
    ));
    proof {
        assert(views(ys@) =~= ysv);
        assert(chain_seg(k@, gc@, ysv, 0, 0) == gc@);
    }
    let mut acc = pad_to(&gc, cb);
    let mut pos: usize = 0;
    while pos < nlen
        invariant
            pos <= nlen,
            acc@.len() == cb as nat,
            acc@ == chain_seg(k@, gc@, ysv, 0, pos as int),
        decreases nlen - pos,
    {
        let x = xor_fixed(&acc, &ys[pos]);
        let c = encrypt(&k, &x).unwrap();
        proof {
            lemma_chain_seg_snoc(k@, gc@, ysv, 0, pos as int);
        }
        acc = c;
        pos += 1;
    }
    let ok = bytes_eq(&acc, &gc);
    Ok(ok)
}

/// How often a modulus occurs among a ring's public keys.
pub open spec fn match_count(list: Seq<PublicKey>, n: Seq<u8>) -> nat
    decreases list.len(),
{
    if list.len() == 0 {
        0
    } else {
        match_count(list.drop_last(), n) + if list.last().n@ == n {
            1nat
        } else {
            0nat
        }
    }
}

/// A produced ring signature: one xi value per ring position and the glue
/// value anchoring the loop.
pub struct Signature {
    pub xi: Vec<Vec<u8>>,
    pub glue: Vec<u8>,
}

/// A constructed ring signer: the ordered ring, the signer's private key,
/// and the signer's position, all fixed at construction.
#[allow(non_camel_case_types)]
pub struct RSA_Ring_Signer {
    list: Vec<PublicKey>,
    signer: PrivateKey,
    pos: usize,
}

impl RSA_Ring_Signer {
    /// The ring as constructed.
    pub closed spec fn ring(self) -> Seq<PublicKey> {
        self.list@
    }

    /// The signer's position in the ring.
    pub closed spec fn signer_pos(self) -> int {
        self.pos as int
    }

    /// Well-formedness, established by `init`: the ring is well formed, the
    /// signer's modulus stands at exactly one position, and the private
    /// exponent matches the public exponent there.
    pub closed spec fn wf(self) -> bool {
        &&& ring_wf(self.list@)
        &&& 0 <= self.pos < self.list@.len()
        &&& self.list@[self.pos as int].n@ == self.signer.n@
        &&& matching_key_pair(
            be_val(self.signer.n@),
            be_val(self.list@[self.pos as int].e@),
            be_val(self.signer.d@),
        )
        &&& forall|j: int|
            0 <= j < self.list@.len() && j != self.pos ==> (#[trigger] self.list@[j].n@)
                != self.signer.n@
    }

    /// Construct a signer over an ordered ring of public keys. The signer's
    /// modulus must occur at exactly one ring position; its private
    /// exponent is trusted to match the public exponent there, which no
    /// runtime check can decide.
    #[verifier::loop_isolation(false)]
    pub fn init(list: Vec<PublicKey>, signer: PrivateKey) -> (r: Result<
        RSA_Ring_Signer,
        RingError,
    >)
        requires
            forall|j: int|
                0 <= j < list@.len() && (#[trigger] list@[j].n@) == signer.n@
                    ==> matching_key_pair(
                    be_val(signer.n@),
                    be_val(list@[j].e@),
                    be_val(signer.d@),
                ),
        ensures
            r is Ok <==> (list@.len() >= 1 && ring_wf(list@) && match_count(list@, signer.n@)
                == 1),
            r matches Ok(rs) ==> rs.wf() && rs.ring() == list@
                && rs.ring()[rs.signer_pos()].n@ == signer.n@,
            list@.len() == 0 ==> r == Err::<RSA_Ring_Signer, RingError>(RingError::EmptyRing),
            list@.len() >= 1 && !ring_wf(list@) ==> r == Err::<RSA_Ring_Signer, RingError>(
                RingError::InvalidRingModulus,
            ),
            ring_wf(list@) && match_count(list@, signer.n@) == 0 ==> r == Err::<
                RSA_Ring_Signer,
                RingError,
            >(RingError::SignerKeyMissing),
            ring_wf(list@) && match_count(list@, signer.n@) >= 2 ==> r == Err::<
                RSA_Ring_Signer,
                RingError,
            >(RingError::SignerKeyDuplicated),
    {
        if list.len() == 0 {
            return Err(RingError::EmptyRing);
        }
        if !ring_ok(&list) {
            return Err(RingError::InvalidRingModulus);
        }
        let mut count: usize = 0;
        let mut found: usize = 0;
        let mut i: usize = 0;
        while i < list.len()
            invariant
                i <= list@.len(),
                count as nat == match_count(list@.take(i as int), signer.n@),
                count <= i,
                count >= 1 ==> found < i && list@[found as int].n@ == signer.n@,
                count == 0 ==> forall|j: int|
                    0 <= j < i ==> (#[trigger] list@[j].n@) != signer.n@,
                count == 1 ==> forall|j: int|
                    0 <= j < i && j != found ==> (#[trigger] list@[j].n@) != signer.n@,
            decreases list@.len() - i,
        {
            proof {
                assert(list@.take(i + 1).drop_last() =~= list@.take(i as int));
                assert(list@.take(i + 1).last() == list@[i as int]);
            }
            let entry = &list[i];
            if bytes_eq(&entry.n, &signer.n) {
                count += 1;
                found = i;
            }
            i += 1;
        }
        proof {
            assert(list@.take(list@.len() as int) =~= list@);
        }
        if count == 0 {
            return Err(RingError::SignerKeyMissing);
        }
        if count >= 2 {
            return Err(RingError::SignerKeyDuplicated);
        }
        Ok(RSA_Ring_Signer { list, signer, pos: found })
    }

    /// Sign a message: fresh randomness at every position but the signer's,
    /// a forward walk up to the signer's position and a backward walk down
    /// to it, and one private-exponent trapdoor inversion that closes the
    /// loop — the sole use of the private key. The produced signature is
    /// exactly what `verify` accepts for this ring and message.
    #[verifier::loop_isolation(false)]
    pub fn sign(&self, message: &Vec<u8>) -> (r: Result<Signature, RingError>)
        requires
            self.wf(),
        ensures
            r matches Ok(sig) ==> {
                &&& sig.xi@.len() == self.ring().len()
                &&& (forall|j: int|
                    0 <= j < sig.xi@.len() ==> (#[trigger] sig.xi@[j])@.len() == chain_width(
                        self.ring(),
                    ) + 1)
                &&& sig.glue@.len() == chain_width(self.ring())
                &&& sig_accepted(self.ring(), views(sig.xi@), sig.glue@, message@)
            },
            r matches Err(e) ==> e == RingError::RandomSourceFailure,
    {
        let nlen = self.list.len();
        let spos = self.pos;
        let cb = self.list[0].n.len();
        let k = hash(message);
        let glue = match random_below_half(cb) {
            Ok(v) => v,
            Err(e) => {
                return Err(e);
            },
        };
        proof {
            lemma_be_val_bound(glue@);
            lemma_be_bytes_of_val(glue@);
        }
        let mut xi_arr: Vec<Vec<u8>> = Vec::new();
        let mut yi_arr: Vec<Vec<u8>> = Vec::new();
        let mut j: usize = 0;
        while j < nlen
            invariant
                j <= nlen,
                xi_arr@.len() == j as nat,
                yi_arr@.len() == j as nat,
                forall|t: int|
                    0 <= t < j && t != spos ==> (#[trigger] xi_arr@[t])@.len() == cb + 1,
                forall|t: int|
                    0 <= t < j && t != spos ==> member_y(
                        (#[trigger] xi_arr@[t])@,
                        self.list@[t],
                    ) < pow256(cb as nat),
                forall|t: int|
                    0 <= t < j && t != spos ==> (#[trigger] yi_arr@[t])@ == be_bytes(
                        member_y(xi_arr@[t]@, self.list@[t]),
                        cb as nat,
                    ),
                forall|t: int|
                    0 <= t < j && t != spos ==> (#[trigger] yi_arr@[t])@.len() == cb as nat,
            decreases nlen - j,
        {
            if j != spos {
                let x = match random_below_half(cb) {
                    Ok(v) => v,
                    Err(e) => {
                        return Err(e);
                    },
                };
                proof {
                    lemma_ring_modulus_bounds(self.list@, j as int);
                    lemma_be_val_top_upper(x@);
                    let p = pow256((cb - 1) as nat) as int;
                    lemma_mul_inequality(x@[0] as int + 1, 128, p);
                    lemma_fundamental_div_mod_converse(
                        be_val(x@) as int,
                        be_val(self.list@[j as int].n@) as int,
                        0,
                        be_val(x@) as int,
                    );
                }
                let y = compute_trapdoor(&x, &self.list[j]);
                proof {
                    assert(be_val(x@) / be_val(self.list@[j as int].n@) == 0);
                    lemma_mod_bound(
                        pow(be_val(x@) as int, be_val(self.list@[j as int].e@)),
                        be_val(self.list@[j as int].n@) as int,
                    );
                    lemma_min_be_len(y@, cb as nat);
                }
                let yp = pad_to(&y, cb);
                let xp = pad_to(&x, cb + 1);
                xi_arr.push(xp);
                yi_arr.push(yp);
            } else {
                xi_arr.push(Vec::new());
                yi_arr.push(Vec::new());
            }
            j += 1;
        }
        let ghost ys_pre = views(yi_arr@);
        let mut e_acc = pad_to(&glue, cb);
        let mut t: usize = 0;
        while t < spos
            invariant
                t <= spos,
                e_acc@.len() == cb as nat,
                e_acc@ == chain_seg(k@, glue@, ys_pre, 0, t as int),
            decreases spos - t,
        {
            let x = xor_fixed(&e_acc, &yi_arr[t]);
            let c = encrypt(&k, &x).unwrap();
            proof {
                lemma_chain_seg_snoc(k@, glue@, ys_pre, 0, t as int);
                assert(ys_pre[t as int] == yi_arr@[t as int]@);
            }
            e_acc = c;
            t += 1;
        }
        let mut v_acc = pad_to(&glue, cb);
        let mut u: usize = nlen;
        while u > spos + 1
            invariant
                spos < u <= nlen,
                v_acc@.len() == cb as nat,
                chain_seg(k@, v_acc@, ys_pre, u as int, nlen as int) == glue@,
            decreases u,
        {
            u -= 1;
            let d = decrypt(&k, &v_acc).unwrap();
            let nv = xor_fixed(&d, &yi_arr[u]);
            proof {
                assert(ys_pre[u as int] == yi_arr@[u as int]@);
                lemma_xor_cancel(d@, yi_arr@[u as int]@);
                assert(xor_bytes(nv@, ys_pre[u as int]) == d@);
                assert(chain_seg(k@, nv@, ys_pre, u as int, nlen as int) == chain_seg(
                    k@,
                    ecb_enc(k@, xor_bytes(nv@, ys_pre[u as int])),
                    ys_pre,
                    u + 1,
                    nlen as int,
                ));
            }
            v_acc = nv;
        }
        let dv = decrypt(&k, &v_acc).unwrap();
        let ys_s = xor_fixed(&dv, &e_acc);
        proof {
            lemma_xor_mix(e_acc@, dv@);
            lemma_be_val_bound(ys_s@);
            lemma_be_bytes_of_val(ys_s@);
            lemma_ring_modulus_bounds(self.list@, spos as int);
        }
        let xs = invert_trapdoor(&ys_s, &self.signer);
        proof {
            let nv_ = be_val(self.signer.n@);
            let ysv_ = be_val(ys_s@);
            let q = ysv_ / nv_;
            lemma_fundamental_div_mod(ysv_ as int, nv_ as int);
            lemma_mod_bound(ysv_ as int, nv_ as int);
            assert(q <= 1) by {
                if q >= 2 {
                    lemma_mul_inequality(2, q as int, nv_ as int);
                    lemma_mul_is_commutative(nv_ as int, q as int);
                    lemma_pow256_unfold(cb as nat);
                }
            }
            lemma_mod_bound(pow((ysv_ % nv_) as int, be_val(self.signer.d@)), nv_ as int);
            assert(be_val(xs@) < pow256((cb + 1) as nat)) by {
                lemma_mul_inequality(q as int, 1, nv_ as int);
                lemma_pow256_unfold((cb + 1) as nat);
                lemma_pow256_pos(cb as nat);
            }
            lemma_min_be_len(xs@, (cb + 1) as nat);
            lemma_trapdoor_round_trip(
                ysv_,
                nv_,
                be_val(self.list@[spos as int].e@),
                be_val(self.signer.d@),
            );
        }
        let xsp = pad_to(&xs, cb + 1);
        xi_arr.set(spos, xsp);
        yi_arr.set(spos, ys_s);
        proof {
            let ys_fin = views(yi_arr@);
            let ni = nlen as int;
            let si = spos as int;
            lemma_chain_seg_frame(k@, glue@, ys_pre, ys_fin, 0, si);
            lemma_chain_seg_snoc(k@, glue@, ys_fin, 0, si);
            assert(ys_fin[si] == ys_s@);
            assert(xor_bytes(e_acc@, ys_s@) == dv@);
            lemma_chain_seg_frame(k@, v_acc@, ys_pre, ys_fin, si + 1, ni);
            lemma_chain_seg_compose(k@, glue@, ys_fin, 0, si + 1, ni);
            let xiv = views(xi_arr@);
            let ys_spec = Seq::new(
                self.list@.len(),
                |jj: int| be_bytes(member_y(xiv[jj], self.list@[jj]), cb as nat),
            );
            assert(ys_fin =~= ys_spec);
            assert(be_bytes(be_val(glue@), cb as nat) == glue@);
        }
        Ok(Signature { xi: xi_arr, glue })
    }
}

} // verus!
