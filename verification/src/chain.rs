//! The combining function: a keyed chain across ring positions.
//!
//! Starting from an accumulator, each position XORs its member value in and
//! encrypts under the message key. `chain_seg` walks the positions of a
//! half-open range in ring order; a signature is valid exactly when the walk
//! over every position returns to its starting glue value.

use vstd::prelude::*;
use crate::bytes::xor_bytes;
use crate::sym::ecb_enc;

verus! {

/// The accumulator after walking positions `lo .. hi` in ring order,
/// starting from `acc`: each step XORs the position's member value in and
/// encrypts under `k`.
pub open spec fn chain_seg(k: Seq<u8>, acc: Seq<u8>, ys: Seq<Seq<u8>>, lo: int, hi: int) -> Seq<u8>
    decreases hi - lo,
{
    if lo >= hi {
        acc
    } else {
        chain_seg(k, ecb_enc(k, xor_bytes(acc, ys[lo])), ys, lo + 1, hi)
    }
}

/// Walking one more position applies one more combining step at the end.
pub proof fn lemma_chain_seg_snoc(k: Seq<u8>, acc: Seq<u8>, ys: Seq<Seq<u8>>, lo: int, hi: int)
    requires
        lo <= hi,
    ensures
        chain_seg(k, acc, ys, lo, hi + 1) == ecb_enc(
            k,
            xor_bytes(chain_seg(k, acc, ys, lo, hi), ys[hi]),
        ),
    decreases hi - lo,
{
    if lo < hi {
        lemma_chain_seg_snoc(k, ecb_enc(k, xor_bytes(acc, ys[lo])), ys, lo + 1, hi);
    } else {
        let step = ecb_enc(k, xor_bytes(acc, ys[hi]));
        assert(chain_seg(k, step, ys, hi + 1, hi + 1) == step);
        assert(chain_seg(k, acc, ys, hi, hi) == acc);
    }
}

/// The walk reads only the positions of its range.
pub proof fn lemma_chain_seg_frame(
    k: Seq<u8>,
    acc: Seq<u8>,
    ys1: Seq<Seq<u8>>,
    ys2: Seq<Seq<u8>>,
    lo: int,
    hi: int,
)
    requires
        forall|j: int| lo <= j < hi ==> ys1[j] == ys2[j],
    ensures
        chain_seg(k, acc, ys1, lo, hi) == chain_seg(k, acc, ys2, lo, hi),
    decreases hi - lo,
{
    if lo < hi {
        lemma_chain_seg_frame(k, ecb_enc(k, xor_bytes(acc, ys1[lo])), ys1, ys2, lo + 1, hi);
    }
}

/// A walk splits at any midpoint: walk to the midpoint, then walk on from
/// what that produced.
pub proof fn lemma_chain_seg_compose(
    k: Seq<u8>,
    acc: Seq<u8>,
    ys: Seq<Seq<u8>>,
    lo: int,
    mid: int,
    hi: int,
)
    requires
        lo <= mid <= hi,
    ensures
        chain_seg(k, acc, ys, lo, hi) == chain_seg(k, chain_seg(k, acc, ys, lo, mid), ys, mid, hi),
    decreases mid - lo,
{
    if lo < mid {
        lemma_chain_seg_compose(k, ecb_enc(k, xor_bytes(acc, ys[lo])), ys, lo + 1, mid, hi);
    }
}

} // verus!
