//! Big-endian byte strings and the natural numbers they denote.
//!
//! Every large integer in the scheme travels as a byte string. The spec
//! functions here fix what such a string is worth (`be_val`), what the
//! canonical fixed-width encoding of a value is (`be_bytes`), and what the
//! pointwise XOR of two strings is; the executable functions re-encode and
//! compare strings against those definitions.

use vstd::prelude::*;
use vstd::arithmetic::power::{pow, lemma_pow0, lemma_pow_positive, lemma_pow_increases};
use vstd::arithmetic::div_mod::lemma_fundamental_div_mod_converse;
use vstd::arithmetic::mul::{lemma_mul_basics, lemma_mul_inequality, lemma_mul_is_associative};

verus! {

/// The natural number that a big-endian byte string denotes.
pub open spec fn be_val(s: Seq<u8>) -> nat
    decreases s.len(),
{
    if s.len() == 0 {
        0
    } else {
        be_val(s.drop_last()) * 256 + s.last() as nat
    }
}

/// 256 raised to `w`: one more than the largest value of a `w`-byte string.
pub open spec fn pow256(w: nat) -> nat {
    pow(256, w) as nat
}

/// The canonical `w`-byte big-endian encoding of a value below `pow256(w)`.
pub open spec fn be_bytes(v: nat, w: nat) -> Seq<u8>
    decreases w,
{
    if w == 0 {
        Seq::empty()
    } else {
        be_bytes(v / 256, (w - 1) as nat).push((v % 256) as u8)
    }
}

/// A byte string as the big-integer backend emits it: no leading zero byte,
/// except the single byte 0 standing for the value zero.
pub open spec fn min_be(s: Seq<u8>) -> bool {
    s.len() >= 1 && (s.len() == 1 || s[0] != 0)
}

/// Pointwise XOR of two equal-length byte strings.
pub open spec fn xor_bytes(a: Seq<u8>, b: Seq<u8>) -> Seq<u8> {
    Seq::new(a.len(), |i: int| a[i] ^ b[i])
}

pub proof fn lemma_pow256_pos(w: nat)
    ensures
        pow256(w) >= 1,
{
    lemma_pow_positive(256, w);
}

pub proof fn lemma_pow256_unfold(w: nat)
    requires
        w >= 1,
    ensures
        pow256(w) == 256 * pow256((w - 1) as nat),
{
    reveal(pow);
    lemma_pow_positive(256, (w - 1) as nat);
    assert(pow(256, w) == 256 * pow(256, (w - 1) as nat));
}

/// Monotonicity of `pow256` in the exponent.
pub proof fn lemma_pow256_increases(a: nat, b: nat)
    requires
        a <= b,
    ensures
        pow256(a) <= pow256(b),
{
    lemma_pow_positive(256, a);
    lemma_pow_positive(256, b);
    lemma_pow_increases(256, a, b);
}

/// A `w`-byte string denotes a value below `pow256(w)`.
pub proof fn lemma_be_val_bound(s: Seq<u8>)
    ensures
        be_val(s) < pow256(s.len()),
    decreases s.len(),
{
    if s.len() == 0 {
        lemma_pow0(256);
        assert(pow256(0) == 1);
    } else {
        let d = s.drop_last();
        lemma_be_val_bound(d);
        lemma_pow256_unfold(s.len());
        assert(be_val(d) * 256 <= (pow256(d.len()) - 1) * 256) by {
            lemma_mul_inequality(be_val(d) as int, pow256(d.len()) - 1, 256);
        }
    }
}

/// A string of zero bytes denotes zero.
pub proof fn lemma_be_val_all_zero(s: Seq<u8>)
    requires
        forall|i: int| 0 <= i < s.len() ==> s[i] == 0,
    ensures
        be_val(s) == 0,
    decreases s.len(),
{
    if s.len() > 0 {
        lemma_be_val_all_zero(s.drop_last());
    }
}

/// Leading zero bytes do not change the value.
pub proof fn lemma_be_val_skip_zeros(s: Seq<u8>, k: int)
    requires
        0 <= k <= s.len(),
        forall|i: int| 0 <= i < k ==> s[i] == 0,
    ensures
        be_val(s) == be_val(s.skip(k)),
    decreases s.len(),
{
    if s.len() == k {
        lemma_be_val_all_zero(s);
    } else {
        let d = s.drop_last();
        lemma_be_val_skip_zeros(d, k);
        assert(s.skip(k).drop_last() =~= d.skip(k));
        assert(s.skip(k).last() == s.last());
    }
}

/// Every string is the canonical encoding of its own value at its own width.
pub proof fn lemma_be_bytes_of_val(s: Seq<u8>)
    ensures
        be_bytes(be_val(s), s.len()) == s,
    decreases s.len(),
{
    if s.len() == 0 {
        assert(be_bytes(be_val(s), s.len()) =~= s);
    } else {
        let d = s.drop_last();
        let v = be_val(s);
        lemma_fundamental_div_mod_converse(v as int, 256, be_val(d) as int, s.last() as int);
        lemma_be_bytes_of_val(d);
        assert(be_bytes(v, s.len()) =~= d.push(s.last()));
        assert(d.push(s.last()) =~= s);
    }
}

/// The value is at least any one digit times its place value.
pub proof fn lemma_be_val_digit_lower(s: Seq<u8>, i: int)
    requires
        0 <= i < s.len(),
    ensures
        be_val(s) >= s[i] * pow256((s.len() - 1 - i) as nat),
    decreases s.len(),
{
    let d = s.drop_last();
    if i == s.len() - 1 {
        lemma_pow0(256);
        assert(pow256(0) == 1);
        assert(s[i] == s.last());
        lemma_mul_basics(s[i] as int);
        assert(be_val(s) == be_val(d) * 256 + s.last() as nat);
        assert(be_val(s) >= s[i] * pow256((s.len() - 1 - i) as nat));
    } else {
        lemma_be_val_digit_lower(d, i);
        assert(d[i] == s[i]);
        let p = pow256((s.len() - 2 - i) as nat) as int;
        assert(be_val(d) >= s[i] * p);
        assert(be_val(d) * 256 >= (s[i] * p) * 256) by {
            lemma_mul_inequality(s[i] * p, be_val(d) as int, 256);
        }
        lemma_mul_is_associative(s[i] as int, p, 256);
        lemma_pow256_unfold((s.len() - 1 - i) as nat);
        assert(p * 256 == pow256((s.len() - 1 - i) as nat));
        assert(be_val(s) == be_val(d) * 256 + s.last());
        assert(be_val(s) >= s[i] * pow256((s.len() - 1 - i) as nat));
    }
}

/// The value is below one more than the top digit, times its place value.
pub proof fn lemma_be_val_top_upper(s: Seq<u8>)
    requires
        s.len() >= 1,
    ensures
        be_val(s) < (s[0] as nat + 1) * pow256((s.len() - 1) as nat),
    decreases s.len(),
{
    if s.len() == 1 {
        lemma_pow0(256);
        assert(pow256(0) == 1);
        assert(be_val(s) == be_val(s.drop_last()) * 256 + s.last() as nat);
        assert(be_val(s.drop_last()) == 0);
        lemma_mul_basics(s[0] as int + 1);
        assert(be_val(s) < (s[0] as nat + 1) * pow256((s.len() - 1) as nat));
    } else {
        let d = s.drop_last();
        lemma_be_val_top_upper(d);
        assert(d[0] == s[0]);
        let c = s[0] as int + 1;
        let p = pow256((s.len() - 2) as nat) as int;
        assert(be_val(d) <= c * p - 1);
        assert(be_val(d) * 256 <= (c * p - 1) * 256) by {
            lemma_mul_inequality(be_val(d) as int, c * p - 1, 256);
        }
        lemma_mul_is_associative(c, p, 256);
        lemma_pow256_unfold((s.len() - 1) as nat);
        assert(p * 256 == pow256((s.len() - 1) as nat));
        assert(be_val(s) == be_val(d) * 256 + s.last());
        assert(be_val(s) < (s[0] as nat + 1) * pow256((s.len() - 1) as nat));
    }
}

/// A minimal encoding of a value below `pow256(k)` has at most `k` bytes.
pub proof fn lemma_min_be_len(s: Seq<u8>, k: nat)
    requires
        min_be(s),
        be_val(s) < pow256(k),
        k >= 1,
    ensures
        s.len() <= k,
{
    if s.len() > k {
        lemma_be_val_digit_lower(s, 0);
        let p = pow256((s.len() - 1) as nat) as int;
        lemma_mul_inequality(1, s[0] as int, p);
        lemma_pow256_increases(k, (s.len() - 1) as nat);
    }
}

/// XOR-ing the same string twice gives the first argument back.
pub proof fn lemma_xor_cancel(a: Seq<u8>, b: Seq<u8>)
    requires
        a.len() == b.len(),
    ensures
        xor_bytes(xor_bytes(a, b), b) == a,
{
    assert forall|i: int| 0 <= i < a.len() implies xor_bytes(xor_bytes(a, b), b)[i] == a[i] by {
        let x = a[i];
        let y = b[i];
        assert((x ^ y) ^ y == x) by (bit_vector);
    }
    assert(xor_bytes(xor_bytes(a, b), b) =~= a);
}

/// XOR-ing `e` into `d XOR e` gives `d` back.
pub proof fn lemma_xor_mix(e: Seq<u8>, d: Seq<u8>)
    requires
        e.len() == d.len(),
    ensures
        xor_bytes(e, xor_bytes(d, e)) == d,
{
    assert forall|i: int| 0 <= i < d.len() implies xor_bytes(e, xor_bytes(d, e))[i] == d[i] by {
        let x = e[i];
        let y = d[i];
        assert(x ^ (y ^ x) == y) by (bit_vector);
    }
    assert(xor_bytes(e, xor_bytes(d, e)) =~= d);
}

/// Pointwise XOR of two equal-length byte vectors.
pub fn xor_fixed(a: &Vec<u8>, b: &Vec<u8>) -> (r: Vec<u8>)
    requires
        a@.len() == b@.len(),
    ensures
        r@ == xor_bytes(a@, b@),
{
    let mut r: Vec<u8> = Vec::new();
    let mut i: usize = 0;
    while i < a.len()
        invariant
            i <= a@.len(),
            a@.len() == b@.len(),
            r@.len() == i as nat,
            forall|j: int| 0 <= j < i ==> r@[j] == (a@[j] ^ b@[j]),
        decreases a@.len() - i,
    {
        r.push(a[i] ^ b[i]);
        i += 1;
    }
    proof {
        assert(r@ =~= xor_bytes(a@, b@));
    }
    r
}

/// Byte-for-byte equality of two vectors.
pub fn bytes_eq(a: &Vec<u8>, b: &Vec<u8>) -> (r: bool)
    ensures
        r == (a@ == b@),
{
    if a.len() != b.len() {
        return false;
    }
    let mut i: usize = 0;
    while i < a.len()
        invariant
            i <= a@.len(),
            a@.len() == b@.len(),
            forall|j: int| 0 <= j < i ==> a@[j] == b@[j],
        decreases a@.len() - i,
    {
        if a[i] != b[i] {
            return false;
        }
        i += 1;
    }
    proof {
        assert(a@ =~= b@);
    }
    true
}

/// Zero-extend on the left to exactly `w` bytes: the canonical encoding of
/// the argument's value at width `w`.
pub fn pad_to(v: &Vec<u8>, w: usize) -> (r: Vec<u8>)
    requires
        v@.len() <= w,
    ensures
        r@.len() == w as nat,
        be_val(r@) == be_val(v@),
        r@ == be_bytes(be_val(v@), w as nat),
{
    let zeros = w - v.len();
    let mut r: Vec<u8> = Vec::new();
    let mut i: usize = 0;
    while i < zeros
        invariant
            i <= zeros,
            r@.len() == i as nat,
            forall|j: int| 0 <= j < i ==> r@[j] == 0u8,
        decreases zeros - i,
    {
        r.push(0u8);
        i += 1;
    }
    let mut t: usize = 0;
    while t < v.len()
        invariant
            t <= v@.len(),
            r@.len() == zeros + t,
            forall|j: int| 0 <= j < zeros ==> r@[j] == 0u8,
            forall|j: int| 0 <= j < t ==> r@[zeros + j] == v@[j],
        decreases v@.len() - t,
    {
        r.push(v[t]);
        t += 1;
    }
    proof {
        assert(r@.skip(zeros as int) =~= v@);
        lemma_be_val_skip_zeros(r@, zeros as int);
        lemma_be_bytes_of_val(r@);
    }
    r
}

/// The value of `v` re-encoded in exactly `w` bytes; `None` when it does not fit.
pub fn to_width(v: &Vec<u8>, w: usize) -> (r: Option<Vec<u8>>)
    ensures
        be_val(v@) < pow256(w as nat) ==> (r matches Some(c) && c@ == be_bytes(
            be_val(v@),
            w as nat,
        ) && c@.len() == w as nat && be_val(c@) == be_val(v@)),
        be_val(v@) >= pow256(w as nat) ==> r is None,
{
    if v.len() <= w {
        proof {
            lemma_be_val_bound(v@);
            lemma_pow256_increases(v@.len(), w as nat);
        }
        Some(pad_to(v, w))
    } else {
        let lead = v.len() - w;
        let mut i: usize = 0;
        while i < lead
            invariant
                i <= lead,
                lead == v@.len() - w,
                w <= v@.len(),
                forall|j: int| 0 <= j < i ==> v@[j] == 0u8,
            decreases lead - i,
        {
            if v[i] != 0 {
                proof {
                    lemma_be_val_digit_lower(v@, i as int);
                    let p = pow256((v@.len() - 1 - i) as nat) as int;
                    lemma_mul_inequality(1, v@[i as int] as int, p);
                    lemma_pow256_increases(w as nat, (v@.len() - 1 - i) as nat);
                }
                return None;
            }
            i += 1;
        }
        let mut c: Vec<u8> = Vec::new();
        let mut t: usize = lead;
        while t < v.len()
            invariant
                lead <= t <= v@.len(),
                lead == v@.len() - w,
                c@.len() == t - lead,
                forall|j: int| 0 <= j < lead ==> v@[j] == 0u8,
                forall|j: int| 0 <= j < t - lead ==> c@[j] == v@[lead + j],
            decreases v@.len() - t,
        {
            c.push(v[t]);
            t += 1;
        }
        proof {
            assert(c@ =~= v@.skip(lead as int));
            lemma_be_val_skip_zeros(v@, lead as int);
            lemma_be_val_bound(c@);
            lemma_be_bytes_of_val(c@);
        }
        Some(c)
    }
}

} // verus!
