//! Byte-wise XOR of two byte sequences.

use vstd::prelude::*;

verus! {

/// The element-wise XOR of two byte sequences, truncated to the shorter
/// length.
pub open spec fn xor_seq(a: Seq<u8>, b: Seq<u8>) -> Seq<u8> {
    Seq::new(
        if a.len() <= b.len() {
            a.len()
        } else {
            b.len()
        },
        |i: int| a[i] ^ b[i],
    )
}

/// XOR corresponding bytes of two slices. The result has the length of the
/// shorter input: mismatched lengths are truncated, never an error.
pub fn xor_bytes(bytes1: &[u8], bytes2: &[u8]) -> (r: Vec<u8>)
    ensures
        r@ == xor_seq(bytes1@, bytes2@),
{
    let n: usize = if bytes1.len() <= bytes2.len() {
        bytes1.len()
    } else {
        bytes2.len()
    };
    let mut r: Vec<u8> = Vec::new();
    let mut i: usize = 0;
    while i < n
        invariant
            i <= n,
            n <= bytes1@.len() && n <= bytes2@.len(),
            n == xor_seq(bytes1@, bytes2@).len(),
            r@ == xor_seq(bytes1@, bytes2@).take(i as int),
        decreases n - i,
    {
        r.push(bytes1[i] ^ bytes2[i]);
        proof {
            assert(r@ =~= xor_seq(bytes1@, bytes2@).take(i + 1));
        }
        i += 1;
    }
    proof {
        assert(r@ =~= xor_seq(bytes1@, bytes2@));
    }
    r
}

/// Law: XOR involution. Masking a sequence with the same equal-length
/// sequence twice restores the original.
pub proof fn lemma_xor_involution(a: Seq<u8>, b: Seq<u8>)
    requires
        a.len() == b.len(),
    ensures
        xor_seq(xor_seq(a, b), b) == a,
{
    assert forall|i: int| 0 <= i < a.len() implies xor_seq(xor_seq(a, b), b)[i] == a[i] by {
        let x = a[i];
        let y = b[i];
        assert((x ^ y) ^ y == x) by (bit_vector);
    }
    assert(xor_seq(xor_seq(a, b), b) =~= a);
}

/// Law: XOR self-cancellation. A sequence XORed with itself is all zero
/// bytes.
pub proof fn lemma_xor_self_cancel(a: Seq<u8>)
    ensures
        xor_seq(a, a).len() == a.len(),
        forall|i: int| 0 <= i < a.len() ==> xor_seq(a, a)[i] == 0u8,
{
    assert forall|i: int| 0 <= i < a.len() implies xor_seq(a, a)[i] == 0u8 by {
        let x = a[i];
        assert(x ^ x == 0) by (bit_vector);
    }
}

} // verus!
