//! The crib-dragging sweep: slide a crib across an XOR buffer and report
//! every offset where XOR-ing the crib in yields printable ASCII.

use vstd::prelude::*;
use vstd::string::*;
use crate::ascii::all_printable;
use crate::ascii::ascii_to_string;
use crate::ascii::ascii_view;
use crate::ascii::printable;
use crate::xor::xor_seq;

verus! {

/// The bytes obtained by XOR-ing the crib against the buffer at offset `i`:
/// position `j` holds `buf[i + j] ^ crib[j]`. Where the crib is a true
/// substring of one plaintext at `i`, these bytes are the other plaintext.
pub open spec fn candidate(buf: Seq<u8>, crib: Seq<u8>, i: int) -> Seq<u8> {
    Seq::new(crib.len(), |j: int| buf[i + j] ^ crib[j])
}

/// The crib matches the buffer at offset `i`: the crib fits there, and the
/// candidate it produces is printable ASCII throughout. An empty crib
/// matches at every offset of the buffer, by this definition.
pub open spec fn match_at(buf: Seq<u8>, crib: Seq<u8>, i: int) -> bool {
    0 <= i && i + crib.len() <= buf.len() && all_printable(candidate(buf, crib, i))
}

/// Probe one offset: compute the candidate there and decode it as text if
/// and only if it is printable ASCII throughout.
fn offset_candidate(xor_bytes: &[u8], crib_bytes: &[u8], i: usize) -> (r: Option<String>)
    requires
        i + crib_bytes@.len() <= xor_bytes@.len(),
    ensures
        r is Some <==> match_at(xor_bytes@, crib_bytes@, i as int),
        r matches Some(text) ==> text@ == ascii_view(
            candidate(xor_bytes@, crib_bytes@, i as int),
        ),
{
    let n: usize = xor_bytes.len();
    let mut cand: Vec<u8> = Vec::new();
    let mut ok: bool = true;
    let mut j: usize = 0;
    while j < crib_bytes.len()
        invariant
            xor_bytes@.len() == n,
            i + crib_bytes@.len() <= xor_bytes@.len(),
            j <= crib_bytes@.len(),
            cand@ == candidate(xor_bytes@, crib_bytes@, i as int).take(j as int),
            ok <==> (forall|l: int|
                0 <= l < j ==> printable(
                    #[trigger] candidate(xor_bytes@, crib_bytes@, i as int)[l],
                )),
        decreases crib_bytes@.len() - j,
    {
        let c = xor_bytes[i + j] ^ crib_bytes[j];
        proof {
            assert(candidate(xor_bytes@, crib_bytes@, i as int)[j as int] == c);
        }
        if !(0x20 <= c && c <= 0x7e) {
            ok = false;
        }
        cand.push(c);
        proof {
            assert(cand@ =~= candidate(xor_bytes@, crib_bytes@, i as int).take(j as int + 1));
        }
        j += 1;
    }
    proof {
        assert(cand@ =~= candidate(xor_bytes@, crib_bytes@, i as int));
    }
    if ok {
        proof {
            assert(all_printable(cand@));
            assert forall|l: int| 0 <= l < cand@.len() implies cand@[l] < 0x80 by {
                assert(printable(cand@[l]));
            }
        }
        Some(ascii_to_string(cand))
    } else {
        proof {
            assert(!all_printable(candidate(xor_bytes@, crib_bytes@, i as int)));
        }
        None
    }
}

/// Slide the crib across the whole buffer and report every match, in
/// ascending offset order, each with the candidate decoded as text.
///
/// The sweep is exhaustive and never fails: a crib longer than the buffer
/// simply has no offset to match at, and an empty crib matches everywhere
/// with empty recovered text.
pub fn crib_drag(xor_bytes: &[u8], crib: &str) -> (r: Vec<(usize, String)>)
    ensures
        forall|k: int|
            0 <= k < r@.len() ==> match_at(xor_bytes@, crib.spec_bytes(), (#[trigger] r@[k]).0 as int)
                && r@[k].1@ == ascii_view(candidate(xor_bytes@, crib.spec_bytes(), r@[k].0 as int)),
        forall|i: int|
            match_at(xor_bytes@, crib.spec_bytes(), i) ==> exists|k: int|
                0 <= k < r@.len() && (#[trigger] r@[k]).0 == i,
        forall|k1: int, k2: int| 0 <= k1 < k2 < r@.len() ==> r@[k1].0 < r@[k2].0,
        crib.spec_bytes().len() > xor_bytes@.len() ==> r@.len() == 0,
        xor_bytes@.len() == 0 && crib.spec_bytes().len() > 0 ==> r@.len() == 0,
        crib.spec_bytes().len() == xor_bytes@.len() ==> r@.len() <= 1,
{
    let crib_bytes: &[u8] = crib.as_bytes();
    let mut results: Vec<(usize, String)> = Vec::new();
    if crib_bytes.len() > xor_bytes.len() {
        return results;
    }
    let last: usize = xor_bytes.len() - crib_bytes.len();
    let mut i: usize = 0;
    while i < last
        invariant
            crib_bytes@ == crib.spec_bytes(),
            crib_bytes@.len() <= xor_bytes@.len(),
            last == xor_bytes@.len() - crib_bytes@.len(),
            i <= last,
            forall|k: int|
                0 <= k < results@.len() ==> match_at(
                    xor_bytes@,
                    crib_bytes@,
                    (#[trigger] results@[k]).0 as int,
                ) && results@[k].1@ == ascii_view(
                    candidate(xor_bytes@, crib_bytes@, results@[k].0 as int),
                ) && results@[k].0 < i,
            forall|o: int|
                0 <= o < i && match_at(xor_bytes@, crib_bytes@, o) ==> exists|k: int|
                    0 <= k < results@.len() && (#[trigger] results@[k]).0 == o,
            forall|k1: int, k2: int|
                0 <= k1 < k2 < results@.len() ==> results@[k1].0 < results@[k2].0,
        decreases last - i,
    {
        if let Some(text) = offset_candidate(xor_bytes, crib_bytes, i) {
            let ghost pre = results@;
            results.push((i, text));
            proof {
                assert forall|o: int|
                    0 <= o < i + 1 && match_at(xor_bytes@, crib_bytes@, o) implies exists|k: int|
                    0 <= k < results@.len() && (#[trigger] results@[k]).0 == o by {
                    if o == i as int {
                        assert(results@[results@.len() - 1].0 == i);
                    } else {
                        let k0 = choose|k: int| 0 <= k < pre.len() && (#[trigger] pre[k]).0 == o;
                        assert(results@[k0] == pre[k0]);
                    }
                }
            }
        }
        i += 1;
    }
    if let Some(text) = offset_candidate(xor_bytes, crib_bytes, last) {
        let ghost pre = results@;
        results.push((last, text));
        proof {
            assert forall|o: int|
                0 <= o <= last && match_at(xor_bytes@, crib_bytes@, o) implies exists|k: int|
                0 <= k < results@.len() && (#[trigger] results@[k]).0 == o by {
                if o == last as int {
                    assert(results@[results@.len() - 1].0 == last);
                } else {
                    let k0 = choose|k: int| 0 <= k < pre.len() && (#[trigger] pre[k]).0 == o;
                    assert(results@[k0] == pre[k0]);
                }
            }
        }
    }
    proof {
        assert forall|o: int| match_at(xor_bytes@, crib_bytes@, o) implies exists|k: int|
            0 <= k < results@.len() && (#[trigger] results@[k]).0 == o by {
            assert(0 <= o <= last);
        }
        if crib_bytes@.len() == xor_bytes@.len() && results@.len() >= 2 {
            assert(results@[0].0 < results@[1].0 && results@[1].0 <= last);
            assert(false);
        }
    }
    results
}

/// Law: crib-dragging completeness. Where the buffer is the XOR of two
/// equal-length plaintexts and the crib equals the substring of the first
/// plaintext at offset `k`, the candidate at `k` is the corresponding
/// substring of the second plaintext, and — provided that substring is
/// printable ASCII, without which the sweep rejects the offset — a match
/// at `k` is owed.
pub proof fn lemma_crib_drag_completeness(p1: Seq<u8>, p2: Seq<u8>, crib: Seq<u8>, k: int)
    requires
        p1.len() == p2.len(),
        0 <= k,
        k + crib.len() <= p1.len(),
        crib == p1.subrange(k, k + crib.len() as int),
        all_printable(p2.subrange(k, k + crib.len() as int)),
    ensures
        match_at(xor_seq(p1, p2), crib, k),
        candidate(xor_seq(p1, p2), crib, k) == p2.subrange(k, k + crib.len() as int),
{
    let buf = xor_seq(p1, p2);
    assert forall|j: int| 0 <= j < crib.len() implies candidate(buf, crib, k)[j] == p2[k + j] by {
        let x = p1[k + j];
        let y = p2[k + j];
        assert(crib[j] == p1[k + j]);
        assert((x ^ y) ^ x == y) by (bit_vector);
    }
    assert(candidate(buf, crib, k) =~= p2.subrange(k, k + crib.len() as int));
}

} // verus!
