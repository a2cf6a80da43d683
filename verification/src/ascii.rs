//! Printable ASCII bytes and their reading as text.

use vstd::prelude::*;

verus! {

/// A byte in the printable ASCII range, space through tilde.
pub open spec fn printable(b: u8) -> bool {
    0x20 <= b <= 0x7e
}

/// Every byte of the sequence is printable ASCII.
pub open spec fn all_printable(s: Seq<u8>) -> bool {
    forall|i: int| 0 <= i < s.len() ==> printable(s[i])
}

/// The characters that a sequence of ASCII bytes spells.
pub open spec fn ascii_view(s: Seq<u8>) -> Seq<char> {
    Seq::new(s.len(), |i: int| s[i] as char)
}

/// Relies on String::from_utf8: ASCII bytes are valid UTF-8, the call
/// returns `Ok` on them, and the string's characters are exactly those
/// code points.
#[verifier::external_body]
pub(crate) fn ascii_to_string(v: Vec<u8>) -> (r: String)
    requires
        forall|i: int| 0 <= i < v@.len() ==> v@[i] < 0x80,
    ensures
        r@ == ascii_view(v@),
{
    String::from_utf8(v).unwrap()
}

} // verus!
