//! Hexadecimal encoding and decoding of byte sequences.

use vstd::prelude::*;
use vstd::string::*;
use crate::ascii::ascii_to_string;
use crate::ascii::ascii_view;

verus! {

/// The input was not a well-formed hexadecimal string: odd length, or a
/// character that is no hexadecimal digit.
#[derive(Clone, Copy, Debug, PartialEq, Eq, Structural)]
pub struct MalformedHexError;

/// The byte is the ASCII code of a hexadecimal digit, either case.
pub open spec fn is_hex_digit(b: u8) -> bool {
    (0x30 <= b <= 0x39) || (0x61 <= b <= 0x66) || (0x41 <= b <= 0x46)
}

/// The numeric value of an ASCII hexadecimal digit.
pub open spec fn hex_val(b: u8) -> u8
    recommends
        is_hex_digit(b),
{
    if 0x30 <= b <= 0x39 {
        (b - 0x30) as u8
    } else if 0x61 <= b <= 0x66 {
        (b - 0x57) as u8
    } else {
        (b - 0x37) as u8
    }
}

/// The bytes form a well-formed hexadecimal string: even length, every byte
/// a hexadecimal digit.
pub open spec fn valid_hex(s: Seq<u8>) -> bool {
    s.len() % 2 == 0 && (forall|i: int| 0 <= i < s.len() ==> is_hex_digit(s[i]))
}

/// The byte sequence a hexadecimal string encodes: byte `i` is the value of
/// the digits at positions `2i` and `2i + 1`, read base 16.
pub open spec fn hex_decoded(s: Seq<u8>) -> Seq<u8>
    recommends
        valid_hex(s),
{
    Seq::new(s.len() / 2, |i: int| (hex_val(s[2 * i]) * 16 + hex_val(s[2 * i + 1])) as u8)
}

/// The lowercase ASCII hexadecimal digit for a value below 16.
pub open spec fn hex_digit(v: int) -> u8
    recommends
        0 <= v < 16,
{
    if v < 10 {
        (0x30 + v) as u8
    } else {
        (0x57 + v) as u8
    }
}

/// The digit bytes that encode a byte sequence in lowercase hexadecimal,
/// two digits per byte, high digit first.
pub open spec fn hex_encoded(b: Seq<u8>) -> Seq<u8> {
    Seq::new(
        2 * b.len(),
        |i: int|
            if i % 2 == 0 {
                hex_digit(b[i / 2] as int / 16)
            } else {
                hex_digit(b[i / 2] as int % 16)
            },
    )
}

/// The numeric value of one hexadecimal digit byte, or `None` where the
/// byte is no hexadecimal digit.
fn hex_digit_value(b: u8) -> (r: Option<u8>)
    ensures
        r is Some <==> is_hex_digit(b),
        is_hex_digit(b) ==> r == Some(hex_val(b)) && hex_val(b) < 16,
{
    if 0x30 <= b && b <= 0x39 {
        Some(b - 0x30)
    } else if 0x61 <= b && b <= 0x66 {
        Some(b - 0x57)
    } else if 0x41 <= b && b <= 0x46 {
        Some(b - 0x37)
    } else {
        None
    }
}

/// Decode a hexadecimal string to bytes. Succeeds exactly on well-formed
/// input: an even number of hexadecimal digits, either case.
pub fn hex_to_bytes(hex: &str) -> (r: Result<Vec<u8>, MalformedHexError>)
    ensures
        r is Ok <==> valid_hex(hex.spec_bytes()),
        r matches Ok(v) ==> v@ == hex_decoded(hex.spec_bytes()),
{
    let h: &[u8] = hex.as_bytes();
    if h.len() % 2 != 0 {
        return Err(MalformedHexError);
    }
    let mut out: Vec<u8> = Vec::new();
    let mut i: usize = 0;
    while i < h.len()
        invariant
            h@ == hex.spec_bytes(),
            h@.len() % 2 == 0,
            i % 2 == 0,
            i <= h@.len(),
            forall|j: int| 0 <= j < i ==> is_hex_digit(h@[j]),
            out@ == hex_decoded(h@).take(i as int / 2),
        decreases h@.len() - i,
    {
        let hi = hex_digit_value(h[i]);
        let lo = hex_digit_value(h[i + 1]);
        match (hi, lo) {
            (Some(a), Some(b)) => {
                out.push(a * 16 + b);
                proof {
                    assert(2 * (i as int / 2) == i as int);
                    assert(out@ =~= hex_decoded(h@).take((i as int + 2) / 2));
                }
            },
            _ => {
                return Err(MalformedHexError);
            },
        }
        i += 2;
    }
    proof {
        assert(out@ =~= hex_decoded(h@));
    }
    Ok(out)
}

/// One lowercase hexadecimal digit byte for a value below 16.
fn hex_digit_exec(v: u8) -> (r: u8)
    requires
        v < 16,
    ensures
        r == hex_digit(v as int),
{
    if v < 10 {
        0x30 + v
    } else {
        0x57 + v
    }
}

/// Encode bytes as a lowercase hexadecimal string, two digits per byte.
pub fn hex_encode(bytes: &[u8]) -> (r: String)
    ensures
        r@ == ascii_view(hex_encoded(bytes@)),
{
    let mut digits: Vec<u8> = Vec::new();
    let mut i: usize = 0;
    while i < bytes.len()
        invariant
            i <= bytes@.len(),
            digits@ == hex_encoded(bytes@).take(2 * i as int),
        decreases bytes@.len() - i,
    {
        let b = bytes[i];
        digits.push(hex_digit_exec(b / 16));
        digits.push(hex_digit_exec(b % 16));
        proof {
            assert(digits@ =~= hex_encoded(bytes@).take(2 * (i as int + 1)));
        }
        i += 1;
    }
    proof {
        assert(digits@ =~= hex_encoded(bytes@));
        assert forall|j: int| 0 <= j < digits@.len() implies digits@[j] < 0x80 by {
            assert(digits@[j] == hex_encoded(bytes@)[j]);
        }
    }
    ascii_to_string(digits)
}

/// Law: hex round-trip. Encoding any byte sequence yields a well-formed
/// hexadecimal string, and decoding that string restores the bytes.
pub proof fn lemma_hex_round_trip(b: Seq<u8>)
    ensures
        valid_hex(hex_encoded(b)),
        hex_decoded(hex_encoded(b)) == b,
{
    let e = hex_encoded(b);
    assert forall|i: int| 0 <= i < e.len() implies is_hex_digit(e[i]) by {
        if i % 2 == 0 {
            assert(e[i] == hex_digit(b[i / 2] as int / 16));
        } else {
            assert(e[i] == hex_digit(b[i / 2] as int % 16));
        }
    }
    assert forall|i: int| 0 <= i < b.len() implies hex_decoded(e)[i] == b[i] by {
        assert((2 * i) / 2 == i && (2 * i) % 2 == 0);
        assert((2 * i + 1) / 2 == i && (2 * i + 1) % 2 == 1);
        assert(e[2 * i] == hex_digit(b[i] as int / 16));
        assert(e[2 * i + 1] == hex_digit(b[i] as int % 16));
        assert(hex_val(hex_digit(b[i] as int / 16)) == b[i] as int / 16);
        assert(hex_val(hex_digit(b[i] as int % 16)) == b[i] as int % 16);
        assert(b[i] as int / 16 * 16 + b[i] as int % 16 == b[i] as int);
    }
    assert(hex_decoded(e) =~= b);
}

} // verus!
