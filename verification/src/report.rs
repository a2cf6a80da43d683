//! Rendering of crib-dragging results: the report file name derived from a
//! crib, and the report text listing every match per ciphertext pairing.

use vstd::prelude::*;
use vstd::string::*;
use crate::ascii::ascii_to_string;
use crate::ascii::ascii_view;

verus! {

/// The decimal digit bytes of a number, most significant first, no leading
/// zeros (a lone `0` for zero).
pub open spec fn dec_digits(n: nat) -> Seq<u8>
    decreases n,
{
    if n < 10 {
        seq![(0x30 + n) as u8]
    } else {
        dec_digits(n / 10) + seq![(0x30 + n % 10) as u8]
    }
}

/// Every decimal digit byte is an ASCII digit.
proof fn lemma_dec_digits_ascii(n: nat)
    ensures
        forall|i: int| 0 <= i < dec_digits(n).len() ==> 0x30 <= #[trigger] dec_digits(n)[i] <= 0x39,
    decreases n,
{
    if n >= 10 {
        lemma_dec_digits_ascii(n / 10);
        assert forall|i: int| 0 <= i < dec_digits(n).len() implies 0x30 <= #[trigger] dec_digits(
            n,
        )[i] <= 0x39 by {
            if i < dec_digits(n / 10).len() {
                assert(dec_digits(n)[i] == dec_digits(n / 10)[i]);
            } else {
                assert(dec_digits(n)[i] == (0x30 + n % 10) as u8);
            }
        }
    }
}

/// Append the decimal digits of `n` to `out`, most significant first.
fn push_dec_digits(out: &mut Vec<u8>, n: usize)
    ensures
        final(out)@ == old(out)@ + dec_digits(n as nat),
    decreases n,
{
    if n >= 10 {
        push_dec_digits(out, n / 10);
        out.push(0x30 + (n % 10) as u8);
    } else {
        out.push(0x30 + n as u8);
    }
    proof {
        assert(out@ =~= old(out)@ + dec_digits(n as nat));
    }
}

/// Render a number in decimal.
pub fn usize_to_string(n: usize) -> (r: String)
    ensures
        r@ == ascii_view(dec_digits(n as nat)),
{
    let mut digits: Vec<u8> = Vec::new();
    push_dec_digits(&mut digits, n);
    proof {
        lemma_dec_digits_ascii(n as nat);
        assert(digits@ =~= dec_digits(n as nat));
    }
    ascii_to_string(digits)
}

/// An ASCII whitespace byte: space, tab, line feed, vertical tab, form
/// feed, or carriage return.
pub open spec fn is_ascii_space(b: u8) -> bool {
    b == 0x20 || (0x09 <= b <= 0x0d)
}

/// The bytes left after removing leading ASCII whitespace.
pub open spec fn trim_front(s: Seq<u8>) -> Seq<u8>
    decreases s.len(),
{
    if s.len() > 0 && is_ascii_space(s[0]) {
        trim_front(s.drop_first())
    } else {
        s
    }
}

/// The bytes left after removing trailing ASCII whitespace.
pub open spec fn trim_back(s: Seq<u8>) -> Seq<u8>
    decreases s.len(),
{
    if s.len() > 0 && is_ascii_space(s.last()) {
        trim_back(s.drop_last())
    } else {
        s
    }
}

/// The bytes left after removing leading and trailing ASCII whitespace.
pub open spec fn trimmed(s: Seq<u8>) -> Seq<u8> {
    trim_back(trim_front(s))
}

/// The bytes with every space replaced by an underscore.
pub open spec fn underscored(s: Seq<u8>) -> Seq<u8> {
    Seq::new(
        s.len(),
        |i: int|
            if s[i] == 0x20 {
                0x5f as u8
            } else {
                s[i]
            },
    )
}

/// The report file name derived from a crib: the crib trimmed of
/// surrounding whitespace, inner spaces replaced by underscores, and
/// `.txt` appended.
pub open spec fn filename_bytes(crib: Seq<u8>) -> Seq<u8> {
    underscored(trimmed(crib)) + seq![0x2eu8, 0x74u8, 0x78u8, 0x74u8]
}

/// Trimming the front keeps the suffix that starts at the first non-space
/// position.
proof fn lemma_trim_front_subrange(s: Seq<u8>, a: int)
    requires
        0 <= a <= s.len(),
        forall|i: int| 0 <= i < a ==> is_ascii_space(s[i]),
        a == s.len() || !is_ascii_space(s[a]),
    ensures
        trim_front(s) == s.subrange(a, s.len() as int),
    decreases a,
{
    if a == 0 {
        assert(s.subrange(0, s.len() as int) =~= s);
    } else {
        lemma_trim_front_subrange(s.drop_first(), a - 1);
        assert(s.drop_first().subrange(a - 1, s.drop_first().len() as int) =~= s.subrange(
            a,
            s.len() as int,
        ));
    }
}

/// Trimming the back keeps the prefix that ends after the last non-space
/// position.
proof fn lemma_trim_back_subrange(s: Seq<u8>, b: int)
    requires
        0 <= b <= s.len(),
        forall|i: int| b <= i < s.len() ==> is_ascii_space(s[i]),
        b == 0 || !is_ascii_space(s[b - 1]),
    ensures
        trim_back(s) == s.subrange(0, b),
    decreases s.len(),
{
    if b == s.len() {
        assert(s.subrange(0, s.len() as int) =~= s);
    } else {
        assert(is_ascii_space(s.last()));
        lemma_trim_back_subrange(s.drop_last(), b);
        assert(s.drop_last().subrange(0, b) =~= s.subrange(0, b));
    }
}

/// Whether the byte is ASCII whitespace.
fn is_space_byte(b: u8) -> (r: bool)
    ensures
        r == is_ascii_space(b),
{
    b == 0x20 || (0x09 <= b && b <= 0x0d)
}

/// Derive the report file name from a crib: trim surrounding whitespace,
/// replace the remaining spaces with underscores, and append `.txt`. The
/// crib must be ASCII.
pub fn report_filename(crib: &str) -> (r: String)
    requires
        forall|i: int| 0 <= i < crib.spec_bytes().len() ==> crib.spec_bytes()[i] < 0x80,
    ensures
        r@ == ascii_view(filename_bytes(crib.spec_bytes())),
{
    let b: &[u8] = crib.as_bytes();
    let n: usize = b.len();
    let mut start: usize = 0;
    while start < n && is_space_byte(b[start])
        invariant
            n == b@.len(),
            start <= n,
            forall|i: int| 0 <= i < start ==> is_ascii_space(b@[i]),
        decreases n - start,
    {
        start += 1;
    }
    let mut end: usize = n;
    while end > start && is_space_byte(b[end - 1])
        invariant
            n == b@.len(),
            start <= end <= n,
            forall|i: int| end <= i < n ==> is_ascii_space(b@[i]),
        decreases end,
    {
        end -= 1;
    }
    proof {
        lemma_trim_front_subrange(b@, start as int);
        let t = b@.subrange(start as int, b@.len() as int);
        lemma_trim_back_subrange(t, end - start);
        assert(t.subrange(0, end - start) =~= b@.subrange(start as int, end as int));
        assert(trimmed(b@) == b@.subrange(start as int, end as int));
    }
    let mut out: Vec<u8> = Vec::new();
    let mut i: usize = start;
    while i < end
        invariant
            n == b@.len(),
            start <= i <= end <= n,
            out@ == underscored(b@.subrange(start as int, end as int)).take(i - start),
        decreases end - i,
    {
        let c = b[i];
        out.push(
            if c == 0x20 {
                0x5f
            } else {
                c
            },
        );
        proof {
            assert(out@ =~= underscored(b@.subrange(start as int, end as int)).take(
                i + 1 - start,
            ));
        }
        i += 1;
    }
    out.push(0x2e);
    out.push(0x74);
    out.push(0x78);
    out.push(0x74);
    proof {
        assert(out@ =~= filename_bytes(crib.spec_bytes()));
        assert forall|k: int| 0 <= k < out@.len() implies out@[k] < 0x80 by {
            let u = underscored(trimmed(b@));
            if k < u.len() {
                assert(out@[k] == u[k]);
            }
        }
    }
    ascii_to_string(out)
}

/// One line of a report section: the match's offset in decimal and its
/// recovered text.
pub open spec fn match_line(m: (usize, String)) -> Seq<char> {
    "Position "@ + ascii_view(dec_digits(m.0 as nat)) + ": "@ + m.1@ + "\n"@
}

/// The lines of one report section, one per match, in the order given.
pub open spec fn match_lines(ms: Seq<(usize, String)>) -> Seq<char>
    decreases ms.len(),
{
    if ms.len() == 0 {
        Seq::empty()
    } else {
        match_lines(ms.drop_last()) + match_line(ms.last())
    }
}

/// The full report text for the three conventional ciphertext pairings,
/// a labeled section each, separated by blank lines.
pub open spec fn report_text(
    r12: Seq<(usize, String)>,
    r13: Seq<(usize, String)>,
    r23: Seq<(usize, String)>,
) -> Seq<char> {
    "==================== Results for C1_XOR_C2: ====================\n"@ + match_lines(r12)
        + "\n==================== Results for C1_XOR_C3: ====================\n"@ + match_lines(r13)
        + "\n==================== Results for C2_XOR_C3: ====================\n"@ + match_lines(r23)
}

/// Append one report line for a single match.
fn append_match_line(out: &mut String, m: &(usize, String))
    ensures
        final(out)@ == old(out)@ + match_line(*m),
{
    out.append("Position ");
    let num = usize_to_string(m.0);
    out.append(num.as_str());
    out.append(": ");
    out.append(m.1.as_str());
    out.append("\n");
    proof {
        assert(out@ =~= old(out)@ + match_line(*m));
    }
}

/// Append one report line per match, in the order given.
fn append_match_lines(out: &mut String, ms: &Vec<(usize, String)>)
    ensures
        final(out)@ == old(out)@ + match_lines(ms@),
{
    let mut k: usize = 0;
    while k < ms.len()
        invariant
            k <= ms@.len(),
            out@ == old(out)@ + match_lines(ms@.take(k as int)),
        decreases ms@.len() - k,
    {
        append_match_line(out, &ms[k]);
        proof {
            assert(ms@.take(k + 1).drop_last() =~= ms@.take(k as int));
            assert(ms@.take(k + 1).last() == ms@[k as int]);
            assert(out@ =~= old(out)@ + match_lines(ms@.take(k + 1)));
        }
        k += 1;
    }
    proof {
        assert(ms@.take(ms@.len() as int) =~= ms@);
    }
}

/// Render the report for one crib over the three conventional ciphertext
/// pairings, in their given order.
pub fn render_report(xor_results: &[Vec<(usize, String)>]) -> (r: String)
    requires
        xor_results@.len() == 3,
    ensures
        r@ == report_text(xor_results@[0]@, xor_results@[1]@, xor_results@[2]@),
{
    let mut out = String::new();
    out.append("==================== Results for C1_XOR_C2: ====================\n");
    append_match_lines(&mut out, &xor_results[0]);
    out.append("\n==================== Results for C1_XOR_C3: ====================\n");
    append_match_lines(&mut out, &xor_results[1]);
    out.append("\n==================== Results for C2_XOR_C3: ====================\n");
    append_match_lines(&mut out, &xor_results[2]);
    proof {
        assert(out@ =~= report_text(xor_results@[0]@, xor_results@[1]@, xor_results@[2]@));
    }
    out
}

} // verus!
