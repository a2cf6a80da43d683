use cribdrag::drag::crib_drag;
use cribdrag::hex::hex_encode;
use cribdrag::hex::hex_to_bytes;
use cribdrag::hex::MalformedHexError;
use cribdrag::report::render_report;
use cribdrag::report::report_filename;
use cribdrag::report::usize_to_string;
use cribdrag::xor::xor_bytes;

#[test]
fn hex_decode_valid() {
    assert_eq!(hex_to_bytes("0aff"), Ok(vec![0x0a, 0xff]));
    assert_eq!(hex_to_bytes("0AFF"), Ok(vec![0x0a, 0xff]));
    assert_eq!(hex_to_bytes(""), Ok(vec![]));
    assert_eq!(hex_to_bytes("a869e7"), Ok(vec![0xa8, 0x69, 0xe7]));
}

#[test]
fn hex_decode_odd_length_is_error() {
    assert_eq!(hex_to_bytes("abc"), Err(MalformedHexError));
    assert_eq!(hex_to_bytes("a"), Err(MalformedHexError));
}

#[test]
fn hex_decode_bad_digit_is_error() {
    assert_eq!(hex_to_bytes("0g"), Err(MalformedHexError));
    assert_eq!(hex_to_bytes("+f"), Err(MalformedHexError));
    assert_eq!(hex_to_bytes("  "), Err(MalformedHexError));
}

#[test]
fn hex_encode_is_lowercase_pairs() {
    assert_eq!(hex_encode(&[0xa8, 0x69, 0x0f]), "a8690f");
    assert_eq!(hex_encode(&[]), "");
}

#[test]
fn hex_round_trip() {
    let bytes: Vec<u8> = vec![0x00, 0x01, 0x7f, 0x80, 0xff, 0x41, 0x20];
    let encoded = hex_encode(&bytes);
    assert_eq!(hex_to_bytes(&encoded), Ok(bytes));
}

#[test]
fn xor_combines_bytes() {
    assert_eq!(xor_bytes(&[0x41, 0x42, 0x43], &[0x58, 0x59, 0x5a]), vec![0x19, 0x1b, 0x19]);
}

#[test]
fn xor_truncates_to_shorter() {
    assert_eq!(xor_bytes(&[0x01, 0x02, 0x03], &[0xff, 0x0f]), vec![0xfe, 0x0d]);
    assert_eq!(xor_bytes(&[], &[0x01]), vec![]);
}

#[test]
fn xor_involution() {
    let a: Vec<u8> = vec![0x12, 0x34, 0x56, 0x78];
    let b: Vec<u8> = vec![0xab, 0xcd, 0xef, 0x01];
    assert_eq!(xor_bytes(&xor_bytes(&a, &b), &b), a);
}

#[test]
fn xor_self_cancellation() {
    let a: Vec<u8> = vec![0x12, 0x34, 0x56];
    assert_eq!(xor_bytes(&a, &a), vec![0x00, 0x00, 0x00]);
}

#[test]
fn crib_drag_scenario_printable_candidate() {
    let buffer = xor_bytes(&[0x41, 0x42, 0x43], &[0x58, 0x59, 0x5a]);
    assert_eq!(buffer, vec![0x19, 0x1b, 0x19]);
    let results = crib_drag(&buffer, "AB");
    assert_eq!(results[0], (0, String::from("XY")));
    assert_eq!(results, vec![(0, String::from("XY")), (1, String::from("Z["))]);
}

#[test]
fn crib_drag_completeness_on_constructed_buffer() {
    let p1 = b"hello world";
    let p2 = b"goodbye sir";
    let buffer = xor_bytes(p1, p2);
    let results = crib_drag(&buffer, "lo w");
    assert!(results.contains(&(3, String::from("dbye"))));
}

#[test]
fn crib_drag_reports_only_printable_text() {
    let buffer = xor_bytes(b"some plain bytes here", b"\x00\x01other content\x7f\x02ab");
    for (_, text) in crib_drag(&buffer, " co") {
        assert!(text.bytes().all(|b| (0x20..=0x7e).contains(&b)));
    }
}

#[test]
fn crib_longer_than_buffer_gives_no_match() {
    let results = crib_drag(&[0x19, 0x1b], "ABC");
    assert_eq!(results, vec![]);
}

#[test]
fn empty_buffer_gives_no_match() {
    let results = crib_drag(&[], "AB");
    assert_eq!(results, vec![]);
}

#[test]
fn crib_as_long_as_buffer_gives_at_most_one_match() {
    let results = crib_drag(&[0x19, 0x1b], "AB");
    assert!(results.len() <= 1);
    assert_eq!(results, vec![(0, String::from("XY"))]);
}

#[test]
fn empty_crib_matches_every_offset() {
    let results = crib_drag(&[0x19, 0x1b, 0x19], "");
    assert_eq!(
        results,
        vec![
            (0, String::new()),
            (1, String::new()),
            (2, String::new()),
            (3, String::new()),
        ]
    );
}

#[test]
fn report_filename_trims_then_underscores() {
    assert_eq!(report_filename(" the "), "the.txt");
    assert_eq!(report_filename("Who made the world?"), "Who_made_the_world?.txt");
    assert_eq!(report_filename("tion"), "tion.txt");
    assert_eq!(report_filename("  "), ".txt");
}

#[test]
fn usize_renders_in_decimal() {
    assert_eq!(usize_to_string(0), "0");
    assert_eq!(usize_to_string(7), "7");
    assert_eq!(usize_to_string(1234), "1234");
    assert_eq!(usize_to_string(100), "100");
}

#[test]
fn report_lists_each_pairing_in_order() {
    let sections = vec![
        vec![(0, String::from("XY"))],
        vec![],
        vec![(2, String::from("ab")), (10, String::from("cd"))],
    ];
    let text = render_report(&sections);
    let expected = "==================== Results for C1_XOR_C2: ====================\n\
                    Position 0: XY\n\
                    \n==================== Results for C1_XOR_C3: ====================\n\
                    \n==================== Results for C2_XOR_C3: ====================\n\
                    Position 2: ab\nPosition 10: cd\n";
    assert_eq!(text, expected);
}
