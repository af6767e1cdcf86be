use link2lan::hex::{hex_decode_chunks, hex_encode};

#[test]
fn hex_encode_is_two_lower_case_digits_a_byte() {
    assert_eq!(hex_encode(&[0x00, 0xab, 0xff, 0x10]), "00abff10");
    assert_eq!(hex_encode(&[]), "");
}

#[test]
fn hex_decode_skips_bad_chunks() {
    assert_eq!(hex_decode_chunks(b"00abFF"), vec![0x00, 0xab, 0xff]);
    // "zz" is skipped, "+5" reads as 5, the final single "c" as 12.
    assert_eq!(hex_decode_chunks(b"0azz+5c"), vec![0x0a, 0x05, 0x0c]);
    assert_eq!(hex_decode_chunks(b"+"), Vec::<u8>::new());
    assert_eq!(hex_decode_chunks("é1".as_bytes()), vec![0x01]);
}

#[test]
fn hex_roundtrip_on_bytes() {
    let bytes: Vec<u8> = (0..=255u8).collect();
    let text = hex_encode(&bytes);
    assert_eq!(hex_decode_chunks(text.as_bytes()), bytes);
}
