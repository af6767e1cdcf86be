use link2lan::num::{parse_u16_str, parse_u64_str, u64_to_decimal, IntErrorKind};

#[test]
fn decimal_formatting() {
    assert_eq!(u64_to_decimal(0), "0");
    assert_eq!(u64_to_decimal(7), "7");
    assert_eq!(u64_to_decimal(1700000000), "1700000000");
    assert_eq!(u64_to_decimal(u64::MAX), "18446744073709551615");
}

#[test]
fn parse_u16_accepts_what_std_accepts() {
    assert_eq!(parse_u16_str("8080"), Ok(8080));
    assert_eq!(parse_u16_str("+42"), Ok(42));
    assert_eq!(parse_u16_str("0065535"), Ok(65535));
    for s in ["8080", "+42", "0", "65535", "65536", "", "+", "-1", "1a", "99999a", "a99999"] {
        let std_result = s.parse::<u16>().map_err(|e| e.kind().clone());
        let ours = parse_u16_str(s);
        match (std_result, ours) {
            (Ok(a), Ok(b)) => assert_eq!(a, b),
            (Err(std::num::IntErrorKind::Empty), Err(IntErrorKind::Empty)) => {}
            (Err(std::num::IntErrorKind::InvalidDigit), Err(IntErrorKind::InvalidDigit)) => {}
            (Err(std::num::IntErrorKind::PosOverflow), Err(IntErrorKind::PosOverflow)) => {}
            (a, b) => panic!("{:?}: std {:?}, ours {:?}", s, a, b),
        }
    }
}

#[test]
fn parse_u16_errors() {
    assert_eq!(parse_u16_str(""), Err(IntErrorKind::Empty));
    assert_eq!(parse_u16_str("+"), Err(IntErrorKind::InvalidDigit));
    assert_eq!(parse_u16_str("-5"), Err(IntErrorKind::InvalidDigit));
    assert_eq!(parse_u16_str("65536"), Err(IntErrorKind::PosOverflow));
    assert_eq!(parse_u16_str("99999a"), Err(IntErrorKind::PosOverflow));
    assert_eq!(parse_u16_str("9a"), Err(IntErrorKind::InvalidDigit));
}

#[test]
fn parse_u64_reads_back_decimal_text() {
    for n in [0u64, 9, 10, 1234567890123, u64::MAX] {
        assert_eq!(parse_u64_str(&u64_to_decimal(n)), Ok(n));
    }
    assert_eq!(parse_u64_str("18446744073709551616"), Err(IntErrorKind::PosOverflow));
}
