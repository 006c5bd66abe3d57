use x11_input_supercharger::decimal::{parse_u16, to_decimal};

#[test]
fn writes_decimal() {
    assert_eq!(to_decimal(0), b"0".to_vec());
    assert_eq!(to_decimal(7), b"7".to_vec());
    assert_eq!(to_decimal(10), b"10".to_vec());
    assert_eq!(to_decimal(65455), b"65455".to_vec());
    assert_eq!(to_decimal(u64::MAX), b"18446744073709551615".to_vec());
}

#[test]
fn reads_u16_as_parse_does() {
    for text in ["0", "1", "65535", "65536", "99999999999", "+5", "+", "", "-1", "1 ", " 1", "00012", "1a", "+-1"] {
        assert_eq!(parse_u16(text.as_bytes()), text.parse::<u16>().ok(), "{:?}", text);
    }
}

#[test]
fn decimal_reads_back() {
    for n in [0u16, 5, 10, 255, 1000, 65535] {
        assert_eq!(parse_u16(&to_decimal(n as u64)), Some(n));
    }
}
