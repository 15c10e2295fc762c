use btleplug::address::{BDAddr, ParseBDAddrError};
use btleplug::Error;

#[test]
fn address_round_trip_canonical_text() {
    let a = BDAddr::from_bytes([0xF7, 0x8C, 0x81, 0x74, 0xB0, 0x2A]);
    let text = a.to_string_delim();
    assert_eq!(text, "F7:8C:81:74:B0:2A");
    let parsed = BDAddr::parse(&text).unwrap();
    assert_eq!(parsed, a);
    assert_eq!(parsed.to_string_delim(), text);
}

#[test]
fn address_round_trip_all_zero_and_all_ones() {
    for bytes in [[0u8; 6], [0xFFu8; 6], [0x01, 0x23, 0x45, 0x67, 0x89, 0xAB]] {
        let a = BDAddr::from_bytes(bytes);
        let text = a.to_string_delim();
        assert_eq!(BDAddr::parse(&text).unwrap().into_inner(), bytes);
        assert_eq!(BDAddr::parse(&text).unwrap().to_string_delim(), text);
    }
}

#[test]
fn address_parse_accepts_lower_case() {
    let a = BDAddr::parse("0a:1b:2c:3d:4e:5f").unwrap();
    assert_eq!(a.into_inner(), [0x0A, 0x1B, 0x2C, 0x3D, 0x4E, 0x5F]);
    assert_eq!(a.to_string_delim(), "0A:1B:2C:3D:4E:5F");
}

#[test]
fn address_parse_rejects_non_hex() {
    assert_eq!(BDAddr::parse("zz:zz:zz:zz:zz:zz"), Err(ParseBDAddrError::InvalidDigit));
}

#[test]
fn address_parse_rejects_five_bytes() {
    assert_eq!(BDAddr::parse("01:02:03:04:05"), Err(ParseBDAddrError::IncorrectByteCount));
}

#[test]
fn address_parse_rejects_wrong_separator() {
    assert_eq!(BDAddr::parse("01-02-03-04-05-06"), Err(ParseBDAddrError::InvalidDigit));
    assert_eq!(BDAddr::parse(""), Err(ParseBDAddrError::IncorrectByteCount));
}

#[test]
fn address_same_as_compares_bytes() {
    let a = BDAddr::from_bytes([1, 2, 3, 4, 5, 6]);
    let b = BDAddr::from_bytes([1, 2, 3, 4, 5, 7]);
    assert!(a.same_as(&a));
    assert!(!a.same_as(&b));
}

#[test]
fn address_from_str_delim_reports_invalid_address() {
    assert!(matches!(
        BDAddr::from_str_delim("01:02:03:04:05"),
        Err(Error::InvalidBDAddr(ParseBDAddrError::IncorrectByteCount))
    ));
    assert!(matches!(
        BDAddr::from_str_delim("zz:zz:zz:zz:zz:zz"),
        Err(Error::InvalidBDAddr(ParseBDAddrError::InvalidDigit))
    ));
    let a = BDAddr::from_str_delim("F7:8C:81:74:B0:2A").unwrap();
    assert_eq!(a.into_inner(), [0xF7, 0x8C, 0x81, 0x74, 0xB0, 0x2A]);
}
