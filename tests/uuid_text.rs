use btleplug::bleuuid::{parse_uuid, uuid_from_u16, BLUETOOTH_BASE_UUID};
use btleplug::Error;

#[test]
fn uuid_from_u16_uses_base_uuid() {
    assert_eq!(uuid_from_u16(0), BLUETOOTH_BASE_UUID);
    assert_eq!(uuid_from_u16(0xFFE9), 0x0000FFE9_0000_1000_8000_00805F9B34FB);
}

#[test]
fn parse_uuid_hyphenated() {
    let v = parse_uuid("0000ffe9-0000-1000-8000-00805f9b34fb").unwrap();
    assert_eq!(v, uuid_from_u16(0xFFE9));
}

#[test]
fn parse_uuid_rejects_garbage() {
    assert!(matches!(parse_uuid("not a uuid"), Err(Error::Uuid(_))));
}
