use btleplug::address::BDAddr;
use btleplug::peripheral::{
    Characteristic, ConnectionState, GattRequest, Peripheral, PeripheralId, WriteType, PROP_NOTIFY,
    PROP_READ, PROP_WRITE,
};
use btleplug::properties::PeripheralProperties;
use btleplug::Error;

fn peripheral() -> Peripheral {
    Peripheral::new(PeripheralId::Address(BDAddr::from_bytes([9, 8, 7, 6, 5, 4])))
}

fn readable() -> Characteristic {
    Characteristic { uuid: 0xFFE9, service_uuid: 0xFFE0, properties: PROP_READ | PROP_WRITE }
}

#[test]
fn read_when_disconnected_is_not_connected() {
    let p = peripheral();
    assert!(!p.is_connected());
    assert!(matches!(p.read(&readable()), Err(Error::NotConnected)));
    assert!(matches!(p.discover_services(), Err(Error::NotConnected)));
    assert!(matches!(p.write(&readable(), &[1], WriteType::WithResponse), Err(Error::NotConnected)));
    assert!(matches!(p.subscribe(&readable()), Err(Error::NotConnected)));
}

#[test]
fn connected_operations_produce_requests() {
    let mut p = peripheral();
    p.set_connected(true);
    assert!(matches!(p.read(&readable()), Ok(GattRequest::Read(_, c)) if c == readable()));
    match p.write(&readable(), &[1, 2, 3], WriteType::WithResponse) {
        Ok(GattRequest::Write(_, _, data, WriteType::WithResponse)) => assert_eq!(data, vec![1, 2, 3]),
        other => panic!("unexpected {:?}", other),
    }
    assert!(matches!(p.write(&readable(), &[1], WriteType::WithoutResponse), Err(Error::NotSupported(_))));
    assert!(matches!(p.subscribe(&readable()), Err(Error::NotSupported(_))));
    let notifying = Characteristic { uuid: 1, service_uuid: 2, properties: PROP_NOTIFY };
    assert!(matches!(p.subscribe(&notifying), Ok(GattRequest::Subscribe(_, _))));
    assert!(matches!(p.unsubscribe(&notifying), Ok(GattRequest::Unsubscribe(_, _))));
    assert!(matches!(p.read(&notifying), Err(Error::NotSupported(_))));
}

#[test]
fn connect_state_machine() {
    let mut p = peripheral();
    assert!(p.begin_connect());
    assert_eq!(p.state, ConnectionState::Connecting);
    assert!(p.finish_connect(Err(Error::TimedOut(std::time::Duration::from_secs(5)))).is_err());
    assert_eq!(p.state, ConnectionState::Disconnected);
    assert!(p.begin_connect());
    assert!(p.finish_connect(Ok(())).is_ok());
    assert_eq!(p.state, ConnectionState::Connected);
    assert!(!p.begin_connect());
    assert!(p.begin_disconnect());
    assert_eq!(p.state, ConnectionState::Disconnecting);
    p.finish_disconnect();
    assert!(!p.begin_disconnect());
    assert_eq!(p.state, ConnectionState::Disconnected);
}

#[test]
fn characteristics_cache() {
    let mut p = peripheral();
    assert!(p.characteristics().is_empty());
    p.set_characteristics(vec![readable()]);
    assert_eq!(p.characteristics(), vec![readable()]);
}

#[test]
fn merge_unions_maps_and_services() {
    let mut p = peripheral();
    let mut u1 = PeripheralProperties::new();
    u1.manufacturer_data = vec![(0x004C, vec![1, 2]), (0x0059, vec![3])];
    u1.services = vec![10, 11];
    u1.tx_power_level = Some(4);
    p.update_properties(&u1);
    let mut u2 = PeripheralProperties::new();
    u2.manufacturer_data = vec![(0x004C, vec![9])];
    u2.service_data = vec![(10, vec![5])];
    u2.services = vec![11, 12];
    u2.class = Some(7);
    p.update_properties(&u2);
    let props = p.properties();
    let mut md = props.manufacturer_data.clone();
    md.sort();
    assert_eq!(md, vec![(0x004C, vec![9]), (0x0059, vec![3])]);
    assert_eq!(props.service_data, vec![(10, vec![5])]);
    let mut services = props.services.clone();
    services.sort();
    assert_eq!(services, vec![10, 11, 12]);
    assert_eq!(props.tx_power_level, Some(4));
    assert_eq!(props.class, Some(7));
    assert_eq!(props.local_name, None);
    p.update_local_name("Named".to_string());
    assert_eq!(p.properties().local_name.as_deref(), Some("Named"));
    assert_eq!(p.properties().tx_power_level, Some(4));
}

#[test]
fn identities_of_different_kinds_differ() {
    let a = PeripheralId::Address(BDAddr::from_bytes([0x61, 0, 0, 0, 0, 0]));
    let o = PeripheralId::Opaque("a".to_string());
    assert!(!a.same_as(&o));
    assert!(o.same_as(&PeripheralId::Opaque("a".to_string())));
    assert!(a.same_as(&a.clone()));
}
