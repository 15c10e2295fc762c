use btleplug::adapter::{contains_text, ScanFilter};
use btleplug::adapter_manager::AdapterManager;
use btleplug::address::BDAddr;
use btleplug::events::CentralEvent;
use btleplug::peripheral::{ConnectionState, PeripheralId};
use btleplug::properties::PeripheralProperties;
use btleplug::{Adapter, Error, Manager};

fn a1() -> PeripheralId {
    PeripheralId::Address(BDAddr::from_bytes([0xA1, 0, 0, 0, 0, 1]))
}

fn named(name: &str) -> PeripheralProperties {
    let mut p = PeripheralProperties::new();
    p.local_name = Some(name.to_string());
    p
}

fn with_rssi(rssi: i16) -> PeripheralProperties {
    let mut p = PeripheralProperties::new();
    p.rssi = Some(rssi);
    p
}

fn discovered_id(e: &CentralEvent) -> Option<&PeripheralId> {
    match e {
        CentralEvent::DeviceDiscovered(id) => Some(id),
        _ => None,
    }
}

fn updated_id(e: &CentralEvent) -> Option<&PeripheralId> {
    match e {
        CentralEvent::DeviceUpdated(id) => Some(id),
        _ => None,
    }
}

#[test]
fn observe_name_then_rssi_merges() {
    let mut adapter = Adapter::new();
    let sub = adapter.events().unwrap();
    assert!(adapter.manager.on_device_observed(a1(), &named("Tag1")));
    let e = adapter.manager.next_event(sub).unwrap();
    assert_eq!(discovered_id(&e), Some(&a1()));
    let ids = adapter.peripherals().unwrap();
    assert_eq!(ids.len(), 1);
    let props = adapter.peripheral(&ids[0]).unwrap().properties();
    assert_eq!(props.local_name.as_deref(), Some("Tag1"));

    assert!(!adapter.manager.on_device_observed(a1(), &with_rssi(-60)));
    let e = adapter.manager.next_event(sub).unwrap();
    assert_eq!(updated_id(&e), Some(&a1()));
    let props = adapter.peripheral(&a1()).unwrap().properties();
    assert_eq!(props.local_name.as_deref(), Some("Tag1"));
    assert_eq!(props.rssi, Some(-60));
    assert!(adapter.manager.next_event(sub).is_none());
}

#[test]
fn repeated_discovery_keeps_one_record() {
    let mut m = AdapterManager::new(8);
    for _ in 0..5 {
        m.on_device_observed(a1(), &with_rssi(-40));
    }
    m.on_device_observed(PeripheralId::Opaque("a1".to_string()), &with_rssi(-41));
    assert_eq!(m.peripherals().len(), 2);
    assert_eq!(m.peripherals.len(), 2);
}

#[test]
fn discovered_once_then_updated() {
    let mut m = AdapterManager::new(16);
    let sub = m.subscribe();
    let other = PeripheralId::Opaque("other".to_string());
    m.on_device_observed(a1(), &with_rssi(-1));
    m.on_device_observed(other.clone(), &with_rssi(-2));
    m.on_device_observed(a1(), &with_rssi(-3));
    m.on_device_observed(other.clone(), &with_rssi(-4));
    let events: Vec<CentralEvent> = (0..4).map(|_| m.next_event(sub).unwrap()).collect();
    assert_eq!(discovered_id(&events[0]), Some(&a1()));
    assert_eq!(discovered_id(&events[1]), Some(&other));
    assert_eq!(updated_id(&events[2]), Some(&a1()));
    assert_eq!(updated_id(&events[3]), Some(&other));
}

#[test]
fn two_subscribers_receive_same_events() {
    let mut m = AdapterManager::new(16);
    let s1 = m.subscribe();
    m.on_device_observed(a1(), &with_rssi(-1));
    let s2 = m.subscribe();
    m.on_device_observed(a1(), &with_rssi(-2));
    m.on_device_observed(PeripheralId::Opaque("x".to_string()), &with_rssi(-3));
    // the first subscriber also saw the discovery before the second subscribed
    assert!(discovered_id(&m.next_event(s1).unwrap()).is_some());
    for _ in 0..2 {
        let e1 = m.next_event(s1).unwrap();
        let e2 = m.next_event(s2).unwrap();
        assert_eq!(format!("{:?}", e1), format!("{:?}", e2));
    }
    assert!(m.next_event(s1).is_none());
    assert!(m.next_event(s2).is_none());
}

#[test]
fn full_queue_drops_oldest_event() {
    let mut m = AdapterManager::new(2);
    let s = m.subscribe();
    m.on_device_observed(PeripheralId::Opaque("a".to_string()), &with_rssi(-1));
    m.on_device_observed(PeripheralId::Opaque("b".to_string()), &with_rssi(-1));
    m.on_device_observed(PeripheralId::Opaque("c".to_string()), &with_rssi(-1));
    let e = m.next_event(s).unwrap();
    assert_eq!(discovered_id(&e), Some(&PeripheralId::Opaque("b".to_string())));
    let e = m.next_event(s).unwrap();
    assert_eq!(discovered_id(&e), Some(&PeripheralId::Opaque("c".to_string())));
    assert!(m.next_event(s).is_none());
}

#[test]
fn unknown_peripheral_not_found_then_found() {
    let mut adapter = Adapter::new();
    assert!(matches!(adapter.peripheral(&a1()), Err(Error::DeviceNotFound)));
    adapter.manager.on_device_observed(a1(), &PeripheralProperties::new());
    assert!(adapter.peripheral(&a1()).is_ok());
}

#[test]
fn stop_scan_twice_is_no_error() {
    let mut adapter = Adapter::new();
    assert!(adapter.stop_scan().is_ok());
    assert!(adapter.stop_scan().is_ok());
    assert!(adapter.start_scan(ScanFilter::default()).is_ok());
    assert!(adapter.start_scan(ScanFilter::default()).is_ok());
    assert!(adapter.scanning);
    assert!(adapter.stop_scan().is_ok());
    assert!(adapter.stop_scan().is_ok());
    assert!(!adapter.scanning);
}

#[test]
fn add_peripheral_not_supported() {
    let adapter = Adapter::new();
    let r = adapter.add_peripheral(BDAddr::from_bytes([1, 2, 3, 4, 5, 6]));
    assert!(matches!(r, Err(Error::NotSupported(_))));
    assert_eq!(adapter.adapter_info().unwrap(), "WinRT");
}

#[test]
fn connection_changes_emit_events() {
    let mut m = AdapterManager::new(8);
    assert!(matches!(m.on_connection_changed(&a1(), true), Err(Error::DeviceNotFound)));
    m.on_device_observed(a1(), &PeripheralProperties::new());
    let s = m.subscribe();
    assert!(m.on_connection_changed(&a1(), true).is_ok());
    assert_eq!(m.peripheral(&a1()).unwrap().state, ConnectionState::Connected);
    assert!(matches!(m.next_event(s), Some(CentralEvent::DeviceConnected(_))));
    assert!(m.on_connection_changed(&a1(), false).is_ok());
    assert!(!m.peripheral(&a1()).unwrap().is_connected());
    assert!(matches!(m.next_event(s), Some(CentralEvent::DeviceDisconnected(_))));
}

#[test]
fn scan_filter_by_service_and_name() {
    let mut adapter = Adapter::new();
    let filter = ScanFilter { services: vec![0x1234], name_contains: Some("Tag".to_string()) };
    adapter.start_scan(filter).unwrap();
    let mut ok = named("MyTag2");
    ok.services = vec![7, 0x1234];
    let mut wrong_service = named("MyTag3");
    wrong_service.services = vec![7];
    let mut wrong_name = named("Lamp");
    wrong_name.services = vec![0x1234];
    assert!(adapter.on_advertisement(PeripheralId::Opaque("1".to_string()), &ok));
    assert!(!adapter.on_advertisement(PeripheralId::Opaque("2".to_string()), &wrong_service));
    assert!(!adapter.on_advertisement(PeripheralId::Opaque("3".to_string()), &wrong_name));
    assert_eq!(adapter.peripherals().unwrap().len(), 1);
}

#[test]
fn contains_text_cases() {
    assert!(contains_text("Inateck BT", "Inateck"));
    assert!(contains_text("abc", ""));
    assert!(!contains_text("Inate", "Inateck"));
    assert!(contains_text("xxInateck", "Inateck"));
    assert!(!contains_text("inateck", "Inateck"));
}

#[test]
fn get_all_ble_device_keeps_known_names() {
    let devices = vec![
        (BDAddr::from_bytes([1, 1, 1, 1, 1, 1]), "Inateck KB".to_string()),
        (BDAddr::from_bytes([2, 2, 2, 2, 2, 2]), "Mouse".to_string()),
        (BDAddr::from_bytes([1, 1, 1, 1, 1, 1]), "Inateck KB2".to_string()),
    ];
    let adapter = Adapter::get_all_BLEDevice(&devices).unwrap();
    let ids = adapter.peripherals().unwrap();
    assert_eq!(ids.len(), 1);
    let id = PeripheralId::Address(BDAddr::from_bytes([1, 1, 1, 1, 1, 1]));
    let props = adapter.peripheral(&id).unwrap().properties();
    assert_eq!(props.local_name.as_deref(), Some("Inateck KB2"));
}

#[test]
fn set_ble_device_empty_name_keeps_name() {
    let mut adapter = Adapter::new();
    let addr = BDAddr::from_bytes([3, 3, 3, 3, 3, 3]);
    adapter.set_ble_device(addr, "Dev".to_string()).unwrap();
    adapter.set_ble_device(addr, String::new()).unwrap();
    let props = adapter.peripheral(&PeripheralId::Address(addr)).unwrap().properties();
    assert_eq!(props.local_name.as_deref(), Some("Dev"));
}

#[test]
fn manager_makes_one_adapter_per_bluetooth_radio() {
    let manager = Manager::new().unwrap();
    let adapters = manager.adapters(&vec![true, false, true]).unwrap();
    assert_eq!(adapters.len(), 2);
    assert!(adapters.iter().all(|a| !a.scanning));
}

#[test]
fn registry_connect_flow() {
    let mut m = AdapterManager::new(8);
    assert!(matches!(m.begin_connect(&a1()), Err(Error::DeviceNotFound)));
    m.on_device_observed(a1(), &PeripheralProperties::new());
    let s = m.subscribe();
    assert_eq!(m.begin_connect(&a1()).unwrap(), true);
    assert_eq!(m.peripheral(&a1()).unwrap().state, ConnectionState::Connecting);
    let failed = m.finish_connect(&a1(), Err(Error::Other("radio".to_string())));
    assert!(matches!(failed, Err(Error::Other(_))));
    assert_eq!(m.peripheral(&a1()).unwrap().state, ConnectionState::Disconnected);
    assert!(m.next_event(s).is_none());
    assert_eq!(m.begin_connect(&a1()).unwrap(), true);
    assert!(m.finish_connect(&a1(), Ok(())).is_ok());
    assert!(matches!(m.next_event(s), Some(CentralEvent::DeviceConnected(_))));
    assert_eq!(m.begin_connect(&a1()).unwrap(), false);
    assert_eq!(m.begin_disconnect(&a1()).unwrap(), true);
    assert_eq!(m.peripheral(&a1()).unwrap().state, ConnectionState::Disconnecting);
    assert!(m.on_connection_changed(&a1(), false).is_ok());
    assert!(matches!(m.next_event(s), Some(CentralEvent::DeviceDisconnected(_))));
    assert_eq!(m.begin_disconnect(&a1()).unwrap(), false);
}

#[test]
fn registry_stores_discovered_characteristics() {
    let mut m = AdapterManager::new(8);
    let c = btleplug::peripheral::Characteristic { uuid: 1, service_uuid: 2, properties: 0x02 };
    assert!(matches!(m.set_characteristics(&a1(), vec![c]), Err(Error::DeviceNotFound)));
    m.on_device_observed(a1(), &PeripheralProperties::new());
    assert!(m.set_characteristics(&a1(), vec![c]).is_ok());
    assert_eq!(m.peripheral(&a1()).unwrap().characteristics(), vec![c]);
}
