use ble_scanner::address::HardwareAddress;
use ble_scanner::cycle::{build_snapshot, collect, Action, CycleError, Event, Phase, ScanCycleController};
use ble_scanner::device::{extend_with_new, merge, observe, DeviceRegistry, Observation, PropertyError, RawProperties};
use ble_scanner::enrich::{enrich, Device};
use ble_scanner::rank::{rank, strength_of};
use ble_scanner::service::{
    comes_before, find_service_info, least_file, short_service_id, ReferenceFile, ServiceDescriptorIndex,
};
use ble_scanner::vendor::VendorTable;

const BATTERY: u128 = 0x0000180f_0000_1000_8000_00805f9b34fb;
const HEART: u128 = 0x0000180d_0000_1000_8000_00805f9b34fb;
const ODD: u128 = 0x01234567_89ab_cdef_fedc_ba9876543210;

fn address(last: u8) -> HardwareAddress {
    HardwareAddress::from_octets([0xAA, 0xBB, 0xCC, 0x00, 0x00, last])
}

fn seen(last: u8, name: Option<&str>, tx: Option<i16>, rssi: Option<i16>, ids: Vec<u128>) -> Observation {
    Observation {
        address: address(last),
        name: name.map(|n| n.to_string()),
        tx_power: tx,
        signal_strength: rssi,
        service_ids: ids,
    }
}

fn device(last: u8, rssi: Option<i16>) -> Device {
    Device {
        address: address(last),
        display_name: None,
        transmit_power: None,
        vendor: None,
        signal_strength: rssi,
        service_ids: Vec::new(),
        service_descriptions: Vec::new(),
    }
}

fn index() -> ServiceDescriptorIndex {
    ServiceDescriptorIndex::build(&vec![
        "uuid 180f\nBattery Service\nuuid 1800\nGeneric Access\n".to_string(),
        "uuid 180f\nBattery (second file)\nuuid 180d\nHeart Rate\r\nuuid 4567".to_string(),
    ])
}

fn vendors() -> VendorTable {
    VendorTable::build("AA:BB:CC\t(hex)\tAcme Corp")
}

#[test]
fn short_form_of_service_identifier() {
    assert_eq!(short_service_id(BATTERY), "180f".to_string());
    assert_eq!(short_service_id(ODD), "4567".to_string());
    assert_eq!(short_service_id(0), "0000".to_string());
    assert_eq!(short_service_id(u128::MAX), "ffff".to_string());
    assert_eq!(short_service_id(0x0000ABCD_0000_0000_0000_000000000000), "abcd".to_string());
}

#[test]
fn first_file_decides_a_description() {
    let idx = index();
    assert_eq!(idx.file_count(), 2);
    assert_eq!(idx.lookup("180f"), Some("Battery Service".to_string()));
    assert_eq!(find_service_info(&idx, "180d"), Some("Heart Rate".to_string()));
    assert_eq!(idx.lookup("1800"), Some("Generic Access".to_string()));
}

#[test]
fn bearing_line_without_successor_gives_nothing() {
    let idx = index();
    assert_eq!(idx.lookup("4567"), None);
    let two = ServiceDescriptorIndex::build(&vec!["id 1234".to_string(), "id 1234\nLater".to_string()]);
    assert_eq!(two.lookup("1234"), None);
}

#[test]
fn unknown_identifier_has_no_description() {
    let idx = index();
    assert_eq!(idx.lookup("ffff"), None);
    assert_eq!(idx.lookup("180F"), None);
    let none = ServiceDescriptorIndex::build(&Vec::new());
    assert_eq!(none.lookup("180f"), None);
}

#[test]
fn matching_is_by_substring() {
    let idx = ServiceDescriptorIndex::build(&vec!["x\nabc180fdef\nWithin\n".to_string()]);
    assert_eq!(idx.lookup("180f"), Some("Within".to_string()));
    let described = ServiceDescriptorIndex::build(&vec!["Battery 180f level\n180f\nSecond".to_string()]);
    assert_eq!(described.lookup("180f"), Some("180f".to_string()));
}

#[test]
fn registry_keeps_one_record_per_address() {
    let mut registry = DeviceRegistry::new();
    assert_eq!(registry.len(), 0);
    registry.upsert(seen(1, None, None, Some(-50), vec![]));
    registry.upsert(seen(2, None, None, Some(-60), vec![]));
    registry.upsert(seen(1, None, None, Some(-55), vec![]));
    registry.upsert(seen(1, None, None, None, vec![]));
    assert_eq!(registry.len(), 2);
    assert_eq!(registry.find(&address(1)), 0);
    assert_eq!(registry.find(&address(2)), 1);
    assert_eq!(registry.find(&address(3)), 2);
    let records = registry.finalize();
    assert_eq!(records.len(), 2);
    assert_eq!(records[0].address, address(1));
    assert_eq!(records[0].signal_strength, Some(-55));
    assert_eq!(records[1].address, address(2));
}

#[test]
fn last_observation_wins_on_scalars() {
    let mut registry = DeviceRegistry::new();
    registry.upsert(seen(9, None, None, Some(-50), vec![]));
    registry.upsert(seen(9, Some("Foo"), None, Some(-40), vec![]));
    let records = registry.finalize();
    assert_eq!(records.len(), 1);
    assert_eq!(records[0].signal_strength, Some(-40));
    assert_eq!(records[0].name, Some("Foo".to_string()));
}

#[test]
fn known_values_are_never_lost() {
    let known = seen(1, Some("Foo"), Some(4), Some(-40), vec![BATTERY]);
    let merged = merge(known, seen(1, None, None, None, vec![HEART, BATTERY, HEART]));
    assert_eq!(merged.name, Some("Foo".to_string()));
    assert_eq!(merged.tx_power, Some(4));
    assert_eq!(merged.signal_strength, Some(-40));
    assert_eq!(merged.service_ids, vec![BATTERY, HEART]);
    let again = merge(merged, seen(1, Some("Bar"), Some(-8), None, vec![ODD]));
    assert_eq!(again.name, Some("Bar".to_string()));
    assert_eq!(again.tx_power, Some(-8));
    assert_eq!(again.signal_strength, Some(-40));
    assert_eq!(again.service_ids, vec![BATTERY, HEART, ODD]);
}

#[test]
fn services_grow_in_first_seen_order() {
    let mut base = vec![3u128, 1];
    extend_with_new(&mut base, &vec![1, 2, 2, 3, 4]);
    assert_eq!(base, vec![3, 1, 2, 4]);
    let mut registry = DeviceRegistry::new();
    registry.upsert(seen(1, None, None, None, vec![HEART, HEART, BATTERY]));
    registry.upsert(seen(1, None, None, None, vec![ODD, BATTERY]));
    let records = registry.finalize();
    assert_eq!(records[0].service_ids, vec![HEART, BATTERY, ODD]);
}

#[test]
fn unreadable_peripheral_is_left_out() {
    assert!(observe(address(1), Err(PropertyError {})).is_none());
    assert!(observe(address(1), Ok(None)).is_none());
    let props = RawProperties {
        name: Some("Foo".to_string()),
        tx_power: Some(1),
        signal_strength: Some(-2),
        service_ids: vec![BATTERY],
    };
    let o = observe(address(7), Ok(Some(props))).unwrap();
    assert_eq!(o.address, address(7));
    assert_eq!(o.name, Some("Foo".to_string()));
    assert_eq!(o.tx_power, Some(1));
    assert_eq!(o.signal_strength, Some(-2));
    assert_eq!(o.service_ids, vec![BATTERY]);
}

#[test]
fn enriched_device_has_vendor_and_descriptions() {
    let raw = seen(5, Some("Band"), Some(3), Some(-61), vec![HEART, ODD, BATTERY, HEART, 0xffff_0000]);
    let d = enrich(raw, &vendors(), &index());
    assert_eq!(d.address, address(5));
    assert_eq!(d.display_name, Some("Band".to_string()));
    assert_eq!(d.transmit_power, Some(3));
    assert_eq!(d.signal_strength, Some(-61));
    assert_eq!(d.vendor, Some("Acme Corp".to_string()));
    assert_eq!(d.service_ids, vec![HEART, ODD, BATTERY, 0xffff_0000]);
    assert_eq!(
        d.service_descriptions,
        vec![Some("Heart Rate".to_string()), None, Some("Battery Service".to_string()), None]
    );
    assert_eq!(d.service_ids.len(), d.service_descriptions.len());
}

#[test]
fn unknown_vendor_is_absent() {
    let raw = Observation {
        address: HardwareAddress::from_octets([0xAA, 0xBB, 0xCD, 0, 0, 1]),
        name: None,
        tx_power: None,
        signal_strength: None,
        service_ids: vec![],
    };
    let d = enrich(raw, &vendors(), &index());
    assert_eq!(d.vendor, None);
    assert!(d.service_ids.is_empty());
    assert!(d.service_descriptions.is_empty());
}

#[test]
fn ranking_is_stable() {
    let ranked = rank(vec![
        device(0xA, Some(-70)),
        device(0xB, Some(-70)),
        device(0xC, Some(-90)),
        device(0xD, None),
    ]);
    let order: Vec<HardwareAddress> = ranked.iter().map(|d| d.address).collect();
    assert_eq!(order, vec![address(0xA), address(0xB), address(0xC), address(0xD)]);
}

#[test]
fn ranking_puts_strongest_first() {
    let ranked = rank(vec![
        device(1, None),
        device(2, Some(-90)),
        device(3, Some(i16::MIN)),
        device(4, Some(-40)),
        device(5, None),
        device(6, Some(-90)),
        device(7, Some(i16::MAX)),
    ]);
    let order: Vec<HardwareAddress> = ranked.iter().map(|d| d.address).collect();
    assert_eq!(
        order,
        vec![address(7), address(4), address(2), address(6), address(3), address(1), address(5)]
    );
    assert_eq!(strength_of(&device(1, None)), -32769);
    assert_eq!(strength_of(&device(1, Some(-40))), -40);
    assert_eq!(rank(Vec::new()).len(), 0);
}

#[test]
fn snapshot_of_a_cycle() {
    let observations = vec![
        seen(1, None, None, Some(-80), vec![BATTERY]),
        seen(2, Some("Two"), None, Some(-50), vec![]),
        seen(1, Some("One"), None, Some(-40), vec![HEART]),
        seen(3, None, None, None, vec![]),
    ];
    let snapshot = build_snapshot(observations, &vendors(), &index());
    assert_eq!(snapshot.len(), 3);
    assert_eq!(snapshot[0].address, address(1));
    assert_eq!(snapshot[0].display_name, Some("One".to_string()));
    assert_eq!(snapshot[0].signal_strength, Some(-40));
    assert_eq!(snapshot[0].service_ids, vec![BATTERY, HEART]);
    assert_eq!(
        snapshot[0].service_descriptions,
        vec![Some("Battery Service".to_string()), Some("Heart Rate".to_string())]
    );
    assert_eq!(snapshot[1].address, address(2));
    assert_eq!(snapshot[2].address, address(3));
    assert_eq!(snapshot[2].vendor, Some("Acme Corp".to_string()));
    assert_eq!(collect(Vec::new()).len(), 0);
}

#[test]
fn controller_runs_a_cycle() {
    let (v, i) = (vendors(), index());
    let mut c = ScanCycleController::new();
    assert_eq!(c.phase(), Phase::Idle);
    assert_eq!(c.step(Event::Wake, &v, &i), Action::StartScan);
    assert_eq!(c.phase(), Phase::Scanning);
    assert_eq!(c.step(Event::ScanStarted, &v, &i), Action::Dwell);
    assert_eq!(c.phase(), Phase::Settling);
    assert_eq!(c.step(Event::DwellElapsed, &v, &i), Action::Enumerate);
    assert_eq!(c.phase(), Phase::Collecting);
    let observations = vec![seen(1, None, None, Some(-80), vec![]), seen(2, None, None, Some(-50), vec![])];
    assert_eq!(c.step(Event::Observed(observations), &v, &i), Action::Publish);
    assert_eq!(c.phase(), Phase::Publishing);
    assert_eq!(c.snapshot().len(), 2);
    assert_eq!(c.snapshot()[0].address, address(2));
    assert_eq!(c.step(Event::ScanStopFailed, &v, &i), Action::Delay);
    assert_eq!(c.phase(), Phase::Idle);
    assert_eq!(c.snapshot().len(), 2);
}

#[test]
fn failed_read_keeps_the_snapshot() {
    let (v, i) = (vendors(), index());
    let mut c = ScanCycleController::new();
    c.step(Event::Wake, &v, &i);
    c.step(Event::ScanStarted, &v, &i);
    c.step(Event::DwellElapsed, &v, &i);
    c.step(Event::Observed(vec![seen(1, Some("Kept"), None, Some(-80), vec![])]), &v, &i);
    c.step(Event::ScanStopped, &v, &i);
    assert_eq!(c.step(Event::Wake, &v, &i), Action::StartScan);
    assert_eq!(c.step(Event::ScanStarted, &v, &i), Action::Dwell);
    assert_eq!(c.step(Event::DwellElapsed, &v, &i), Action::Enumerate);
    assert_eq!(c.step(Event::ReadFailed, &v, &i), Action::Skip(CycleError::ScanRead));
    assert_eq!(c.phase(), Phase::Publishing);
    assert_eq!(c.snapshot().len(), 1);
    assert_eq!(c.snapshot()[0].display_name, Some("Kept".to_string()));
    assert_eq!(c.step(Event::ScanStopped, &v, &i), Action::Delay);
    assert_eq!(c.phase(), Phase::Idle);
    assert_eq!(c.step(Event::Wake, &v, &i), Action::StartScan);
}

#[test]
fn failed_start_gives_up_the_loop() {
    let (v, i) = (vendors(), index());
    let mut c = ScanCycleController::new();
    c.step(Event::Wake, &v, &i);
    assert_eq!(c.step(Event::ScanStartFailed, &v, &i), Action::Fail(CycleError::ScanStart));
    assert_eq!(c.phase(), Phase::Idle);
}

#[test]
fn events_out_of_phase_are_ignored() {
    let (v, i) = (vendors(), index());
    let mut c = ScanCycleController::new();
    assert_eq!(c.step(Event::ScanStarted, &v, &i), Action::Ignore);
    assert_eq!(c.step(Event::Observed(vec![seen(1, None, None, None, vec![])]), &v, &i), Action::Ignore);
    assert_eq!(c.step(Event::ReadFailed, &v, &i), Action::Ignore);
    assert_eq!(c.phase(), Phase::Idle);
    assert_eq!(c.snapshot().len(), 0);
    c.step(Event::Wake, &v, &i);
    assert_eq!(c.step(Event::Wake, &v, &i), Action::Ignore);
    assert_eq!(c.step(Event::DwellElapsed, &v, &i), Action::Ignore);
    assert_eq!(c.phase(), Phase::Scanning);
}

fn file(name: &str, text: &str) -> ReferenceFile {
    ReferenceFile { name: name.to_string(), text: text.to_string() }
}

fn name(s: &str) -> Vec<char> {
    s.chars().collect()
}

#[test]
fn names_are_ordered_as_in_a_dictionary() {
    assert!(comes_before(&name("a"), &name("b")));
    assert!(!comes_before(&name("b"), &name("a")));
    assert!(comes_before(&name("a"), &name("ab")));
    assert!(!comes_before(&name("ab"), &name("a")));
    assert!(!comes_before(&name("same"), &name("same")));
    assert!(comes_before(&name(""), &name("x")));
    assert!(!comes_before(&name(""), &name("")));
    assert!(comes_before(&name("B.txt"), &name("a.txt")));
    assert!(comes_before(&name("file10"), &name("file9")));
}

#[test]
fn least_named_file_is_found() {
    assert_eq!(least_file(&vec![file("b", ""), file("a", ""), file("c", "")]), 1);
    assert_eq!(least_file(&vec![file("x", "")]), 0);
    assert_eq!(least_file(&vec![file("k", "1"), file("k", "2")]), 0);
    assert_eq!(least_file(&vec![file("c", ""), file("b", ""), file("a", "")]), 2);
}

#[test]
fn files_are_searched_in_the_order_of_their_names() {
    let idx = ServiceDescriptorIndex::from_files(vec![
        file("c.txt", "id 1234\nThird\nid 9999\nOnly here"),
        file("a.txt", "id 0000\nZero"),
        file("b.txt", "id 1234\nSecond"),
    ]);
    assert_eq!(idx.file_count(), 3);
    assert_eq!(idx.lookup("1234"), Some("Second".to_string()));
    assert_eq!(idx.lookup("9999"), Some("Only here".to_string()));
    assert_eq!(idx.lookup("0000"), Some("Zero".to_string()));
    assert_eq!(idx.lookup("5555"), None);
    let none = ServiceDescriptorIndex::from_files(Vec::new());
    assert_eq!(none.file_count(), 0);
}
