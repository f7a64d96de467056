use ble_scanner::address::HardwareAddress;
use ble_scanner::text::{contains_text, join_fields, scan, split_fields, split_lines, to_chars, to_text, Stop};
use ble_scanner::vendor::{find_vendor, load_mac_vendor_map, prefix_string, read_prefix, VendorTable};

fn chars_of(s: &str) -> Vec<char> {
    s.chars().collect()
}

fn addr(o: [u8; 6]) -> HardwareAddress {
    HardwareAddress::from_octets(o)
}

#[test]
fn chars_round_trip() {
    let v = to_chars("héllo\tx");
    assert_eq!(v, chars_of("héllo\tx"));
    assert_eq!(to_text(&v), "héllo\tx".to_string());
    assert_eq!(to_chars(""), Vec::<char>::new());
}

#[test]
fn scan_stops_where_it_should() {
    let v = chars_of("ab  cd\nef");
    assert_eq!(scan(&v, 0, Stop::Space), 2);
    assert_eq!(scan(&v, 2, Stop::NonSpace), 4);
    assert_eq!(scan(&v, 0, Stop::LineFeed), 6);
    assert_eq!(scan(&v, 7, Stop::LineFeed), 9);
    assert_eq!(scan(&v, 9, Stop::Space), 9);
}

#[test]
fn lines_are_split_at_line_feeds() {
    let lines = split_lines(&chars_of("one\ntwo\r\n\nlast"));
    assert_eq!(lines, vec![chars_of("one"), chars_of("two"), chars_of(""), chars_of("last")]);
    let closed = split_lines(&chars_of("one\n"));
    assert_eq!(closed, vec![chars_of("one")]);
    assert_eq!(split_lines(&chars_of("")), Vec::<Vec<char>>::new());
    assert_eq!(split_lines(&chars_of("\n")), vec![chars_of("")]);
}

#[test]
fn fields_are_runs_between_separators() {
    let fields = split_fields(&chars_of("  AA:BB:CC\t(hex)\t\tAcme   Corp \r"));
    assert_eq!(
        fields,
        vec![chars_of("AA:BB:CC"), chars_of("(hex)"), chars_of("Acme"), chars_of("Corp")]
    );
    assert_eq!(split_fields(&chars_of(" \t ")), Vec::<Vec<char>>::new());
    assert_eq!(split_fields(&chars_of("")), Vec::<Vec<char>>::new());
}

#[test]
fn fields_join_with_single_spaces() {
    let fields = vec![chars_of("a"), chars_of("b"), chars_of("cd"), chars_of("e")];
    assert_eq!(join_fields(&fields, 2), chars_of("cd e"));
    assert_eq!(join_fields(&fields, 3), chars_of("e"));
    assert_eq!(join_fields(&fields, 4), chars_of(""));
    assert_eq!(join_fields(&fields, 0), chars_of("a b cd e"));
}

#[test]
fn substring_search_is_exact() {
    assert!(contains_text(&chars_of("0x180F Battery"), &chars_of("180F")));
    assert!(!contains_text(&chars_of("0x180F Battery"), &chars_of("180f")));
    assert!(contains_text(&chars_of("abc"), &chars_of("")));
    assert!(contains_text(&chars_of("abc"), &chars_of("abc")));
    assert!(contains_text(&chars_of("aab"), &chars_of("ab")));
    assert!(!contains_text(&chars_of("ab"), &chars_of("abc")));
}

#[test]
fn prefix_fields_are_read_in_either_case() {
    assert_eq!(read_prefix(&chars_of("AA:BB:CC")), Some(0xAABBCC));
    assert_eq!(read_prefix(&chars_of("aa:bB:0c")), Some(0xAABB0C));
    assert_eq!(read_prefix(&chars_of("00:00:00")), Some(0));
    assert_eq!(read_prefix(&chars_of("AA-BB-CC")), None);
    assert_eq!(read_prefix(&chars_of("AA:BB:C")), None);
    assert_eq!(read_prefix(&chars_of("AA:BB:CG")), None);
    assert_eq!(read_prefix(&chars_of("00:1B:C5:00:00/36")), None);
}

#[test]
fn address_numbers() {
    let a = addr([0xAA, 0xBB, 0xCC, 0x11, 0x22, 0x33]);
    assert_eq!(a.to_value(), 0xAABBCC112233);
    assert_eq!(a.prefix_key(), 0xAABBCC);
    assert_eq!(HardwareAddress::from_value(0xAABBCC112233), Some(a));
    assert_eq!(HardwareAddress::from_value(0xFFFF_FFFF_FFFF).map(|x| x.prefix_key()), Some(0xFFFFFF));
    assert_eq!(HardwareAddress::from_value(0x1_0000_0000_0000), None);
    assert!(a.same(&addr([0xAA, 0xBB, 0xCC, 0x11, 0x22, 0x33])));
    assert!(!a.same(&addr([0xAA, 0xBB, 0xCC, 0x11, 0x22, 0x34])));
}

#[test]
fn vendor_of_acme_dataset() {
    let table = VendorTable::build("AA:BB:CC\t(hex)\tAcme Corp");
    assert_eq!(
        table.lookup(&addr([0xAA, 0xBB, 0xCC, 0x11, 0x22, 0x33])),
        Some("Acme Corp".to_string())
    );
    assert_eq!(table.lookup(&addr([0xAA, 0xBB, 0xDD, 0x11, 0x22, 0x33])), None);
}

#[test]
fn vendor_lookup_is_exact() {
    let table = VendorTable::build("AA:BB:CC Acme AcmeCorp\n");
    assert_eq!(table.lookup(&addr([0xAA, 0xBB, 0xCC, 0, 0, 0])), Some("AcmeCorp".to_string()));
    assert_eq!(table.lookup(&addr([0xAA, 0xBB, 0xCC, 0xFF, 0xFF, 0xFF])), Some("AcmeCorp".to_string()));
    assert_eq!(table.lookup(&addr([0xAA, 0xBB, 0xCD, 0, 0, 0])), None);
    assert_eq!(table.lookup(&addr([0xAB, 0xBB, 0xCC, 0, 0, 0])), None);
    assert_eq!(table.lookup(&addr([0xCC, 0xBB, 0xAA, 0xAA, 0xBB, 0xCC])), None);
}

#[test]
fn vendor_dataset_lines() {
    let text = "# AA:BB:CC x Commented Out\n\n   \n00:00:0C\tCisco\tCisco Systems,   Inc\r\n\
                00:00:0D Short\n11:22:33 a First\n11:22:33 b Second  Name\nab:cd:ef x Lower\n\
                00:1B:C5:00:00/36 x Longer Prefix";
    let table = load_mac_vendor_map(text);
    assert_eq!(find_vendor(&table, &addr([0xAA, 0xBB, 0xCC, 1, 2, 3])), None);
    assert_eq!(
        find_vendor(&table, &addr([0x00, 0x00, 0x0C, 1, 2, 3])),
        Some("Cisco Systems, Inc".to_string())
    );
    assert_eq!(find_vendor(&table, &addr([0x00, 0x00, 0x0D, 1, 2, 3])), None);
    assert_eq!(find_vendor(&table, &addr([0x11, 0x22, 0x33, 1, 2, 3])), Some("Second Name".to_string()));
    assert_eq!(find_vendor(&table, &addr([0xAB, 0xCD, 0xEF, 1, 2, 3])), Some("Lower".to_string()));
    assert_eq!(find_vendor(&table, &addr([0x00, 0x1B, 0xC5, 0, 0, 0])), None);
}

#[test]
fn empty_vendor_table_knows_nobody() {
    let table = VendorTable::empty();
    assert_eq!(table.lookup(&addr([0, 0, 0, 0, 0, 0])), None);
    let built = VendorTable::build("");
    assert_eq!(built.lookup(&addr([0, 0, 0, 0, 0, 0])), None);
}

#[test]
fn prefix_text_is_upper_case_with_colons() {
    assert_eq!(prefix_string(&addr([0xAA, 0xBB, 0xCC, 0x11, 0x22, 0x33])), "AA:BB:CC".to_string());
    assert_eq!(prefix_string(&addr([0x00, 0x1b, 0xf9, 0xde, 0xad, 0x00])), "00:1B:F9".to_string());
    let text: Vec<char> = prefix_string(&addr([0x0a, 0x90, 0x7f, 0, 0, 0])).chars().collect();
    assert_eq!(read_prefix(&text), Some(0x0A907F));
}
