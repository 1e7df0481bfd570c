use lianli_link::bytes::{append_bytes, read_be16, same_bytes, same_mac, slice_of};
use lianli_link::table::{IdSet, Table};
use lianli_link::text::{
    decimal_text, hex4_text, parse_byte, parse_ports, quoted_text, same_text, strip_prefix, trim,
    trim_prefix, truncated,
};
use lianli_link::topology::{flex_receiver_slot, same_hub, same_location};

#[test]
fn numbers_are_written_and_read_as_the_standard_library_does() {
    for n in 0..=u8::MAX {
        assert_eq!(parse_byte(&decimal_text(n.into())), Some(n));
    }
    for n in (0..1100).chain([65_535, 1_000_000, u32::MAX]) {
        assert_eq!(decimal_text(n), n.to_string());
    }
    for text in ["", "a", "\"", "\\", "a\"b\\", "\\\"", "\u{e9}|\u{754c}"] {
        assert_eq!(quoted_text(text), format!("{text:?}"));
    }
    for n in 0..=u16::MAX {
        assert_eq!(hex4_text(n), format!("{n:04x}"));
    }
    for text in ["", "+", "-", "-0", "+7", "007", "255", "256", "1000", "0x1", " 1", "1 ", "\u{0661}"] {
        assert_eq!(parse_byte(text), text.parse::<u8>().ok(), "{text:?}");
    }
}

#[test]
fn white_space_is_what_the_standard_library_says() {
    for c in (0..=0x10ffffu32).filter_map(char::from_u32) {
        let text = format!("{c}a{c}b{c}");
        assert_eq!(trim(&text), text.trim(), "{c:?}");
    }
    assert_eq!(trim(" \t\n "), "");
    assert_eq!(trim(""), "");
}

#[test]
fn port_paths_read_back() {
    for ports in [vec![1], vec![2, 7, 5], vec![0, 255, 10]] {
        let path = ports.iter().map(|port: &u8| port.to_string()).collect::<Vec<_>>().join(".");
        assert_eq!(parse_ports(&path), Some(ports));
    }
    assert_eq!(parse_ports(""), None);
    assert_eq!(parse_ports("1..2"), None);
    assert_eq!(parse_ports("1.2."), None);
    assert_eq!(parse_ports("1.300"), None);
}

#[test]
fn prefixes_and_limits_count_characters() {
    assert_eq!(strip_prefix("serial:a", "serial:"), Some("a"));
    assert_eq!(strip_prefix("serial", "serial:"), None);
    assert_eq!(trim_prefix("hid:a", "hid:"), "a");
    assert_eq!(trim_prefix("a", "hid:"), "a");
    assert_eq!(truncated("\u{754c}\u{754c}\u{754c}", 2), "\u{754c}\u{754c}");
    assert_eq!(truncated("ab", 2), "ab");
    assert!(same_text("\u{754c}", "\u{754c}"));
    assert!(!same_text("a", "ab"));
}

#[test]
fn tables_behave_as_maps() {
    let mut table: Table<String, u64> = Table::new();
    assert!(table.pop().is_none());
    table.insert("a".to_string(), 1);
    table.insert("b".to_string(), 2);
    table.insert("a".to_string(), 3);
    assert_eq!(table.len(), 2);
    assert_eq!(table.get(&"a".to_string()), Some(&3));
    assert_eq!(table.remove(&"b".to_string()), Some(2));
    assert_eq!(table.remove(&"b".to_string()), None);
    assert!(table.contains(&"a".to_string()));
    let (key, value) = table.entry(0);
    assert_eq!((key.as_str(), *value), ("a", 3));
    assert_eq!(table.pop(), Some(("a".to_string(), 3)));
    assert_eq!(table.len(), 0);
}

#[test]
fn sets_hold_each_identity_once() {
    let mut ids = IdSet::new();
    assert!(ids.is_empty());
    for id in ["a", "b", "a"] {
        ids.insert(id.to_string());
    }
    assert_eq!(ids.len(), 2);
    assert_eq!(ids.id(1), "b");
    let mut other = ids.copy();
    assert!(ids.same(&other));
    other.remove("c");
    assert!(ids.same(&other));
    other.remove("a");
    assert!(!ids.same(&other) && !other.same(&ids));
    other.insert("a".to_string());
    assert!(ids.same(&other));
}

#[test]
fn bytes_are_cut_joined_and_compared() {
    let mut bytes = vec![1, 2];
    append_bytes(&mut bytes, &[3, 4]);
    assert_eq!(slice_of(&bytes, 1, 3), vec![2, 3]);
    assert!(same_bytes(&bytes, &[1, 2, 3, 4]));
    assert!(!same_bytes(&bytes, &[1, 2, 3]));
    assert!(same_mac(&[1; 6], &[1; 6]));
    assert!(!same_mac(&[1; 6], &[1, 1, 1, 1, 1, 2]));
    assert_eq!(read_be16(0x12, 0x34), 0x1234);
}

#[test]
fn hubs_are_shared_both_ways() {
    let (a, b, c) = ((3, vec![2, 7, 5]), (3, vec![2, 7, 1]), (3, vec![2, 7, 9]));
    assert!(same_hub(&a, &b) && same_hub(&b, &a));
    assert!(same_hub(&b, &c) && same_hub(&a, &c));
    assert!(same_location(&a, &(3, vec![2, 7, 5])));
    assert!(!same_location(&a, &b));
    for port in 0..=9u8 {
        let slot = flex_receiver_slot(0xa019, &(3, vec![2, port]), 0x0104, &(3, vec![2, 9]));
        assert_eq!(slot, if (1..=4).contains(&port) { Some(port - 1) } else { None });
    }
}
