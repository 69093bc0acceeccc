use wasm_proxy::string_map::StringMap;
use wasm_proxy::text::{
    decimal_text, ends_with, parse_u64, same_bytes, same_text, starts_with, trim_slashes,
};

#[test]
fn texts_are_compared_by_content() {
    assert!(same_text("/admin", "/admin"));
    assert!(same_text("", ""));
    assert!(!same_text("/admin", "/admix"));
    assert!(!same_text("/admin", "/admin/"));
    assert!(same_bytes(b"\x00\xff", &[0, 255]));
    assert!(!same_bytes(b"a", b""));
}

#[test]
fn prefixes_are_found() {
    assert!(starts_with("/api/users", "/api"));
    assert!(starts_with("/api", "/api"));
    assert!(starts_with("/api", ""));
    assert!(starts_with("/été", "/é"));
    assert!(!starts_with("/ap", "/api"));
    assert!(!starts_with("/API", "/api"));
}

#[test]
fn suffixes_are_found() {
    assert!(ends_with("plugins/guard.wat", ".wat"));
    assert!(ends_with(".wat", ".wat"));
    assert!(ends_with("été", "té"));
    assert!(ends_with("", ""));
    assert!(!ends_with("guard.wat ", ".wat"));
    assert!(!ends_with("guard.WAT", ".wat"));
    assert!(!ends_with("wat", ".wat"));
}

#[test]
fn slashes_are_trimmed_at_the_end_only() {
    assert_eq!(trim_slashes("http://h:1/"), "http://h:1");
    assert_eq!(trim_slashes("http://h:1///"), "http://h:1");
    assert_eq!(trim_slashes("//a/b"), "//a/b");
    assert_eq!(trim_slashes("é/"), "é");
    assert_eq!(trim_slashes("///"), "");
    assert_eq!(trim_slashes(""), "");
}

#[test]
fn numbers_are_written_in_decimal() {
    assert_eq!(decimal_text(0), "0");
    assert_eq!(decimal_text(7), "7");
    assert_eq!(decimal_text(10), "10");
    assert_eq!(decimal_text(503), "503");
    assert_eq!(decimal_text(u64::MAX), "18446744073709551615");
}

#[test]
fn numbers_are_read_from_decimal() {
    assert_eq!(parse_u64(b"0"), Some(0));
    assert_eq!(parse_u64(b"1024"), Some(1024));
    assert_eq!(parse_u64(b"+7"), Some(7));
    assert_eq!(parse_u64(b"007"), Some(7));
    assert_eq!(parse_u64(b"18446744073709551615"), Some(u64::MAX));
    assert_eq!(parse_u64(b"18446744073709551616"), None);
    assert_eq!(parse_u64(b"99999999999999999999"), None);
    assert_eq!(parse_u64(b""), None);
    assert_eq!(parse_u64(b"+"), None);
    assert_eq!(parse_u64(b"++1"), None);
    assert_eq!(parse_u64(b"-1"), None);
    assert_eq!(parse_u64(b" 1"), None);
    assert_eq!(parse_u64(b"1a"), None);
}

#[test]
fn numbers_are_read_as_the_standard_library_reads_them() {
    for text in ["0", "+0", "00000000000000000000000000001", "12 ", "1_0", "18446744073709551614"] {
        assert_eq!(parse_u64(text.as_bytes()), text.parse::<u64>().ok());
    }
}

fn map_of(pairs: &[(&str, &str)]) -> StringMap {
    let mut map = StringMap::new();
    for (key, value) in pairs {
        map.insert(key.to_string(), value.to_string());
    }
    map
}

#[test]
fn the_last_value_of_a_key_stays() {
    let map = map_of(&[("a", "1"), ("b", "2"), ("a", "3")]);
    assert_eq!(map.len(), 2);
    assert_eq!(map.get("a"), Some("3"));
    assert_eq!(map.get("b"), Some("2"));
    assert_eq!(map.get("c"), None);
    assert_eq!(map.key(0), "a");
    assert_eq!(map.value(0), "3");
    assert_eq!(map.key(1), "b");
}

#[test]
fn extending_prefers_the_other_map() {
    let mut map = map_of(&[("a", "1"), ("b", "2")]);
    map.extend(&map_of(&[("b", "3"), ("c", "4")]));
    assert_eq!(map.len(), 3);
    assert_eq!(map.get("a"), Some("1"));
    assert_eq!(map.get("b"), Some("3"));
    assert_eq!(map.get("c"), Some("4"));
    map.extend(&StringMap::new());
    assert_eq!(map.len(), 3);
}
