use hyper::header::{HeaderName, HeaderValue};
use hyper::HeaderMap;
use wasm_proxy::headers::{content_length, headers_to_map, set_headers, value_text};
use wasm_proxy::string_map::StringMap;

fn raw(headers: &[(&str, &[u8])]) -> HeaderMap {
    let mut map = HeaderMap::new();
    for (name, value) in headers {
        map.append(
            HeaderName::from_bytes(name.as_bytes()).unwrap(),
            HeaderValue::from_bytes(value).unwrap(),
        );
    }
    map
}

fn added(pairs: &[(&str, &str)]) -> StringMap {
    let mut map = StringMap::new();
    for (key, value) in pairs {
        map.insert(key.to_string(), value.to_string());
    }
    map
}

#[test]
fn a_declared_length_is_read() {
    assert_eq!(content_length(&raw(&[("Content-Length", b"1024")])), Some(1024));
    assert_eq!(content_length(&raw(&[("content-length", b"0")])), Some(0));
    assert_eq!(content_length(&raw(&[])), None);
    assert_eq!(content_length(&raw(&[("content-length", b"many")])), None);
    assert_eq!(content_length(&raw(&[("content-length", b"\xff")])), None);
    assert_eq!(content_length(&raw(&[("content-length", b"18446744073709551616")])), None);
    assert_eq!(content_length(&raw(&[("content-length", b"1"), ("content-length", b"2")])), Some(1));
    assert_eq!(content_length(&raw(&[("content-length", b"x"), ("content-length", b"2")])), None);
}

#[test]
fn a_value_is_text_if_every_byte_is_visible() {
    assert_eq!(value_text(b"a b\tc~").as_deref(), Some("a b\tc~"));
    assert_eq!(value_text(b"").as_deref(), Some(""));
    assert_eq!(value_text(b"\x7f"), None);
    assert_eq!(value_text("é".as_bytes()), None);
    assert_eq!(value_text(b"\n"), None);
}

#[test]
fn text_is_what_the_header_value_says() {
    for bytes in [&b"plain"[..], b"tab\t", b"high\x80", b"\xff", b"~ !"] {
        let value = HeaderValue::from_bytes(bytes).unwrap();
        assert_eq!(value_text(bytes).as_deref(), value.to_str().ok());
    }
}

#[test]
fn the_last_text_of_a_header_stays() {
    let map = headers_to_map(&raw(&[
        ("X-A", b"1"),
        ("x-a", b"2"),
        ("x-b", b"3"),
        ("x-b", b"\xff"),
        ("x-c", b"\xff"),
    ]));
    assert_eq!(map.len(), 2);
    assert_eq!(map.get("x-a"), Some("2"));
    assert_eq!(map.get("x-b"), Some("3"));
    assert_eq!(map.get("x-c"), None);
    assert_eq!(map.get("X-A"), None);
}

#[test]
fn set_headers_replace_earlier_ones() {
    let mut headers = raw(&[("x-a", b"1"), ("x-a", b"2"), ("x-b", b"3")]);
    assert!(set_headers(&mut headers, &added(&[("X-A", "new"), ("x-c", "4")])));
    let values: Vec<_> = headers.get_all("x-a").iter().collect();
    assert_eq!(values, ["new"]);
    assert_eq!(headers.get("x-b").unwrap(), "3");
    assert_eq!(headers.get("x-c").unwrap(), "4");
    assert_eq!(headers.len(), 3);
}

#[test]
fn invalid_headers_are_passed_over() {
    let mut headers = raw(&[("x-a", b"1")]);
    let invalid = added(&[
        ("", "v"),
        ("two words", "v"),
        ("colon:", "v"),
        ("quote\"", "v"),
        ("é", "v"),
        ("x-line", "a\nb"),
        ("x-del", "\u{7f}"),
        ("x-a", "\0"),
    ]);
    assert!(set_headers(&mut headers, &invalid));
    assert_eq!(headers.len(), 1);
    assert_eq!(headers.get("x-a").unwrap(), "1");
}

#[test]
fn unusual_headers_are_set() {
    let mut headers = HeaderMap::new();
    let unusual = added(&[("!#$%&'*+-.^_`|~09", "tab\t"), ("x-text", "é"), ("x-empty", "")]);
    assert!(set_headers(&mut headers, &unusual));
    assert_eq!(headers.get("!#$%&'*+-.^_`|~09").unwrap(), "tab\t");
    assert_eq!(headers.get("x-text").unwrap().as_bytes(), "é".as_bytes());
    assert_eq!(headers.get("x-empty").unwrap(), "");
}

#[test]
fn two_spellings_of_a_name_are_one_header() {
    let mut headers = HeaderMap::new();
    assert!(set_headers(&mut headers, &added(&[("X-A", "1"), ("x-a", "2")])));
    let values: Vec<_> = headers.get_all("x-a").iter().collect();
    assert_eq!(values, ["2"]);
}

#[test]
fn a_header_map_has_a_limit() {
    let mut many = StringMap::new();
    for i in 0..6554 {
        many.insert(format!("n{i}"), "v".to_string());
    }
    let mut headers = HeaderMap::new();
    assert!(set_headers(&mut headers, &many));
    assert_eq!(headers.len(), 6554);
}
