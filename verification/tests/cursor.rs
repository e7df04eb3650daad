use http::header::HeaderValue;
use typed_headers::{HeaderValueString, Values};

#[test]
fn cursor_front_and_back() {
    let vals = vec![
        HeaderValue::from_static("a"),
        HeaderValue::from_static("b"),
        HeaderValue::from_static("c"),
    ];
    let mut cursor = Values::new(vals);
    assert_eq!(cursor.size_hint(), (3, Some(3)));
    assert!(cursor.exhaustion_required());

    assert_eq!(cursor.next().unwrap(), "a");
    assert_eq!(cursor.next_back().unwrap(), "c");
    assert_eq!(cursor.size_hint(), (1, Some(1)));
    assert_eq!(cursor.next().unwrap(), "b");
    assert!(cursor.next().is_none());
    assert!(cursor.next_back().is_none());
    assert!(cursor.is_exhausted());
}

#[test]
fn cursor_skip_exhaustive_check() {
    let vals = vec![HeaderValue::from_static("a")];
    let mut cursor = Values::new(vals);
    assert!(cursor.exhaustion_required());
    cursor.skip_exhaustive_iter_check();
    assert!(!cursor.exhaustion_required());
    assert_eq!(cursor.size_hint(), (1, Some(1)));
}

#[test]
fn value_string_from_string() {
    let ok = HeaderValueString::from_string(String::from("hello")).unwrap();
    assert_eq!(ok.as_str(), "hello");

    let non_ascii = HeaderValueString::from_string(String::from("caf\u{e9}")).unwrap();
    assert_eq!(non_ascii.as_str(), "caf\u{e9}");

    assert!(HeaderValueString::from_string(String::from("bad\nvalue")).is_none());
}

#[test]
fn value_string_from_val() {
    let text = HeaderValue::from_static("some text");
    let s = HeaderValueString::from_val(&text).unwrap();
    assert_eq!(s.as_str(), "some text");
    assert_eq!(s.to_value(), text);

    let opaque = HeaderValue::from_bytes(&[0xfa]).unwrap();
    assert!(HeaderValueString::from_val(&opaque).is_none());
}

#[test]
fn value_string_from_static() {
    let s = HeaderValueString::from_static("/index.html");
    assert_eq!(s.as_str(), "/index.html");
}

#[test]
fn try_from_values_takes_one() {
    let vals = vec![
        HeaderValue::from_static("first"),
        HeaderValue::from_static("second"),
    ];
    let mut cursor = Values::new(vals);
    let s = HeaderValueString::try_from_values(&mut cursor).unwrap();
    assert_eq!(s.as_str(), "first");
    assert_eq!(cursor.size_hint(), (1, Some(1)));
}
