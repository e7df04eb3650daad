use http::header::{HeaderMap, HeaderValue};
use typed_headers::{AccessControlAllowHeaders, Header, HeaderMapExt, Referer};

fn test_decode<H: Header>(values: &[&str]) -> Option<H> {
    let mut map = HeaderMap::new();
    let name = H::name();
    for v in values {
        map.append(&name, HeaderValue::from_str(v).unwrap());
    }
    map.typed_get::<H>()
}

fn test_encode<H: Header>(header: H) -> HeaderMap {
    let mut map = HeaderMap::new();
    assert!(map.typed_insert(header));
    map
}

#[test]
fn iter() {
    let allow_headers = test_decode::<AccessControlAllowHeaders>(&["foo, bar"]).unwrap();

    let as_vec = allow_headers.iter();
    assert_eq!(as_vec.len(), 2);
    assert_eq!(as_vec[0], "foo");
    assert_eq!(as_vec[1], "bar");
}

#[test]
fn from_iter() {
    let allow = AccessControlAllowHeaders::from_iter(vec![
        http::header::CACHE_CONTROL,
        http::header::IF_RANGE,
    ]);

    let headers = test_encode(allow);
    assert_eq!(
        headers["access-control-allow-headers"],
        "cache-control, if-range"
    );
}

#[test]
fn test_with_invalid() {
    let allow_headers = test_decode::<AccessControlAllowHeaders>(&["foo foo, bar"]);

    assert!(allow_headers.is_none());
}

#[test]
fn referer_round_trip_exact_value() {
    let r = Referer::from_static("/People.html#tim");
    let mut map = HeaderMap::new();
    assert!(map.typed_insert(r));

    let stored: Vec<&HeaderValue> = map.get_all(http::header::REFERER).iter().collect();
    assert_eq!(stored.len(), 1);
    assert_eq!(stored[0], "/People.html#tim");

    let back = map.typed_get::<Referer>().unwrap();
    assert_eq!(back.as_str(), "/People.html#tim");
    assert_eq!(back, Referer::from_static("/People.html#tim"));
}

#[test]
fn allow_headers_round_trip() {
    let allow = AccessControlAllowHeaders::from_iter(vec![
        http::header::CACHE_CONTROL,
        http::header::CONTENT_TYPE,
    ]);
    let map = test_encode(allow);

    let back = map.typed_get::<AccessControlAllowHeaders>().unwrap();
    let as_vec = back.iter();
    assert_eq!(as_vec.len(), 2);
    assert_eq!(as_vec[0], "cache-control");
    assert_eq!(as_vec[1], "content-type");
}

#[test]
fn replace_not_duplicate() {
    let mut map = HeaderMap::new();
    let first = AccessControlAllowHeaders::from_iter(vec![http::header::CACHE_CONTROL]);
    let second = AccessControlAllowHeaders::from_iter(vec![http::header::IF_RANGE]);
    assert!(map.typed_insert(first));
    assert!(map.typed_insert(second));

    let stored: Vec<&HeaderValue> = map
        .get_all(http::header::ACCESS_CONTROL_ALLOW_HEADERS)
        .iter()
        .collect();
    assert_eq!(stored.len(), 1);
    assert_eq!(stored[0], "if-range");
}

#[test]
fn exhaustiveness_two_values() {
    let mut map = HeaderMap::new();
    map.append(http::header::REFERER, HeaderValue::from_static("foo"));
    map.append(http::header::REFERER, HeaderValue::from_static("bar"));

    assert!(map.typed_get::<Referer>().is_none());
}

#[test]
fn list_codec_equivalence() {
    let joined = test_decode::<AccessControlAllowHeaders>(&["a, b"]).unwrap();
    let spread = test_decode::<AccessControlAllowHeaders>(&["a", "b"]).unwrap();

    assert_eq!(joined, spread);
    let joined_vec = joined.iter();
    let spread_vec = spread.iter();
    assert_eq!(joined_vec, spread_vec);
    assert_eq!(joined_vec.len(), 2);
    assert_eq!(joined_vec[0], "a");
    assert_eq!(joined_vec[1], "b");
}

#[test]
fn absent_is_none() {
    let map = HeaderMap::new();
    assert!(map.typed_get::<Referer>().is_none());
    assert!(map.typed_get::<AccessControlAllowHeaders>().is_none());
}

#[test]
fn empty_value_rejected() {
    let allow_headers = test_decode::<AccessControlAllowHeaders>(&[""]);
    assert!(allow_headers.is_none());
}

#[test]
fn uppercase_names_folded() {
    let allow_headers = test_decode::<AccessControlAllowHeaders>(&["X-Custom-Header"]).unwrap();
    let as_vec = allow_headers.iter();
    assert_eq!(as_vec.len(), 1);
    assert_eq!(as_vec[0], "x-custom-header");
}

#[test]
fn whitespace_around_items_trimmed() {
    let allow_headers = test_decode::<AccessControlAllowHeaders>(&["  foo\t,  bar "]).unwrap();
    let as_vec = allow_headers.iter();
    assert_eq!(as_vec.len(), 2);
    assert_eq!(as_vec[0], "foo");
    assert_eq!(as_vec[1], "bar");
}

#[test]
fn from_iter_drops_non_token_names() {
    let quoted = http::header::HeaderName::from_lowercase(b"a\"b").unwrap();
    let allow = AccessControlAllowHeaders::from_iter(vec![
        http::header::CACHE_CONTROL,
        quoted,
    ]);

    let as_vec = allow.iter();
    assert_eq!(as_vec.len(), 1);
    assert_eq!(as_vec[0], "cache-control");
}

#[test]
fn referer_rejects_opaque_bytes() {
    let mut map = HeaderMap::new();
    map.append(
        http::header::REFERER,
        HeaderValue::from_bytes(&[104, 105, 0x80]).unwrap(),
    );

    assert!(map.typed_get::<Referer>().is_none());
}
