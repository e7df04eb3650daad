//! The trusted boundary to the `http` crate.
//!
//! The raw store (`http::HeaderMap`), field names (`http::HeaderName`) and
//! field values (`http::HeaderValue`) are opaque outside types. Their
//! contents are named by the uninterpreted functions [`hn_bytes`],
//! [`hv_bytes`] and [`map_entries`]; each wrapper below makes exactly one
//! `http` call and states over those names what the crate's source shows.

use vstd::prelude::*;
use vstd::string::StringSliceAdditionalSpecFns;
use vstd::utf8::valid_utf8;
use crate::grammar::{all_str_bytes, all_value_bytes, http_name_seq, lower_seq, valid_name_seq};

verus! {

#[verifier::external_type_specification]
#[verifier::external_body]
pub struct ExHeaderName(http::header::HeaderName);

#[verifier::external_type_specification]
#[verifier::external_body]
pub struct ExHeaderValue(http::header::HeaderValue);

#[verifier::external_type_specification]
#[verifier::external_body]
#[verifier::reject_recursive_types(T)]
pub struct ExHeaderMap<T>(http::HeaderMap<T>);

/// The bytes a `HeaderName` holds (always lowercase token characters).
pub uninterp spec fn hn_bytes(n: http::header::HeaderName) -> Seq<u8>;

/// The bytes a `HeaderValue` holds.
pub uninterp spec fn hv_bytes(v: http::header::HeaderValue) -> Seq<u8>;

/// What a `HeaderMap` associates: each stored (lowercase) field name to
/// its raw values, in insertion order. Order between distinct names is
/// not modelled.
pub uninterp spec fn map_entries(m: http::HeaderMap<http::header::HeaderValue>) -> Map<
    Seq<u8>,
    Seq<Seq<u8>>,
>;

/// The raw values stored under one field name; empty if the name is absent.
pub open spec fn stored_values(m: http::HeaderMap<http::header::HeaderValue>, name: Seq<u8>) -> Seq<
    Seq<u8>,
> {
    if map_entries(m).dom().contains(name) {
        map_entries(m)[name]
    } else {
        Seq::empty()
    }
}

/// Relies on http::HeaderName::from_bytes: it accepts one to 65535 token
/// bytes, folding uppercase letters to lowercase, and rejects anything
/// else.
#[verifier::external_body]
pub fn hn_from_bytes(src: &[u8]) -> (r: Option<http::header::HeaderName>)
    ensures
        r is Some <==> valid_name_seq(src@),
        r matches Some(n) ==> hn_bytes(n) == lower_seq(src@),
{
    http::header::HeaderName::from_bytes(src).ok()
}

/// Relies on http::HeaderName::as_str: the name's bytes. Every
/// constructor of the http crate validates them against one of its two
/// character tables, whose union accepts the token bytes and the double
/// quote, maps uppercase to lowercase or rejects it, and bounds the
/// length at one to 65535 — so no more than that may be claimed here.
#[verifier::external_body]
pub fn hn_to_bytes(n: &http::header::HeaderName) -> (r: Vec<u8>)
    ensures
        r@ == hn_bytes(*n),
        http_name_seq(r@),
{
    n.as_str().as_bytes().to_vec()
}

/// Relies on http::HeaderValue::from_bytes: it accepts any byte from 32
/// up except DEL, plus horizontal tab, and the value then holds exactly
/// the given bytes.
#[verifier::external_body]
pub fn hv_from_bytes(src: &[u8]) -> (r: Option<http::header::HeaderValue>)
    ensures
        r is Some <==> all_value_bytes(src@),
        r matches Some(v) ==> hv_bytes(v) == src@,
{
    http::header::HeaderValue::from_bytes(src).ok()
}

/// Relies on http::HeaderValue::as_bytes: the value's bytes.
#[verifier::external_body]
pub fn hv_as_bytes(v: &http::header::HeaderValue) -> (r: &[u8])
    ensures
        r@ == hv_bytes(*v),
{
    v.as_bytes()
}

/// Relies on Clone for http::HeaderValue: the clone holds the same bytes.
pub assume_specification[ <http::header::HeaderValue as Clone>::clone ](
    v: &http::header::HeaderValue,
) -> (r: http::header::HeaderValue)
    ensures
        hv_bytes(r) == hv_bytes(*v),
;

/// Relies on PartialEq for http::HeaderValue, which compares the bytes.
pub assume_specification[ <http::header::HeaderValue as PartialEq>::eq ](
    a: &http::header::HeaderValue,
    b: &http::header::HeaderValue,
) -> (r: bool)
    ensures
        r == (hv_bytes(*a) == hv_bytes(*b)),
;

#[verifier::external_type_specification]
#[verifier::external_body]
pub struct ExUtf8Error(core::str::Utf8Error);

/// Relies on str::from_utf8 of std: it succeeds exactly on valid UTF-8
/// and then returns the same bytes as text.
pub assume_specification[ core::str::from_utf8 ](v: &[u8]) -> (r: Result<
    &str,
    core::str::Utf8Error,
>)
    ensures
        r is Ok <==> valid_utf8(v@),
        r matches Ok(s) ==> s.spec_bytes() == v@,
;

/// Relies on http::HeaderValue::to_str: it succeeds exactly when every
/// byte is visible ASCII, space or tab, and then returns those bytes as
/// text.
#[verifier::external_body]
pub fn hv_to_str<'a>(v: &'a http::header::HeaderValue) -> (r: Option<&'a str>)
    ensures
        r is Some <==> all_str_bytes(hv_bytes(*v)),
        r matches Some(s) ==> s.spec_bytes() == hv_bytes(*v),
{
    v.to_str().ok()
}

/// Relies on http::HeaderValue::from_static, which panics unless every
/// byte is visible ASCII, space or tab.
#[verifier::external_body]
pub fn hv_from_static(s: &'static str) -> (r: http::header::HeaderValue)
    requires
        all_str_bytes(s.spec_bytes()),
    ensures
        hv_bytes(r) == s.spec_bytes(),
{
    http::header::HeaderValue::from_static(s)
}

/// Relies on http::HeaderMap::get_all, whose iterator yields the values
/// stored under the name in insertion order.
#[verifier::external_body]
pub fn map_get_all(
    m: &http::HeaderMap<http::header::HeaderValue>,
    n: &http::header::HeaderName,
) -> (r: Vec<http::header::HeaderValue>)
    ensures
        r@.map_values(|v: http::header::HeaderValue| hv_bytes(v)) == stored_values(
            *m,
            hn_bytes(*n),
        ),
{
    m.get_all(n).iter().cloned().collect()
}

/// Relies on http::HeaderMap::try_insert: on success every value
/// previously stored under the name is replaced by the one given; on
/// failure (the map is at its maximum size) the stored associations are
/// unchanged.
#[verifier::external_body]
pub fn map_try_insert(
    m: &mut http::HeaderMap<http::header::HeaderValue>,
    n: &http::header::HeaderName,
    v: http::header::HeaderValue,
) -> (ok: bool)
    ensures
        ok ==> map_entries(*final(m)) == map_entries(*old(m)).insert(
            hn_bytes(*n),
            seq![hv_bytes(v)],
        ),
        !ok ==> map_entries(*final(m)) == map_entries(*old(m)),
{
    m.try_insert(n, v).is_ok()
}

/// Relies on http::HeaderMap::try_append: on success the value is added
/// at the end of the list stored under the name, a fresh one-element list
/// if the name was absent; on failure the stored associations are
/// unchanged.
#[verifier::external_body]
pub fn map_try_append(
    m: &mut http::HeaderMap<http::header::HeaderValue>,
    n: &http::header::HeaderName,
    v: http::header::HeaderValue,
) -> (ok: bool)
    ensures
        ok ==> map_entries(*final(m)) == map_entries(*old(m)).insert(
            hn_bytes(*n),
            stored_values(*old(m), hn_bytes(*n)).push(hv_bytes(v)),
        ),
        !ok ==> map_entries(*final(m)) == map_entries(*old(m)),
{
    m.try_append(n, v).is_ok()
}

} // verus!
