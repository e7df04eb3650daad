//! A value that is both a legal raw header value and a valid `String`.

use vstd::prelude::*;
use vstd::string::StringSliceAdditionalSpecFns;
use vstd::utf8::{encode_utf8, encode_utf8_valid_utf8, valid_utf8};
use crate::grammar::{all_str_bytes, all_value_bytes, is_str_byte, is_value_byte};
use crate::raw::{hv_as_bytes, hv_bytes, hv_from_bytes, hv_from_static, hv_to_str};
use crate::values::Values;

verus! {

/// A raw header value validated, once, to be valid UTF-8 text.
///
/// Construction goes through a single checked path, so reading the value
/// back as text never re-validates and never fails.
#[derive(Clone, Debug, PartialEq)]
pub struct HeaderValueString {
    value: http::header::HeaderValue,
}

impl View for HeaderValueString {
    type V = Seq<u8>;

    closed spec fn view(&self) -> Seq<u8> {
        hv_bytes(self.value)
    }
}

impl HeaderValueString {
    /// The bytes are a legal raw header value and valid UTF-8;
    /// established by every constructor.
    pub open spec fn wf(self) -> bool {
        all_value_bytes(self@) && valid_utf8(self@)
    }

    /// Accept a raw value that is valid visible-ASCII text, verbatim.
    pub fn from_val(val: &http::header::HeaderValue) -> (r: Option<HeaderValueString>)
        ensures
            r is Some <==> all_str_bytes(hv_bytes(*val)),
            r matches Some(s) ==> s@ == hv_bytes(*val) && s.wf(),
    {
        match hv_to_str(val) {
            Some(text) => {
                proof {
                    encode_utf8_valid_utf8(text@);
                    assert forall|i: int| 0 <= i < hv_bytes(*val).len() implies is_value_byte(
                        #[trigger] hv_bytes(*val)[i],
                    ) by {
                        assert(is_str_byte(hv_bytes(*val)[i]));
                    }
                }
                Some(HeaderValueString { value: val.clone() })
            },
            None => None,
        }
    }

    /// Accept an owned string whose bytes satisfy the raw-value grammar.
    ///
    /// Any text without control characters or DEL qualifies, non-ASCII
    /// included: every byte of a multi-byte UTF-8 character is a legal
    /// value byte.
    pub fn from_string(src: String) -> (r: Option<HeaderValueString>)
        ensures
            r is Some <==> all_value_bytes(encode_utf8(src@)),
            r matches Some(s) ==> s@ == encode_utf8(src@) && s.wf(),
    {
        proof {
            encode_utf8_valid_utf8(src@);
        }
        match hv_from_bytes(src.as_str().as_bytes()) {
            Some(v) => Some(HeaderValueString { value: v }),
            None => None,
        }
    }

    /// Build from a static string already known to be legal raw-value
    /// text; the underlying constructor panics otherwise, so legality is
    /// a precondition.
    pub fn from_static(src: &'static str) -> (r: HeaderValueString)
        requires
            all_str_bytes(src.spec_bytes()),
        ensures
            r@ == src.spec_bytes(),
            r.wf(),
    {
        proof {
            encode_utf8_valid_utf8(src@);
            assert forall|i: int| 0 <= i < src.spec_bytes().len() implies is_value_byte(
                #[trigger] src.spec_bytes()[i],
            ) by {
                assert(is_str_byte(src.spec_bytes()[i]));
            }
        }
        HeaderValueString { value: hv_from_static(src) }
    }

    /// The value as text. The construction-time check makes this total.
    pub fn as_str(&self) -> (r: &str)
        requires
            self.wf(),
        ensures
            r.spec_bytes() == self@,
    {
        core::str::from_utf8(hv_as_bytes(&self.value)).unwrap()
    }

    /// The value back as a raw header value, verbatim.
    pub fn to_value(&self) -> (r: http::header::HeaderValue)
        ensures
            hv_bytes(r) == self@,
    {
        self.value.clone()
    }

    /// The single-opaque-value codec's read half: take exactly one raw
    /// value from the cursor and store it verbatim, failing on an
    /// exhausted cursor or a value that is not visible-ASCII text.
    pub fn try_from_values(values: &mut Values) -> (r: Option<HeaderValueString>)
        ensures
            r is Some <==> old(values).remaining().len() > 0 && all_str_bytes(
                old(values).remaining()[0],
            ),
            r matches Some(s) ==> s@ == old(values).remaining()[0] && s.wf(),
            final(values).remaining() == old(values).remaining().skip(
                if old(values).remaining().len() == 0 {
                    0
                } else {
                    1
                },
            ),
            final(values).must_exhaust() == old(values).must_exhaust(),
    {
        let next = values.next();
        proof {
            if old(values).remaining().len() == 0 {
                assert(old(values).remaining().skip(0) =~= old(values).remaining());
            } else {
                assert(old(values).remaining().skip(1) =~= old(values).remaining().drop_first());
            }
        }
        match next {
            Some(v) => HeaderValueString::from_val(&v),
            None => None,
        }
    }
}

} // verus!
