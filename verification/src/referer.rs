//! The `Referer` header: a single opaque URI reference.

use vstd::prelude::*;
use vstd::string::StringSliceAdditionalSpecFns;
use vstd::utf8::valid_utf8;
use crate::grammar::{all_str_bytes, is_name_byte, lower_byte, lower_seq, stored_name_seq};
use crate::header::Header;
use crate::raw::{hn_bytes, hn_from_bytes};
use crate::value_string::HeaderValueString;
use crate::values::Values;
use crate::to_values::ToValues;

verus! {

/// `Referer` header, RFC 7231 section 5.5.2.
///
/// The `Referer` (sic) header field allows the user agent to specify a
/// URI reference for the resource from which the target URI was
/// obtained. It carries one opaque value: decoding takes exactly one raw
/// value, verbatim, and encoding writes it back unchanged.
#[derive(Clone, Debug, PartialEq)]
pub struct Referer(HeaderValueString);

/// The field name `Referer` owns, as lowercase bytes.
pub open spec fn referer_name() -> Seq<u8> {
    seq![114u8, 101u8, 102u8, 101u8, 114u8, 101u8, 114u8]
}

pub proof fn lemma_referer_name_valid()
    ensures
        stored_name_seq(referer_name()),
{
    assert forall|i: int| 0 <= i < referer_name().len() implies is_name_byte(
        #[trigger] referer_name()[i],
    ) && lower_byte(referer_name()[i]) == referer_name()[i] by {
        if i == 0 || i == 4 || i == 6 {
            assert(referer_name()[i] == 114);
        } else if i == 1 || i == 3 || i == 5 {
            assert(referer_name()[i] == 101);
        } else {
            assert(referer_name()[i] == 102);
        }
    }
    assert(lower_seq(referer_name()) =~= referer_name());
}

impl View for Referer {
    type V = Seq<u8>;

    closed spec fn view(&self) -> Seq<u8> {
        self.0@
    }
}

impl Referer {
    /// Create a `Referer` from a static string, which must satisfy the
    /// raw-value text grammar (the underlying constructor panics
    /// otherwise, so legality is a precondition).
    pub fn from_static(s: &'static str) -> (r: Referer)
        requires
            all_str_bytes(s.spec_bytes()),
        ensures
            r@ == s.spec_bytes(),
            r.wf(),
    {
        Referer(HeaderValueString::from_static(s))
    }

    /// The referenced URI as text.
    pub fn as_str(&self) -> (r: &str)
        requires
            self.wf(),
        ensures
            r.spec_bytes() == self@,
    {
        proof {
            assert forall|i: int| 0 <= i < self@.len() implies crate::grammar::is_value_byte(
                #[trigger] self@[i],
            ) by {
                assert(crate::grammar::is_str_byte(self@[i]));
            }
        }
        self.0.as_str()
    }
}

impl Header for Referer {
    open spec fn spec_name() -> Seq<u8> {
        referer_name()
    }

    open spec fn spec_decode(vals: Seq<Seq<u8>>) -> Option<Seq<u8>> {
        if vals.len() > 0 && all_str_bytes(vals[0]) {
            Some(vals[0])
        } else {
            None
        }
    }

    open spec fn spec_consumed(vals: Seq<Seq<u8>>) -> int {
        if vals.len() == 0 {
            0
        } else {
            1
        }
    }

    open spec fn spec_skip(vals: Seq<Seq<u8>>) -> bool {
        false
    }

    open spec fn spec_encode(self) -> Seq<Seq<u8>> {
        seq![self@]
    }

    open spec fn wf(self) -> bool {
        all_str_bytes(self@) && valid_utf8(self@)
    }

    proof fn consumed_bounds(vals: Seq<Seq<u8>>) {
    }

    proof fn round_trip(self) {
        assert(self.spec_encode()[0] == self@);
    }

    fn name() -> (n: http::header::HeaderName) {
        let bytes: Vec<u8> = vec![114, 101, 102, 101, 114, 101, 114];
        proof {
            assert(bytes@ =~= referer_name());
            lemma_referer_name_valid();
        }
        hn_from_bytes(bytes.as_slice()).unwrap()
    }

    fn decode(values: &mut Values) -> (r: Option<Self>) {
        match HeaderValueString::try_from_values(values) {
            Some(s) => Some(Referer(s)),
            None => None,
        }
    }

    fn encode(&self, values: &mut ToValues) {
        values.append(self.0.to_value());
        proof {
            assert(values@ =~= old(values)@ + self.spec_encode());
        }
    }
}

} // verus!
