//! The write-side accumulator handed to a header type's encode routine.

use vstd::prelude::*;
use crate::grammar::all_value_bytes;
use crate::raw::{hv_bytes, hv_from_bytes};

verus! {

/// A single-use accumulator for the raw values one encode call produces.
///
/// Its view is the sequence of values appended so far. When the
/// accumulator is committed by `typed_insert`, the first appended value
/// replaces whatever was stored under the header's name and every later
/// one is appended after it, so re-inserting a typed header never
/// duplicates stale raw values while headers that legitimately repeat can
/// still emit several values in one encode call.
#[derive(Debug)]
pub struct ToValues {
    vals: Vec<http::header::HeaderValue>,
}

impl View for ToValues {
    type V = Seq<Seq<u8>>;

    closed spec fn view(&self) -> Seq<Seq<u8>> {
        self.vals@.map_values(|v: http::header::HeaderValue| hv_bytes(v))
    }
}

impl ToValues {
    /// A fresh accumulator with nothing appended yet.
    pub fn new() -> (r: ToValues)
        ensures
            r@ == Seq::<Seq<u8>>::empty(),
    {
        let r = ToValues { vals: Vec::new() };
        proof {
            assert(r@ =~= Seq::<Seq<u8>>::empty());
        }
        r
    }

    /// Append one raw value to the list this encode call produces.
    ///
    /// While this can be called multiple times, most headers should only
    /// call it once; the exceptions are headers that legitimately repeat.
    pub fn append(&mut self, value: http::header::HeaderValue)
        ensures
            final(self)@ == old(self)@.push(hv_bytes(value)),
    {
        self.vals.push(value);
        proof {
            assert(self@ =~= old(self)@.push(hv_bytes(value)));
        }
    }

    /// Append text that the caller has shown to be a legal raw value.
    ///
    /// Encoding is expected to be infallible: a header type must only
    /// ever produce text that satisfies the raw-value grammar, so the
    /// legality of the bytes is a precondition, not a runtime error.
    pub fn append_bytes(&mut self, bytes: &[u8])
        requires
            all_value_bytes(bytes@),
        ensures
            final(self)@ == old(self)@.push(bytes@),
    {
        let v = hv_from_bytes(bytes).unwrap();
        self.append(v);
    }

    pub(crate) fn into_values(self) -> (r: Vec<http::header::HeaderValue>)
        ensures
            r@.map_values(|v: http::header::HeaderValue| hv_bytes(v)) == self@,
    {
        self.vals
    }
}

} // verus!
