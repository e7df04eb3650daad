//! The header protocol and the typed operations on the raw store.

use vstd::prelude::*;
use crate::values::Values;
use crate::to_values::ToValues;
use crate::raw::{hn_bytes, hv_bytes, map_entries, map_get_all, map_try_append, map_try_insert};

verus! {

/// The contract a typed header value implements to bind itself to exactly
/// one field name and convert itself to and from that name's raw values.
///
/// The `spec_*` functions are the type's mathematical model: what its
/// field name is, what a raw value sequence decodes to (at the level of
/// views), how many values decoding consumes, whether it opts out of the
/// exhaustiveness check, and what an instance encodes to. The executable
/// `decode` and `encode` are proved against that model, and the proof
/// obligations `consumed_bounds` and `round_trip` tie the model together.
pub trait Header: View + Sized {
    /// The field name this type owns, as lowercase bytes.
    spec fn spec_name() -> Seq<u8>;

    /// What a sequence of raw values decodes to, or none if it is
    /// malformed for this type.
    spec fn spec_decode(vals: Seq<Seq<u8>>) -> Option<Self::V>;

    /// How many raw values decoding consumes from the front.
    spec fn spec_consumed(vals: Seq<Seq<u8>>) -> int;

    /// Whether decoding these values opts out of the exhaustiveness
    /// check.
    spec fn spec_skip(vals: Seq<Seq<u8>>) -> bool;

    /// The raw values one instance encodes to.
    spec fn spec_encode(self) -> Seq<Seq<u8>>;

    /// A legal instance, as decoding produces and encoding expects.
    spec fn wf(self) -> bool;

    proof fn consumed_bounds(vals: Seq<Seq<u8>>)
        ensures
            0 <= Self::spec_consumed(vals) <= vals.len(),
    ;

    /// A legal instance's encoding is nonempty, is consumed whole (or
    /// the check is skipped), and decodes back to the same value.
    proof fn round_trip(self)
        requires
            self.wf(),
        ensures
            Self::spec_decode(self.spec_encode()) == Some(self@),
            Self::spec_skip(self.spec_encode()) || Self::spec_consumed(self.spec_encode())
                == self.spec_encode().len(),
            self.spec_encode().len() > 0,
    ;

    /// The canonical field name, as a real `http` name.
    fn name() -> (n: http::header::HeaderName)
        ensures
            hn_bytes(n) == Self::spec_name(),
    ;

    /// Decode this type from the cursor's raw values.
    fn decode(values: &mut Values) -> (r: Option<Self>)
        ensures
            r is Some <==> Self::spec_decode(old(values).remaining()) is Some,
            r matches Some(h) ==> Some(h@) == Self::spec_decode(old(values).remaining())
                && h.wf(),
            final(values).remaining() == old(values).remaining().skip(
                Self::spec_consumed(old(values).remaining()),
            ),
            final(values).must_exhaust() == (old(values).must_exhaust() && !Self::spec_skip(
                old(values).remaining(),
            )),
    ;

    /// Append this instance's raw values to the accumulator.
    ///
    /// Encoding is infallible: any value that could not be represented as
    /// a legal raw value is ruled out by `wf`.
    fn encode(&self, values: &mut ToValues)
        requires
            self.wf(),
        ensures
            final(values)@ == old(values)@ + self.spec_encode(),
    ;
}

/// Implemented only for the raw store type the typed operations extend.
pub trait Sealed {

}

impl Sealed for http::HeaderMap<http::header::HeaderValue> {

}

/// The raw values a model associates with one field name; empty if the
/// name is absent.
pub open spec fn values_under(model: Map<Seq<u8>, Seq<Seq<u8>>>, name: Seq<u8>) -> Seq<Seq<u8>> {
    if model.dom().contains(name) {
        model[name]
    } else {
        Seq::empty()
    }
}

/// The store's entries after a typed insert: the header's encoding
/// replaces whatever was stored under its name.
pub open spec fn typed_insert_model<H: Header>(
    model: Map<Seq<u8>, Seq<Seq<u8>>>,
    h: H,
) -> Map<Seq<u8>, Seq<Seq<u8>>> {
    model.insert(H::spec_name(), h.spec_encode())
}

/// What a typed read of `H` returns on a store with these entries:
/// none if the name is absent, the decoded view if decoding succeeds and
/// consumes every stored value (or opted out of that check), and none
/// otherwise — never a value built from a prefix of the stored values.
pub open spec fn typed_get_model<H: Header>(model: Map<Seq<u8>, Seq<Seq<u8>>>) -> Option<H::V> {
    let vals = values_under(model, H::spec_name());
    if vals.len() == 0 {
        None
    } else {
        match H::spec_decode(vals) {
            Some(v) => if H::spec_skip(vals) || H::spec_consumed(vals) == vals.len() {
                Some(v)
            } else {
                None
            },
            None => None,
        }
    }
}

/// Encode the header and store its raw values under its name, replacing
/// any values previously stored there.
///
/// Returns false only if the raw store refused a value because it is at
/// its maximum size; the contract states exactly which prefix of the
/// encoding was committed in that case.
pub fn typed_insert<H: Header>(
    m: &mut http::HeaderMap<http::header::HeaderValue>,
    header: H,
) -> (ok: bool)
    requires
        header.wf(),
    ensures
        ok ==> map_entries(*final(m)) == typed_insert_model(map_entries(*old(m)), header),
        !ok ==> map_entries(*final(m)) == map_entries(*old(m)) || exists|k: int|
            1 <= k < header.spec_encode().len() && map_entries(*final(m)) == map_entries(
                *old(m),
            ).insert(H::spec_name(), header.spec_encode().take(k)),
{
    let name = H::name();
    let mut acc = ToValues::new();
    header.encode(&mut acc);
    proof {
        header.round_trip();
    }
    let vals = acc.into_values();
    let ghost enc = header.spec_encode();
    assert(vals@.map_values(|v: http::header::HeaderValue| hv_bytes(v)) == enc) by {
        assert(Seq::<Seq<u8>>::empty() + enc =~= enc);
    }
    let first = vals[0].clone();
    if !map_try_insert(m, &name, first) {
        return false;
    }
    proof {
        assert(enc.take(1) =~= seq![enc[0]]);
    }
    let n = vals.len();
    let mut i: usize = 1;
    while i < n
        invariant
            1 <= i <= n,
            n == vals@.len(),
            vals@.map_values(|v: http::header::HeaderValue| hv_bytes(v)) == enc,
            enc == header.spec_encode(),
            hn_bytes(name) == H::spec_name(),
            map_entries(*m) == map_entries(*old(m)).insert(H::spec_name(), enc.take(i as int)),
        decreases n - i,
    {
        let v = vals[i].clone();
        let ghost before = map_entries(*m);
        if !map_try_append(m, &name, v) {
            proof {
                assert(1 <= (i as int) && (i as int) < enc.len() && map_entries(*m) == map_entries(
                    *old(m),
                ).insert(H::spec_name(), enc.take(i as int)));
            }
            return false;
        }
        proof {
            assert(values_under(before, H::spec_name()) == enc.take(i as int));
            assert(enc.take(i as int).push(enc[i as int]) =~= enc.take(i as int + 1));
            assert(before.insert(H::spec_name(), enc.take(i as int + 1)) =~= map_entries(
                *old(m),
            ).insert(H::spec_name(), enc.take(i as int + 1)));
        }
        i = i + 1;
    }
    proof {
        assert(enc.take(n as int) =~= enc);
    }
    true
}

/// Find the raw values under `H`'s name and decode them into `H`.
///
/// Absence is not an error: a store with no values under the name yields
/// none without invoking decode. A decode failure, or values left
/// unconsumed without opting out of the exhaustiveness check, also yield
/// none — never a partially populated value.
pub fn typed_get<H: Header>(m: &http::HeaderMap<http::header::HeaderValue>) -> (r: Option<H>)
    ensures
        r is Some <==> typed_get_model::<H>(map_entries(*m)) is Some,
        r matches Some(h) ==> Some(h@) == typed_get_model::<H>(map_entries(*m)) && h.wf(),
{
    let name = H::name();
    let vals = map_get_all(m, &name);
    let ghost stored = values_under(map_entries(*m), H::spec_name());
    assert(vals@.map_values(|v: http::header::HeaderValue| hv_bytes(v)) == stored);
    if vals.len() == 0 {
        return None;
    }
    let mut cursor = Values::new(vals);
    let decoded = H::decode(&mut cursor);
    proof {
        H::consumed_bounds(stored);
    }
    match decoded {
        Some(h) => {
            if !cursor.exhaustion_required() || cursor.is_exhausted() {
                Some(h)
            } else {
                None
            }
        },
        None => None,
    }
}

/// The typed operations as methods on the raw store itself.
///
/// `entries` is the store's model; the two methods behave exactly as the
/// free functions [`typed_insert`] and [`typed_get`] they delegate to.
pub trait HeaderMapExt: Sealed + Sized {
    /// What the store associates: each field name to its raw values.
    spec fn entries(&self) -> Map<Seq<u8>, Seq<Seq<u8>>>;

    /// Inserts the typed `Header` into this map, replacing whatever was
    /// stored under its name.
    fn typed_insert<H: Header>(&mut self, header: H) -> (ok: bool)
        requires
            header.wf(),
        ensures
            ok ==> final(self).entries() == typed_insert_model(old(self).entries(), header),
            !ok ==> final(self).entries() == old(self).entries() || exists|k: int|
                1 <= k < header.spec_encode().len() && final(self).entries() == old(
                    self,
                ).entries().insert(H::spec_name(), header.spec_encode().take(k)),
    ;

    /// Tries to find the header by name, and then decode it into `H`.
    fn typed_get<H: Header>(&self) -> (r: Option<H>)
        ensures
            r is Some <==> typed_get_model::<H>(self.entries()) is Some,
            r matches Some(h) ==> Some(h@) == typed_get_model::<H>(self.entries()) && h.wf(),
    ;
}

impl HeaderMapExt for http::HeaderMap<http::header::HeaderValue> {
    open spec fn entries(&self) -> Map<Seq<u8>, Seq<Seq<u8>>> {
        map_entries(*self)
    }

    fn typed_insert<H: Header>(&mut self, header: H) -> (ok: bool) {
        typed_insert(self, header)
    }

    fn typed_get<H: Header>(&self) -> (r: Option<H>) {
        typed_get(self)
    }
}

/// Round-trip: inserting a legal typed header and then reading the same
/// type back yields exactly the inserted value.
pub proof fn lemma_round_trip<H: Header>(model: Map<Seq<u8>, Seq<Seq<u8>>>, h: H)
    requires
        h.wf(),
    ensures
        typed_get_model::<H>(typed_insert_model(model, h)) == Some(h@),
{
    h.round_trip();
    H::consumed_bounds(h.spec_encode());
}

/// Replace, not duplicate: inserting a header type twice leaves exactly
/// the raw values of the second encode under its name, never a union of
/// both.
pub proof fn lemma_replace_not_duplicate<H: Header>(
    model: Map<Seq<u8>, Seq<Seq<u8>>>,
    h1: H,
    h2: H,
)
    ensures
        typed_insert_model(typed_insert_model(model, h1), h2) == typed_insert_model(model, h2),
{
    assert(typed_insert_model(typed_insert_model(model, h1), h2) =~= typed_insert_model(
        model,
        h2,
    ));
}

/// Exhaustiveness: if decoding the stored values succeeds without
/// consuming all of them and does not opt out of the check, the typed
/// read fails rather than return a value built from a prefix.
pub proof fn lemma_exhaustiveness<H: Header>(model: Map<Seq<u8>, Seq<Seq<u8>>>)
    requires
        values_under(model, H::spec_name()).len() > 0,
        H::spec_consumed(values_under(model, H::spec_name())) < values_under(
            model,
            H::spec_name(),
        ).len(),
        !H::spec_skip(values_under(model, H::spec_name())),
    ensures
        typed_get_model::<H>(model) is None,
{
}

} // verus!
