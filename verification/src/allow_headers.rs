//! `Access-Control-Allow-Headers` header, part of CORS.
//!
//! The header carries a comma-separated list of field names, and HTTP
//! treats one comma-joined raw value and several raw values as the same
//! list: decoding splits every raw value at commas, trims each item, and
//! requires every item to be a legal field name; encoding writes the
//! whole list back as a single comma-joined raw value. A list with any
//! illegal item fails to decode as a whole — it is never truncated to
//! its legal prefix.

use vstd::prelude::*;
use crate::flat_csv::{
    items_of, join_list, join_names, lemma_items_of_push, lemma_join_value_bytes,
    lemma_split_of_join, split_list, split_value,
};
use crate::grammar::{
    all_name_bytes, is_name_byte, lemma_lower_of_name_is_stored, lower_byte, lower_seq,
    stored_name_seq, valid_name_seq,
};
use crate::header::Header;
use crate::raw::{hn_bytes, hn_from_bytes, hn_to_bytes, hv_as_bytes, hv_bytes};
use crate::values::Values;
use crate::to_values::ToValues;

verus! {

/// The list of header names allowed during the actual request, as the
/// response to a CORS preflight request announces it.
#[derive(Clone, Debug, PartialEq)]
pub struct AccessControlAllowHeaders {
    names: Vec<Vec<u8>>,
}

/// The field name this type owns, as lowercase bytes.
pub open spec fn acah_name() -> Seq<u8> {
    seq![
        97u8,
        99u8,
        99u8,
        101u8,
        115u8,
        115u8,
        45u8,
        99u8,
        111u8,
        110u8,
        116u8,
        114u8,
        111u8,
        108u8,
        45u8,
        97u8,
        108u8,
        108u8,
        111u8,
        119u8,
        45u8,
        104u8,
        101u8,
        97u8,
        100u8,
        101u8,
        114u8,
        115u8,
    ]
}

pub proof fn lemma_acah_name_valid()
    ensures
        stored_name_seq(acah_name()),
{
    assert forall|i: int| 0 <= i < acah_name().len() implies is_name_byte(
        #[trigger] acah_name()[i],
    ) && lower_byte(acah_name()[i]) == acah_name()[i] by {
        assert(acah_name().len() == 28);
    }
    assert(lower_seq(acah_name()) =~= acah_name());
}

/// Every item is a legal field name.
pub open spec fn all_valid_items(items: Seq<Seq<u8>>) -> bool {
    forall|i: int| 0 <= i < items.len() ==> valid_name_seq(#[trigger] items[i])
}

impl View for AccessControlAllowHeaders {
    type V = Seq<Seq<u8>>;

    closed spec fn view(&self) -> Seq<Seq<u8>> {
        self.names@.map_values(|v: Vec<u8>| v@)
    }
}

impl AccessControlAllowHeaders {
    /// Every stored name is lowercase token bytes; every constructor
    /// establishes this, with or without `wf`'s nonemptiness.
    pub open spec fn names_ok(self) -> bool {
        forall|i: int| 0 <= i < self@.len() ==> stored_name_seq(#[trigger] self@[i])
    }

    /// The header names contained within, in order.
    pub fn iter(&self) -> (r: Vec<http::header::HeaderName>)
        requires
            self.names_ok(),
        ensures
            r@.map_values(|n: http::header::HeaderName| hn_bytes(n)) == self@,
    {
        let mut r: Vec<http::header::HeaderName> = Vec::new();
        let mut i: usize = 0;
        proof {
            assert(r@.map_values(|n: http::header::HeaderName| hn_bytes(n)) =~= self@.take(0));
        }
        while i < self.names.len()
            invariant
                i <= self.names@.len(),
                self.names_ok(),
                self@ == self.names@.map_values(|v: Vec<u8>| v@),
                r@.map_values(|n: http::header::HeaderName| hn_bytes(n)) == self@.take(i as int),
            decreases self.names@.len() - i,
        {
            let name = &self.names[i];
            proof {
                assert(stored_name_seq(self@[i as int]));
            }
            let n = hn_from_bytes(name.as_slice()).unwrap();
            let ghost prev = r@;
            r.push(n);
            proof {
                assert(hn_bytes(n) == self@[i as int]);
                assert(r@.map_values(|n2: http::header::HeaderName| hn_bytes(n2)) =~= prev
                    .map_values(|n2: http::header::HeaderName| hn_bytes(n2)).push(hn_bytes(n)));
                assert(self@.take(i as int + 1) =~= self@.take(i as int).push(self@[i as int]));
            }
            i = i + 1;
        }
        proof {
            assert(self@.take(self@.len() as int) =~= self@);
        }
        r
    }

    /// Collect a list of header names into this typed header, keeping
    /// those that are legal token names.
    ///
    /// The http crate also admits names holding a double quote, for
    /// HTTP/2; this list codec's own decoder would reject such a name as
    /// an item, so they cannot round-trip and are dropped here. Each
    /// kept name is re-validated through the http parser.
    pub fn from_iter(names: Vec<http::header::HeaderName>) -> (r: AccessControlAllowHeaders)
        ensures
            r@ == names@.map_values(|n: http::header::HeaderName| hn_bytes(n)).filter(
                |s: Seq<u8>| valid_name_seq(s),
            ),
            r.names_ok(),
            r@.len() > 0 ==> r.wf(),
    {
        let ghost mapped = names@.map_values(|n: http::header::HeaderName| hn_bytes(n));
        let mut out: Vec<Vec<u8>> = Vec::new();
        let mut i: usize = 0;
        proof {
            reveal(Seq::filter);
            assert(mapped.take(0) =~= Seq::<Seq<u8>>::empty());
            assert(out@.map_values(|v: Vec<u8>| v@) =~= mapped.take(0).filter(
                |s: Seq<u8>| valid_name_seq(s),
            ));
        }
        while i < names.len()
            invariant
                i <= names@.len(),
                mapped == names@.map_values(|n: http::header::HeaderName| hn_bytes(n)),
                out@.map_values(|v: Vec<u8>| v@) == mapped.take(i as int).filter(
                    |s: Seq<u8>| valid_name_seq(s),
                ),
                forall|j: int| 0 <= j < out@.len() ==> stored_name_seq(#[trigger] out@[j]@),
            decreases names@.len() - i,
        {
            let b = hn_to_bytes(&names[i]);
            let ghost prev = out@;
            let keep = hn_from_bytes(b.as_slice()).is_some();
            if keep {
                out.push(b);
            }
            proof {
                reveal(Seq::filter);
                assert(mapped.take(i as int + 1).drop_last() =~= mapped.take(i as int));
                assert(mapped.take(i as int + 1).last() == mapped[i as int]);
                if keep {
                    assert(stored_name_seq(b@));
                    assert(out@.map_values(|v: Vec<u8>| v@) =~= prev.map_values(
                        |v: Vec<u8>| v@,
                    ).push(b@));
                    assert(mapped.take(i as int + 1).filter(|s: Seq<u8>| valid_name_seq(s))
                        == mapped.take(i as int).filter(|s: Seq<u8>| valid_name_seq(s)).push(
                        mapped[i as int],
                    ));
                } else {
                    assert(mapped.take(i as int + 1).filter(|s: Seq<u8>| valid_name_seq(s))
                        == mapped.take(i as int).filter(|s: Seq<u8>| valid_name_seq(s)));
                }
            }
            i = i + 1;
        }
        proof {
            assert(mapped.take(names@.len() as int) =~= mapped);
        }
        let r = AccessControlAllowHeaders { names: out };
        proof {
            assert forall|j: int| 0 <= j < r@.len() implies stored_name_seq(#[trigger] r@[j]) by {
                assert(r@[j] == out@[j]@);
            }
        }
        r
    }
}

impl Header for AccessControlAllowHeaders {
    open spec fn spec_name() -> Seq<u8> {
        acah_name()
    }

    open spec fn spec_decode(vals: Seq<Seq<u8>>) -> Option<Seq<Seq<u8>>> {
        if vals.len() > 0 && all_valid_items(items_of(vals)) {
            Some(items_of(vals).map_values(|s: Seq<u8>| lower_seq(s)))
        } else {
            None
        }
    }

    open spec fn spec_consumed(vals: Seq<Seq<u8>>) -> int {
        vals.len() as int
    }

    open spec fn spec_skip(vals: Seq<Seq<u8>>) -> bool {
        false
    }

    open spec fn spec_encode(self) -> Seq<Seq<u8>> {
        seq![join_list(self@)]
    }

    open spec fn wf(self) -> bool {
        self@.len() > 0 && forall|i: int| 0 <= i < self@.len() ==> stored_name_seq(
            #[trigger] self@[i],
        )
    }

    proof fn consumed_bounds(vals: Seq<Seq<u8>>) {
    }

    proof fn round_trip(self) {
        let enc = self.spec_encode();
        assert(enc[0] == join_list(self@));
        assert(enc.drop_first() =~= Seq::<Seq<u8>>::empty());
        assert(items_of(Seq::<Seq<u8>>::empty()) =~= Seq::<Seq<u8>>::empty());
        assert(items_of(enc) =~= split_list(join_list(self@)));
        assert forall|i: int| 0 <= i < self@.len() implies all_name_bytes(#[trigger] self@[i])
            && self@[i].len() > 0 by {
            assert(stored_name_seq(self@[i]));
        }
        lemma_split_of_join(self@);
        assert(all_valid_items(items_of(enc)));
        assert(items_of(enc).map_values(|s: Seq<u8>| lower_seq(s)) =~= self@) by {
            assert forall|i: int| 0 <= i < self@.len() implies lower_seq(self@[i]) == self@[i] by {
                assert(stored_name_seq(self@[i]));
            }
        }
    }

    fn name() -> (n: http::header::HeaderName) {
        let bytes: Vec<u8> = vec![
            97, 99, 99, 101, 115, 115, 45, 99, 111, 110, 116, 114, 111, 108, 45, 97, 108, 108,
            111, 119, 45, 104, 101, 97, 100, 101, 114, 115,
        ];
        proof {
            assert(bytes@ =~= acah_name());
            lemma_acah_name_valid();
        }
        hn_from_bytes(bytes.as_slice()).unwrap()
    }

    fn decode(values: &mut Values) -> (r: Option<Self>) {
        let ghost orig = old(values).remaining();
        let mut names: Vec<Vec<u8>> = Vec::new();
        let mut ok = true;
        let ghost mut k: int = 0;
        proof {
            assert(orig.take(0) =~= Seq::<Seq<u8>>::empty());
            assert(orig.skip(0) =~= orig);
            assert(items_of(Seq::<Seq<u8>>::empty()) =~= Seq::<Seq<u8>>::empty());
            assert(names@.map_values(|v: Vec<u8>| v@) =~= Seq::<Seq<u8>>::empty());
            assert(items_of(orig.take(0)).map_values(|s: Seq<u8>| lower_seq(s)) =~= Seq::<
                Seq<u8>,
            >::empty());
        }
        loop
            invariant
                0 <= k <= orig.len(),
                orig == old(values).remaining(),
                values.remaining() == orig.skip(k),
                values.must_exhaust() == old(values).must_exhaust(),
                ok == all_valid_items(items_of(orig.take(k))),
                ok ==> names@.map_values(|v: Vec<u8>| v@) == items_of(orig.take(k)).map_values(
                    |s: Seq<u8>| lower_seq(s),
                ),
                ok ==> forall|j: int| 0 <= j < names@.len() ==> stored_name_seq(
                    #[trigger] names@[j]@,
                ),
            ensures
                values.remaining() == orig.skip(orig.len() as int),
                values.must_exhaust() == old(values).must_exhaust(),
                ok == all_valid_items(items_of(orig)),
                ok ==> names@.map_values(|v: Vec<u8>| v@) == items_of(orig).map_values(
                    |s: Seq<u8>| lower_seq(s),
                ),
                ok ==> forall|j: int| 0 <= j < names@.len() ==> stored_name_seq(
                    #[trigger] names@[j]@,
                ),
            decreases orig.len() - k,
        {
            let next = values.next();
            match next {
                None => {
                    proof {
                        assert(orig.skip(k).len() == 0);
                        assert(k == orig.len());
                        assert(orig.take(k) =~= orig);
                    }
                    break ;
                },
                Some(v) => {
                    proof {
                        assert(orig.skip(k).len() > 0);
                        assert(hv_bytes(v) == orig.skip(k)[0]);
                        assert(orig.skip(k)[0] == orig[k]);
                        assert(orig.skip(k).drop_first() =~= orig.skip(k + 1));
                    }
                    let bytes = hv_as_bytes(&v);
                    let items = split_value(bytes);
                    let ghost prev_names = names@;
                    let ghost prev_ok = ok;
                    let ghost segs = split_list(orig[k]);
                    let mut t: usize = 0;
                    proof {
                        assert(segs.take(0) =~= Seq::<Seq<u8>>::empty());
                        assert(prev_names.map_values(|v2: Vec<u8>| v2@) + segs.take(0).map_values(
                            |s: Seq<u8>| lower_seq(s),
                        ) =~= prev_names.map_values(|v2: Vec<u8>| v2@));
                    }
                    while t < items.len()
                        invariant
                            t <= items@.len(),
                            items@.map_values(|v2: Vec<u8>| v2@) == segs,
                            ok == (prev_ok && all_valid_items(segs.take(t as int))),
                            ok ==> names@.map_values(|v2: Vec<u8>| v2@) == prev_names.map_values(
                                |v2: Vec<u8>| v2@,
                            ) + segs.take(t as int).map_values(|s: Seq<u8>| lower_seq(s)),
                            prev_ok ==> prev_names.map_values(|v2: Vec<u8>| v2@) == items_of(
                                orig.take(k),
                            ).map_values(|s: Seq<u8>| lower_seq(s)),
                            (forall|j: int| 0 <= j < prev_names.len() ==> stored_name_seq(
                                #[trigger] prev_names[j]@,
                            )) ==> forall|j: int| 0 <= j < names@.len() ==> stored_name_seq(
                                #[trigger] names@[j]@,
                            ),
                        decreases items@.len() - t,
                    {
                        let item = &items[t];
                        proof {
                            assert(item@ == segs[t as int]);
                            assert(segs.take(t as int + 1) =~= segs.take(t as int).push(
                                segs[t as int],
                            ));
                        }
                        match hn_from_bytes(item.as_slice()) {
                            Some(n) => {
                                let b = hn_to_bytes(&n);
                                let ghost mid_names = names@;
                                names.push(b);
                                proof {
                                    lemma_lower_of_name_is_stored(item@);
                                    assert(stored_name_seq(b@));
                                    if ok {
                                        assert(b@ == lower_seq(segs[t as int]));
                                        assert(names@.map_values(|v2: Vec<u8>| v2@) =~= mid_names
                                            .map_values(|v2: Vec<u8>| v2@).push(b@));
                                        assert(segs.take(t as int + 1).map_values(
                                            |s: Seq<u8>| lower_seq(s),
                                        ) =~= segs.take(t as int).map_values(
                                            |s: Seq<u8>| lower_seq(s),
                                        ).push(lower_seq(segs[t as int])));
                                        assert(names@.map_values(|v2: Vec<u8>| v2@)
                                            =~= prev_names.map_values(|v2: Vec<u8>| v2@)
                                            + segs.take(t as int + 1).map_values(
                                            |s: Seq<u8>| lower_seq(s),
                                        ));
                                        assert forall|j: int|
                                            0 <= j < segs.take(t as int + 1).len() implies
                                            valid_name_seq(
                                                #[trigger] segs.take(t as int + 1)[j],
                                            ) by {
                                            if j < t as int {
                                                assert(valid_name_seq(segs.take(t as int)[j]));
                                            }
                                        }
                                    }
                                }
                            },
                            None => {
                                ok = false;
                                proof {
                                    assert(!valid_name_seq(segs[t as int]));
                                    assert(segs.take(t as int + 1)[t as int] == segs[t as int]);
                                    assert(!all_valid_items(segs.take(t as int + 1)));
                                }
                            },
                        }
                        t = t + 1;
                    }
                    proof {
                        assert(segs.take(segs.len() as int) =~= segs);
                        assert(orig.take(k + 1) =~= orig.take(k).push(orig[k]));
                        lemma_items_of_push(orig.take(k), orig[k]);
                        let all_next = items_of(orig.take(k + 1));
                        assert(all_next == items_of(orig.take(k)) + segs);
                        assert(all_valid_items(all_next) == (all_valid_items(items_of(orig.take(k)))
                            && all_valid_items(segs))) by {
                            if all_valid_items(items_of(orig.take(k))) && all_valid_items(segs) {
                                assert forall|j: int| 0 <= j < all_next.len() implies
                                    valid_name_seq(#[trigger] all_next[j]) by {
                                    if j < items_of(orig.take(k)).len() {
                                        assert(valid_name_seq(items_of(orig.take(k))[j]));
                                    } else {
                                        assert(valid_name_seq(
                                            segs[j - items_of(orig.take(k)).len()],
                                        ));
                                    }
                                }
                            }
                            if all_valid_items(all_next) {
                                assert forall|j: int| 0 <= j < items_of(orig.take(k)).len() implies
                                    valid_name_seq(#[trigger] items_of(orig.take(k))[j]) by {
                                    assert(valid_name_seq(all_next[j]));
                                }
                                assert forall|j: int| 0 <= j < segs.len() implies valid_name_seq(
                                    #[trigger] segs[j],
                                ) by {
                                    assert(valid_name_seq(
                                        all_next[j + items_of(orig.take(k)).len()],
                                    ));
                                }
                            }
                        }
                        if ok {
                            assert(names@.map_values(|v2: Vec<u8>| v2@) =~= all_next.map_values(
                                |s: Seq<u8>| lower_seq(s),
                            ));
                        }
                        k = k + 1;
                    }
                },
            }
        }
        if ok && names.len() > 0 {
            proof {
                lemma_items_nonempty(orig);
            }
            Some(AccessControlAllowHeaders { names })
        } else {
            proof {
                if ok {
                    lemma_items_nonempty(orig);
                }
            }
            None
        }
    }

    fn encode(&self, values: &mut ToValues) {
        proof {
            assert forall|i: int| 0 <= i < self@.len() implies all_name_bytes(
                #[trigger] self@[i],
            ) by {
                assert(stored_name_seq(self@[i]));
            }
            lemma_join_value_bytes(self@);
        }
        let joined = join_names(&self.names);
        values.append_bytes(joined.as_slice());
        proof {
            assert(values@ =~= old(values)@ + self.spec_encode());
        }
    }
}

/// List codec equivalence: two stores whose raw values under the name
/// yield the same items decode to the same list header, so one
/// comma-joined raw value and the same list spread over several raw
/// values are interchangeable on the wire.
pub proof fn lemma_list_codec_equivalence(vals1: Seq<Seq<u8>>, vals2: Seq<Seq<u8>>)
    requires
        vals1.len() > 0,
        vals2.len() > 0,
        items_of(vals1) == items_of(vals2),
    ensures
        AccessControlAllowHeaders::spec_decode(vals1) == AccessControlAllowHeaders::spec_decode(
            vals2,
        ),
{
}

/// A nonempty value list always yields at least one item.
proof fn lemma_items_nonempty(vals: Seq<Seq<u8>>)
    ensures
        vals.len() > 0 ==> items_of(vals).len() > 0,
{
    if vals.len() > 0 {
        assert(split_list(vals[0]).len() >= 1);
    }
}

} // verus!
