//! The read-side cursor handed to a header type's decode routine.

use vstd::prelude::*;
use crate::raw::hv_bytes;

verus! {

/// A single-use, forward (and backward) cursor over the raw values stored
/// under one field name.
///
/// By default the cursor is checked to have been exhausted after
/// `Header::decode` returns, to protect against extra unexpected values
/// being forgotten about accidentally; see
/// [`Values::skip_exhaustive_iter_check`].
#[derive(Debug)]
pub struct Values {
    vals: Vec<http::header::HeaderValue>,
    lo: usize,
    hi: usize,
    should_exhaust: bool,
}

impl Values {
    #[verifier::type_invariant]
    pub closed spec fn inv(self) -> bool {
        self.lo <= self.hi <= self.vals@.len()
    }

    /// The raw values not yet consumed, front to back.
    pub closed spec fn remaining(self) -> Seq<Seq<u8>> {
        self.vals@.subrange(self.lo as int, self.hi as int).map_values(
            |v: http::header::HeaderValue| hv_bytes(v),
        )
    }

    /// Whether leftover values will fail the decode that used this cursor.
    pub closed spec fn must_exhaust(self) -> bool {
        self.should_exhaust
    }

    /// A fresh cursor over the given raw values, with the exhaustiveness
    /// check on.
    pub fn new(vals: Vec<http::header::HeaderValue>) -> (r: Values)
        ensures
            r.remaining() == vals@.map_values(|v: http::header::HeaderValue| hv_bytes(v)),
            r.must_exhaust(),
    {
        let n = vals.len();
        let r = Values { vals, lo: 0, hi: n, should_exhaust: true };
        proof {
            assert(r.vals@.subrange(0, r.hi as int) =~= r.vals@);
        }
        r
    }

    /// Advance: the next raw value, or none if the cursor is exhausted.
    pub fn next(&mut self) -> (r: Option<http::header::HeaderValue>)
        ensures
            final(self).must_exhaust() == old(self).must_exhaust(),
            old(self).remaining().len() == 0 ==> r is None && final(self).remaining() == old(
                self,
            ).remaining(),
            old(self).remaining().len() > 0 ==> final(self).remaining() == old(
                self,
            ).remaining().drop_first() && (r matches Some(v) && hv_bytes(v) == old(
                self,
            ).remaining()[0]),
    {
        proof {
            use_type_invariant(&*self);
        }
        if self.lo < self.hi {
            let v = self.vals[self.lo].clone();
            self.lo = self.lo + 1;
            proof {
                assert(self.remaining() =~= old(self).remaining().drop_first());
            }
            Some(v)
        } else {
            None
        }
    }

    /// The next raw value from the back, for decoders that want
    /// last-value-wins semantics without buffering the whole sequence.
    pub fn next_back(&mut self) -> (r: Option<http::header::HeaderValue>)
        ensures
            final(self).must_exhaust() == old(self).must_exhaust(),
            old(self).remaining().len() == 0 ==> r is None && final(self).remaining() == old(
                self,
            ).remaining(),
            old(self).remaining().len() > 0 ==> final(self).remaining() == old(
                self,
            ).remaining().drop_last() && (r matches Some(v) && hv_bytes(v) == old(
                self,
            ).remaining().last()),
    {
        proof {
            use_type_invariant(&*self);
        }
        if self.lo < self.hi {
            let v = self.vals[self.hi - 1].clone();
            self.hi = self.hi - 1;
            proof {
                assert(self.remaining() =~= old(self).remaining().drop_last());
            }
            Some(v)
        } else {
            None
        }
    }

    /// How many raw values are left: an exact lower and upper bound.
    pub fn size_hint(&self) -> (r: (usize, Option<usize>))
        ensures
            r.0 == self.remaining().len(),
            r.1 matches Some(n) && n == self.remaining().len(),
    {
        proof {
            use_type_invariant(self);
        }
        let n = self.hi - self.lo;
        (n, Some(n))
    }

    /// True once every raw value has been consumed.
    pub fn is_exhausted(&self) -> (r: bool)
        ensures
            r == (self.remaining().len() == 0),
    {
        proof {
            use_type_invariant(self);
        }
        self.lo >= self.hi
    }

    /// Whether leftover values will fail the decode; see
    /// [`Values::skip_exhaustive_iter_check`].
    pub fn exhaustion_required(&self) -> (r: bool)
        ensures
            r == self.must_exhaust(),
    {
        self.should_exhaust
    }

    /// Skip the exhaustive check for this header.
    ///
    /// By default, after `Header::decode` returns, any values it left
    /// unconsumed make the overall decode fail. Call this only if it is
    /// valid to have ignored some values.
    pub fn skip_exhaustive_iter_check(&mut self)
        ensures
            !final(self).must_exhaust(),
            final(self).remaining() == old(self).remaining(),
    {
        proof {
            use_type_invariant(&*self);
        }
        self.should_exhaust = false;
    }
}

} // verus!
