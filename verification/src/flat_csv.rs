//! The flat comma-joined list codec's building blocks.
//!
//! HTTP treats a list-valued field stored as one comma-joined value and
//! the same list stored as several raw values as equivalent. The
//! functions here give that equivalence a definition: every raw value is
//! split at commas into items trimmed of surrounding blanks, and a list
//! of items is written back as a single comma-joined value.

use vstd::prelude::*;
use crate::grammar::{all_name_bytes, all_value_bytes, is_name_byte, is_value_byte};

verus! {

/// A blank that may surround a list item: space or horizontal tab.
pub open spec fn is_ows_byte(b: u8) -> bool {
    b == 32 || b == 9
}

pub open spec fn trim_front(s: Seq<u8>) -> Seq<u8>
    decreases s.len(),
{
    if s.len() > 0 && is_ows_byte(s[0]) {
        trim_front(s.drop_first())
    } else {
        s
    }
}

pub open spec fn trim_back(s: Seq<u8>) -> Seq<u8>
    decreases s.len(),
{
    if s.len() > 0 && is_ows_byte(s.last()) {
        trim_back(s.drop_last())
    } else {
        s
    }
}

/// A byte sequence with leading and trailing blanks removed.
pub open spec fn trim(s: Seq<u8>) -> Seq<u8> {
    trim_back(trim_front(s))
}

/// The index of the first comma, or the length if there is none.
pub open spec fn first_comma(s: Seq<u8>) -> nat
    decreases s.len(),
{
    if s.len() == 0 {
        0
    } else if s[0] == 44 {
        0
    } else {
        1 + first_comma(s.drop_first())
    }
}

/// One raw value split at commas into trimmed items. Every value yields
/// at least one item; a value without commas yields exactly itself,
/// trimmed.
pub open spec fn split_list(s: Seq<u8>) -> Seq<Seq<u8>>
    decreases s.len(),
{
    let i = first_comma(s) as int;
    if i + 1 > s.len() {
        seq![trim(s)]
    } else {
        seq![trim(s.take(i))] + split_list(s.skip(i + 1))
    }
}

/// All items of a sequence of raw values, in order.
pub open spec fn items_of(vals: Seq<Seq<u8>>) -> Seq<Seq<u8>>
    decreases vals.len(),
{
    if vals.len() == 0 {
        Seq::empty()
    } else {
        split_list(vals[0]) + items_of(vals.drop_first())
    }
}

/// Items joined into one comma-separated value, `", "` between items.
pub open spec fn join_list(items: Seq<Seq<u8>>) -> Seq<u8>
    decreases items.len(),
{
    if items.len() == 0 {
        Seq::empty()
    } else if items.len() == 1 {
        items[0]
    } else {
        items[0] + seq![44u8, 32u8] + join_list(items.drop_first())
    }
}

pub proof fn lemma_first_comma(s: Seq<u8>)
    ensures
        first_comma(s) <= s.len(),
        forall|j: int| 0 <= j < first_comma(s) ==> s[j] != 44,
        first_comma(s) < s.len() ==> s[first_comma(s) as int] == 44,
    decreases s.len(),
{
    if s.len() == 0 {
    } else if s[0] == 44 {
    } else {
        lemma_first_comma(s.drop_first());
        assert forall|j: int| 0 <= j < first_comma(s) implies s[j] != 44 by {
            if j > 0 {
                assert(s.drop_first()[j - 1] != 44);
            }
        }
    }
}

pub proof fn lemma_first_comma_at(s: Seq<u8>, k: int)
    requires
        0 <= k <= s.len(),
        forall|j: int| 0 <= j < k ==> s[j] != 44,
        k < s.len() ==> s[k] == 44,
    ensures
        first_comma(s) == k,
    decreases s.len(),
{
    if s.len() == 0 {
    } else if k == 0 {
    } else {
        assert(s[0] != 44);
        assert forall|j: int| 0 <= j < k - 1 implies s.drop_first()[j] != 44 by {
            assert(s[j + 1] != 44);
        }
        lemma_first_comma_at(s.drop_first(), k - 1);
    }
}

/// Items distribute over appending one more raw value.
pub proof fn lemma_items_of_push(vals: Seq<Seq<u8>>, v: Seq<u8>)
    ensures
        items_of(vals.push(v)) == items_of(vals) + split_list(v),
    decreases vals.len(),
{
    if vals.len() == 0 {
        assert(vals.push(v).len() == 1);
        assert(vals.push(v)[0] == v);
        assert(vals.push(v).drop_first() =~= Seq::<Seq<u8>>::empty());
        assert(items_of(vals.push(v).drop_first()) == items_of(Seq::<Seq<u8>>::empty()));
        assert(items_of(Seq::<Seq<u8>>::empty()) =~= Seq::<Seq<u8>>::empty());
        assert(items_of(vals.push(v)) =~= items_of(vals) + split_list(v));
    } else {
        assert(vals.push(v).drop_first() =~= vals.drop_first().push(v));
        lemma_items_of_push(vals.drop_first(), v);
        assert(vals.push(v)[0] == vals[0]);
        assert(items_of(vals.push(v)) == split_list(vals[0]) + items_of(vals.drop_first().push(v)));
        assert(items_of(vals.push(v)) =~= items_of(vals) + split_list(v));
    }
}

/// A leading blank changes no item.
pub proof fn lemma_split_drop_leading_ows(s: Seq<u8>)
    requires
        s.len() > 0,
        is_ows_byte(s[0]),
    ensures
        split_list(s) == split_list(s.drop_first()),
{
    let t = s.drop_first();
    lemma_first_comma(t);
    assert forall|j: int| 0 <= j < 1 + first_comma(t) implies s[j] != 44 by {
        if j > 0 {
            assert(t[j - 1] != 44);
        }
    }
    if first_comma(t) < t.len() {
        assert(s[1 + first_comma(t) as int] == t[first_comma(t) as int]);
    }
    lemma_first_comma_at(s, 1 + first_comma(t) as int);
    if first_comma(t) as int + 1 > t.len() {
        assert(trim_front(s) == trim_front(t));
    } else {
        let i = first_comma(t) as int;
        assert(s.take(i + 1).drop_first() =~= t.take(i));
        assert(trim_front(s.take(i + 1)) == trim_front(t.take(i)));
        assert(s.skip(i + 2) =~= t.skip(i + 1));
    }
}

/// Appending one item to a joined list appends a separator and the item.
pub proof fn lemma_join_push(items: Seq<Seq<u8>>, x: Seq<u8>)
    requires
        items.len() > 0,
    ensures
        join_list(items.push(x)) == join_list(items) + seq![44u8, 32u8] + x,
    decreases items.len(),
{
    if items.len() == 1 {
        assert(items.push(x)[0] == items[0]);
        assert(items.push(x).drop_first() =~= seq![x]);
        assert(join_list(seq![x]) == x);
    } else {
        assert(items.push(x)[0] == items[0]);
        assert(items.push(x).drop_first() =~= items.drop_first().push(x));
        lemma_join_push(items.drop_first(), x);
        assert(items[0] + seq![44u8, 32u8] + (join_list(items.drop_first()) + seq![44u8, 32u8] + x)
            =~= (items[0] + seq![44u8, 32u8] + join_list(items.drop_first())) + seq![44u8, 32u8]
            + x);
    }
}

/// Joining token items yields only legal raw-value bytes.
pub proof fn lemma_join_value_bytes(items: Seq<Seq<u8>>)
    requires
        forall|i: int| 0 <= i < items.len() ==> all_name_bytes(#[trigger] items[i]),
    ensures
        all_value_bytes(join_list(items)),
    decreases items.len(),
{
    if items.len() == 0 {
    } else if items.len() == 1 {
        assert forall|j: int| 0 <= j < join_list(items).len() implies is_value_byte(
            #[trigger] join_list(items)[j],
        ) by {
            assert(is_name_byte(items[0][j]));
        }
    } else {
        lemma_join_value_bytes(items.drop_first());
        let s = join_list(items);
        let head = items[0];
        let rest = join_list(items.drop_first());
        assert forall|j: int| 0 <= j < s.len() implies is_value_byte(#[trigger] s[j]) by {
            if j < head.len() {
                assert(is_name_byte(head[j]));
            } else if j < head.len() + 2 {
                assert(s[j] == 44 || s[j] == 32);
            } else {
                assert(s[j] == rest[j - head.len() - 2]);
                assert(is_value_byte(rest[j - head.len() - 2]));
            }
        }
    }
}

/// A sequence of token bytes has no blanks or commas to trim or split:
/// splitting the join of nonempty token items recovers exactly the items.
pub proof fn lemma_split_of_join(items: Seq<Seq<u8>>)
    requires
        items.len() > 0,
        forall|i: int| 0 <= i < items.len() ==> all_name_bytes(#[trigger] items[i]),
        forall|i: int| 0 <= i < items.len() ==> (#[trigger] items[i]).len() > 0,
    ensures
        split_list(join_list(items)) == items,
    decreases items.len(),
{
    let head = items[0];
    assert(is_name_byte(head[0]) && is_name_byte(head.last()));
    assert(trim(head) == head);
    if items.len() == 1 {
        assert forall|j: int| 0 <= j < head.len() implies head[j] != 44 by {
            assert(is_name_byte(head[j]));
        }
        lemma_first_comma_at(head, head.len() as int);
        assert(split_list(join_list(items)) =~= items);
    } else {
        let rest = items.drop_first();
        let s = join_list(items);
        assert(s == head + seq![44u8, 32u8] + join_list(rest));
        assert forall|j: int| 0 <= j < head.len() implies s[j] != 44 by {
            assert(s[j] == head[j]);
            assert(is_name_byte(head[j]));
        }
        assert(s[head.len() as int] == 44);
        lemma_first_comma_at(s, head.len() as int);
        let i = head.len() as int;
        assert(i + 1 <= s.len());
        assert(s.take(i) =~= head);
        let tail = s.skip(i + 1);
        assert(tail[0] == 32);
        lemma_split_drop_leading_ows(tail);
        assert(tail.drop_first() =~= join_list(rest));
        lemma_split_of_join(rest);
        assert(split_list(s) =~= seq![head] + rest);
        assert(seq![head] + rest =~= items);
    }
}

/// Copy `b[start..end]` without its leading and trailing blanks.
fn trim_slice(b: &[u8], start: usize, end: usize) -> (r: Vec<u8>)
    requires
        start <= end <= b@.len(),
    ensures
        r@ == trim(b@.subrange(start as int, end as int)),
{
    let ghost orig = b@.subrange(start as int, end as int);
    let mut s = start;
    while s < end && (b[s] == 32 || b[s] == 9)
        invariant
            start <= s <= end <= b@.len(),
            trim_front(orig) == trim_front(b@.subrange(s as int, end as int)),
        decreases end - s,
    {
        proof {
            assert(b@.subrange(s as int, end as int).drop_first() =~= b@.subrange(
                s as int + 1,
                end as int,
            ));
        }
        s = s + 1;
    }
    proof {
        assert(trim_front(orig) == b@.subrange(s as int, end as int));
    }
    let mut e = end;
    while e > s && (b[e - 1] == 32 || b[e - 1] == 9)
        invariant
            s <= e <= end <= b@.len(),
            trim_back(b@.subrange(s as int, end as int)) == trim_back(
                b@.subrange(s as int, e as int),
            ),
        decreases e,
    {
        proof {
            assert(b@.subrange(s as int, e as int).drop_last() =~= b@.subrange(
                s as int,
                e as int - 1,
            ));
        }
        e = e - 1;
    }
    proof {
        assert(trim(orig) == b@.subrange(s as int, e as int));
    }
    let mut r: Vec<u8> = Vec::new();
    let mut i = s;
    while i < e
        invariant
            s <= i <= e <= b@.len(),
            r@ == b@.subrange(s as int, i as int),
        decreases e - i,
    {
        r.push(b[i]);
        proof {
            assert(r@ =~= b@.subrange(s as int, i as int + 1));
        }
        i = i + 1;
    }
    proof {
        assert(r@ =~= b@.subrange(s as int, e as int));
    }
    r
}

/// Split one raw value at commas into trimmed items.
pub fn split_value(b: &[u8]) -> (items: Vec<Vec<u8>>)
    ensures
        items@.map_values(|v: Vec<u8>| v@) == split_list(b@),
{
    let n = b.len();
    let mut items: Vec<Vec<u8>> = Vec::new();
    let mut start: usize = 0;
    proof {
        assert(items@.map_values(|v: Vec<u8>| v@) + split_list(b@.skip(0)) =~= split_list(
            b@.skip(0),
        ));
        assert(b@.skip(0) =~= b@);
    }
    loop
        invariant
            start <= n,
            n == b@.len(),
            items@.map_values(|v: Vec<u8>| v@) + split_list(b@.skip(start as int)) == split_list(
                b@,
            ),
        decreases n - start,
    {
        let ghost suffix = b@.skip(start as int);
        let mut j = start;
        while j < n && b[j] != 44
            invariant
                start <= j <= n,
                n == b@.len(),
                forall|t: int| start <= t < j ==> b@[t] != 44,
            decreases n - j,
        {
            j = j + 1;
        }
        proof {
            assert forall|t: int| 0 <= t < j - start implies suffix[t] != 44 by {
                assert(suffix[t] == b@[start + t]);
            }
            if j < n {
                assert(suffix[j - start] == b@[j as int]);
            }
            lemma_first_comma_at(suffix, j - start);
        }
        let item = trim_slice(b, start, j);
        proof {
            assert(suffix.take(j - start) =~= b@.subrange(start as int, j as int));
            if j == n {
                assert(suffix =~= b@.subrange(start as int, j as int));
            }
        }
        items.push(item);
        if j == n {
            proof {
                assert(split_list(suffix) =~= seq![trim(suffix)]);
                assert(items@.map_values(|v: Vec<u8>| v@) =~= items@.drop_last().map_values(
                    |v: Vec<u8>| v@,
                ).push(item@));
                assert(items@.map_values(|v: Vec<u8>| v@) =~= split_list(b@));
            }
            return items;
        }
        proof {
            assert(split_list(suffix) == seq![trim(suffix.take(j - start))] + split_list(
                suffix.skip(j - start + 1),
            ));
            assert(suffix.skip(j - start + 1) =~= b@.skip(j as int + 1));
            assert(items@.map_values(|v: Vec<u8>| v@) =~= items@.drop_last().map_values(
                |v: Vec<u8>| v@,
            ).push(item@));
            assert(items@.map_values(|v: Vec<u8>| v@) + split_list(b@.skip(j as int + 1))
                =~= items@.drop_last().map_values(|v: Vec<u8>| v@) + split_list(suffix));
        }
        start = j + 1;
    }
}

/// Join a list of items into one comma-separated byte sequence.
pub fn join_names(names: &Vec<Vec<u8>>) -> (r: Vec<u8>)
    ensures
        r@ == join_list(names@.map_values(|v: Vec<u8>| v@)),
{
    let ghost all = names@.map_values(|v: Vec<u8>| v@);
    let mut r: Vec<u8> = Vec::new();
    let mut i: usize = 0;
    while i < names.len()
        invariant
            i <= names@.len(),
            all == names@.map_values(|v: Vec<u8>| v@),
            r@ == join_list(all.take(i as int)),
        decreases names@.len() - i,
    {
        if i > 0 {
            r.push(44);
            r.push(32);
        }
        let mut k: usize = 0;
        let ghost mid = r@;
        while k < names[i].len()
            invariant
                i < names@.len(),
                k <= names@[i as int]@.len(),
                r@ == mid + names@[i as int]@.take(k as int),
            decreases names@[i as int]@.len() - k,
        {
            r.push(names[i][k]);
            proof {
                assert(r@ =~= mid + names@[i as int]@.take(k as int + 1));
            }
            k = k + 1;
        }
        proof {
            assert(names@[i as int]@.take(names@[i as int]@.len() as int) =~= names@[i as int]@);
            assert(all.take(i as int + 1) =~= all.take(i as int).push(all[i as int]));
            if i == 0 {
                assert(all.take(1) =~= seq![all[0]]);
                assert(join_list(seq![all[0]]) == all[0]);
                assert(r@ =~= all[0]);
            } else {
                lemma_join_push(all.take(i as int), all[i as int]);
                assert(r@ =~= join_list(all.take(i as int)) + seq![44u8, 32u8] + all[i as int]);
            }
        }
        i = i + 1;
    }
    proof {
        assert(all.take(all.len() as int) =~= all);
    }
    r
}

} // verus!
