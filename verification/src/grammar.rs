//! Byte-level grammar of header field names and values.
//!
//! These predicates mirror the checks the `http` crate performs when it
//! constructs a `HeaderName` or `HeaderValue`; the trusted wrappers in
//! [`crate::raw`] state their contracts in terms of them.

use vstd::prelude::*;

verus! {

/// A byte legal anywhere in a header field value: horizontal tab, or any
/// byte from 32 up except DEL (127).
pub open spec fn is_value_byte(b: u8) -> bool {
    b == 9 || (32 <= b && b != 127)
}

/// A field-value byte that is also visible ASCII text: horizontal tab,
/// space, or a printable ASCII character.
pub open spec fn is_str_byte(b: u8) -> bool {
    b == 9 || (32 <= b && b < 127)
}

/// A byte accepted in a header field name: the HTTP token characters,
/// uppercase letters included (parsing folds them to lowercase).
pub open spec fn is_name_byte(b: u8) -> bool {
    b == 33 || (35 <= b && b <= 39) || b == 42 || b == 43 || b == 45 || b == 46 || (48 <= b
        && b <= 57) || (65 <= b && b <= 90) || (94 <= b && b <= 122) || b == 124 || b == 126
}

/// Uppercase ASCII folded to lowercase; every other byte unchanged.
pub open spec fn lower_byte(b: u8) -> u8 {
    if 65 <= b && b <= 90 {
        (b + 32) as u8
    } else {
        b
    }
}

/// A whole byte sequence folded to lowercase.
pub open spec fn lower_seq(s: Seq<u8>) -> Seq<u8> {
    s.map_values(|b: u8| lower_byte(b))
}

pub open spec fn all_value_bytes(s: Seq<u8>) -> bool {
    forall|i: int| 0 <= i < s.len() ==> is_value_byte(#[trigger] s[i])
}

pub open spec fn all_str_bytes(s: Seq<u8>) -> bool {
    forall|i: int| 0 <= i < s.len() ==> is_str_byte(#[trigger] s[i])
}

pub open spec fn all_name_bytes(s: Seq<u8>) -> bool {
    forall|i: int| 0 <= i < s.len() ==> is_name_byte(#[trigger] s[i])
}

/// The longest field name the `http` crate accepts.
pub open spec fn max_name_len() -> int {
    65535
}

/// A byte sequence that `http::HeaderName::from_bytes` accepts.
pub open spec fn valid_name_seq(s: Seq<u8>) -> bool {
    1 <= s.len() <= max_name_len() && all_name_bytes(s)
}

/// A valid name as the map stores it: already folded to lowercase.
pub open spec fn stored_name_seq(s: Seq<u8>) -> bool {
    valid_name_seq(s) && lower_seq(s) == s
}

/// A byte the `http` crate can store in a field name: a token byte, or
/// the double quote, which its HTTP/2-oriented constructors
/// (`HeaderName::from_lowercase`, `HeaderName::from_static`) also accept.
pub open spec fn is_http_name_byte(b: u8) -> bool {
    is_name_byte(b) || b == 34
}

/// What the `http` crate guarantees of every `HeaderName`'s bytes: one
/// to 65535 bytes, each a token byte or a double quote, with no
/// uppercase letters left. This is weaker than [`stored_name_seq`]: a
/// name holding a double quote exists only on the HTTP/2 side and is
/// not a token name.
pub open spec fn http_name_seq(s: Seq<u8>) -> bool {
    1 <= s.len() <= max_name_len() && (forall|i: int|
        0 <= i < s.len() ==> is_http_name_byte(#[trigger] s[i])) && lower_seq(s) == s
}

/// Folding a valid name to lowercase yields a name in stored form.
pub proof fn lemma_lower_of_name_is_stored(s: Seq<u8>)
    requires
        valid_name_seq(s),
    ensures
        stored_name_seq(lower_seq(s)),
{
    assert forall|i: int| 0 <= i < lower_seq(s).len() implies is_name_byte(
        #[trigger] lower_seq(s)[i],
    ) by {
        assert(is_name_byte(s[i]));
    }
    assert(lower_seq(lower_seq(s)) =~= lower_seq(s));
}

} // verus!
