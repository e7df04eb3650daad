//! A typed codec layer over the `http` crate's header multi-map.
//!
//! Raw header storage is untyped: a field name maps to one or more opaque
//! byte values. This crate provides the protocol by which a strongly typed
//! header value binds itself to one field name and converts itself to and
//! from that raw representation, together with the cursor ([`Values`]) and
//! accumulator ([`ToValues`]) primitives that keep the conversion honest:
//! leftover raw values fail a decode, and a fresh encode replaces rather
//! than duplicates what was stored before.

pub mod grammar;
pub mod raw;
pub mod values;
pub mod to_values;
pub mod header;
pub mod flat_csv;
pub mod value_string;
pub mod referer;
pub mod allow_headers;

pub use allow_headers::AccessControlAllowHeaders;
pub use header::Header;
pub use header::HeaderMapExt;
pub use header::Sealed;
pub use header::typed_get;
pub use header::typed_insert;
pub use referer::Referer;
pub use to_values::ToValues;
pub use value_string::HeaderValueString;
pub use values::Values;
