//! Decoder for the Erlang external term format.
//!
//! A payload is a version marker followed by terms. Every term opens with a
//! tag byte that says how the bytes behind it are laid out, and terms nest.
//! `from_bytes` decodes a payload into a `RawTerm`, or says why it cannot.
//!
//! The wire grammar is written down twice. Module `grammar` holds it as
//! specification functions from `Seq<u8>` to the model of a term, `SpecTerm`.
//! Module `parse` holds the executable decoders; the contract of each says
//! that it computes the grammar function of the same name, for every input.
//! What follows from the grammar for all inputs is proved in `laws` (what
//! single inputs decode to or fail with), `cuts` (inputs that were cut
//! short), `shape` (decoded terms are well formed) and `budget` (the depth
//! budget changes no outcome but `NestingTooDeep`).
//!
//! Bytes that nobody has checked decide how deep the decoder recurses and how
//! much it inflates, so both are bounded by `Limits`.
//!
//! Three things are taken on trust from outside the crate, each marked where
//! it stands: big integers are built by `num_bigint` (`bigint`), compressed
//! envelopes are inflated by `flate2` (`inflate`), and atom names are checked
//! by `String::from_utf8` (`text`).

pub mod bigint;
pub mod budget;
pub mod bytes;
pub mod consts;
pub mod cuts;
pub mod error;
pub mod grammar;
pub mod inflate;
pub mod laws;
pub mod lemmas;
pub mod limits;
pub mod parse;
pub mod shape;
pub mod term;
pub mod text;

pub use crate::error::DecodeError;
pub use crate::limits::Limits;
pub use crate::parse::from_bytes;
pub use crate::parse::from_bytes_with;
pub use crate::parse::parser;
pub use crate::parse::parser_with;
pub use crate::term::RawTerm;
pub use crate::term::SpecTerm;
