//! Why a payload could not be decoded.

use vstd::prelude::*;

verus! {

/// The ways in which decoding fails. Every failure is final: the same bytes
/// fail the same way each time.
#[derive(Debug, Clone, Copy, PartialEq, Eq, Structural)]
pub enum DecodeError {
    /// The first byte is not the version marker.
    BadVersion,
    /// A byte that should open a term is not the tag of any decoder that is
    /// tried at that position.
    UnknownTag,
    /// Fewer bytes remain than a fixed or length-prefixed field needs.
    IncompleteInput,
    /// The bytes of an atom name are not valid UTF-8.
    InvalidText,
    /// Bytes remain inside a compressed envelope after its single term.
    TrailingData,
    /// The version marker is followed by no term at all.
    EmptyPayload,
    /// The compressed stream could not be inflated.
    CompressionFailure,
    /// A node or module position holds something other than an atom.
    RestrictedNodeViolation,
    /// The sign byte of a big integer is neither 0 nor 1.
    InvalidSign,
    /// Terms are nested more deeply than the decoder's depth budget allows.
    NestingTooDeep,
}

} // verus!
