//! One-byte wire tags of the external term format.

use vstd::prelude::*;

verus! {

/// Version marker that opens every encoded payload.
pub const REVISION: u8 = 131;

pub const SMALL_INTEGER_EXT: u8 = 97;

pub const INTEGER_EXT: u8 = 98;

pub const PORT_EXT: u8 = 102;

pub const PID_EXT: u8 = 103;

/// Part of the format, but without a decoder here: a term that opens with
/// it is an `UnknownTag`.
pub const NEW_PID_EXT: u8 = 88;

pub const SMALL_TUPLE_EXT: u8 = 104;

/// Part of the format, but without a decoder here.
pub const LARGE_TUPLE_EXT: u8 = 105;

pub const MAP_EXT: u8 = 116;

pub const NIL_EXT: u8 = 106;

pub const STRING_EXT: u8 = 107;

pub const LIST_EXT: u8 = 108;

pub const BINARY_EXT: u8 = 109;

pub const SMALL_BIG_EXT: u8 = 110;

pub const LARGE_BIG_EXT: u8 = 111;

pub const NEW_REFERENCE_EXT: u8 = 114;

pub const NEW_FUN_EXT: u8 = 112;

pub const NEW_FLOAT_EXT: u8 = 70;

/// Part of the format, but without a decoder here.
pub const ATOM_UTF8_EXT: u8 = 118;

pub const SMALL_ATOM_UTF8_EXT: u8 = 119;

pub const ATOM_EXT_DEPRECATED: u8 = 100;

/// Part of the format, but without a decoder here.
pub const SMALL_ATOM_EXT_DEPRECATED: u8 = 115;

/// Tag of the compressed envelope.
pub const ZLIB: u8 = 80;

} // verus!
