//! The wire grammar, as functions from bytes to what they decode to.
//!
//! Each function takes the bytes that remain and gives either a decoded
//! value together with the bytes left over, or the reason for failure. The
//! executable decoders are specified by these functions alone.

use crate::bigint::signed_magnitude;
use crate::bytes::be_i32;
use crate::bytes::be_value;
use crate::consts::ATOM_EXT_DEPRECATED;
use crate::consts::BINARY_EXT;
use crate::consts::INTEGER_EXT;
use crate::consts::LARGE_BIG_EXT;
use crate::consts::LIST_EXT;
use crate::consts::MAP_EXT;
use crate::consts::NEW_FLOAT_EXT;
use crate::consts::NEW_FUN_EXT;
use crate::consts::NEW_REFERENCE_EXT;
use crate::consts::NIL_EXT;
use crate::consts::PID_EXT;
use crate::consts::PORT_EXT;
use crate::consts::REVISION;
use crate::consts::SMALL_ATOM_UTF8_EXT;
use crate::consts::SMALL_BIG_EXT;
use crate::consts::SMALL_INTEGER_EXT;
use crate::consts::SMALL_TUPLE_EXT;
use crate::consts::STRING_EXT;
use crate::consts::ZLIB;
use crate::error::DecodeError;
use crate::inflate::zlib_inflated;
use crate::limits::deeper;
use crate::limits::Limits;
use crate::term::SpecTerm;
use vstd::prelude::*;
use vstd::utf8::decode_utf8;
use vstd::utf8::valid_utf8;

verus! {

/// A decoded term and the bytes that follow it, or why there is none.
pub type Decoded = Result<(SpecTerm, Seq<u8>), DecodeError>;

/// Several decoded terms and the bytes that follow them.
pub type DecodedTerms = Result<(Seq<SpecTerm>, Seq<u8>), DecodeError>;

/// Several decoded pairs and the bytes that follow them.
pub type DecodedPairs = Result<(Seq<(SpecTerm, SpecTerm)>, Seq<u8>), DecodeError>;

/// The bytes after the tag byte `expected`.
pub open spec fn spec_tag(s: Seq<u8>, expected: u8) -> Result<Seq<u8>, DecodeError> {
    if s.len() == 0 {
        Err(DecodeError::IncompleteInput)
    } else if s[0] != expected {
        Err(DecodeError::UnknownTag)
    } else {
        Ok(s.skip(1))
    }
}

/// The first `count` bytes, and the bytes after them.
pub open spec fn spec_take(s: Seq<u8>, count: nat) -> Result<(Seq<u8>, Seq<u8>), DecodeError> {
    if s.len() < count {
        Err(DecodeError::IncompleteInput)
    } else {
        Ok((s.take(count as int), s.skip(count as int)))
    }
}

/// Tag, then one byte.
pub open spec fn spec_small_int(s: Seq<u8>) -> Decoded {
    match spec_tag(s, SMALL_INTEGER_EXT) {
        Err(e) => Err(e),
        Ok(body) => match spec_take(body, 1) {
            Err(e) => Err(e),
            Ok((value, rest)) => Ok((SpecTerm::SmallInt(value[0]), rest)),
        },
    }
}

/// Tag, then four bytes, big-endian and signed.
pub open spec fn spec_integer(s: Seq<u8>) -> Decoded {
    match spec_tag(s, INTEGER_EXT) {
        Err(e) => Err(e),
        Ok(body) => match spec_take(body, 4) {
            Err(e) => Err(e),
            Ok((value, rest)) => Ok((SpecTerm::Int(be_i32(value) as i32), rest)),
        },
    }
}

/// Tag, then the eight bytes of an IEEE 754 bit pattern, big-endian.
pub open spec fn spec_float(s: Seq<u8>) -> Decoded {
    match spec_tag(s, NEW_FLOAT_EXT) {
        Err(e) => Err(e),
        Ok(body) => match spec_take(body, 8) {
            Err(e) => Err(e),
            Ok((bits, rest)) => Ok((SpecTerm::Float(be_value(bits) as u64), rest)),
        },
    }
}

/// The characters of an atom name.
pub open spec fn spec_atom_name(bytes: Seq<u8>) -> Result<Seq<char>, DecodeError> {
    if valid_utf8(bytes) {
        Ok(decode_utf8(bytes))
    } else {
        Err(DecodeError::InvalidText)
    }
}

/// Tag, one-byte length, then the name.
pub open spec fn spec_small_atom(s: Seq<u8>) -> Decoded {
    match spec_tag(s, SMALL_ATOM_UTF8_EXT) {
        Err(e) => Err(e),
        Ok(body) => match spec_take(body, 1) {
            Err(e) => Err(e),
            Ok((length, rest)) => match spec_take(rest, be_value(length)) {
                Err(e) => Err(e),
                Ok((name, rest)) => match spec_atom_name(name) {
                    Err(e) => Err(e),
                    Ok(text) => Ok((SpecTerm::SmallAtom(text), rest)),
                },
            },
        },
    }
}

/// Tag, two-byte length, then the name.
pub open spec fn spec_atom_deprecated(s: Seq<u8>) -> Decoded {
    match spec_tag(s, ATOM_EXT_DEPRECATED) {
        Err(e) => Err(e),
        Ok(body) => match spec_take(body, 2) {
            Err(e) => Err(e),
            Ok((length, rest)) => match spec_take(rest, be_value(length)) {
                Err(e) => Err(e),
                Ok((name, rest)) => match spec_atom_name(name) {
                    Err(e) => Err(e),
                    Ok(text) => Ok((SpecTerm::AtomDeprecated(text), rest)),
                },
            },
        },
    }
}

/// The tag alone.
pub open spec fn spec_empty_list(s: Seq<u8>) -> Decoded {
    match spec_tag(s, NIL_EXT) {
        Err(e) => Err(e),
        Ok(rest) => Ok((SpecTerm::Nil, rest)),
    }
}

/// Tag, four-byte length, then the bytes.
pub open spec fn spec_binary(s: Seq<u8>) -> Decoded {
    match spec_tag(s, BINARY_EXT) {
        Err(e) => Err(e),
        Ok(body) => match spec_take(body, 4) {
            Err(e) => Err(e),
            Ok((length, rest)) => match spec_take(rest, be_value(length)) {
                Err(e) => Err(e),
                Ok((data, rest)) => Ok((SpecTerm::Binary(data), rest)),
            },
        },
    }
}

/// Tag, two-byte length, then the bytes, which stay bytes.
pub open spec fn spec_string(s: Seq<u8>) -> Decoded {
    match spec_tag(s, STRING_EXT) {
        Err(e) => Err(e),
        Ok(body) => match spec_take(body, 2) {
            Err(e) => Err(e),
            Ok((length, rest)) => match spec_take(rest, be_value(length)) {
                Err(e) => Err(e),
                Ok((data, rest)) => Ok((SpecTerm::String(data), rest)),
            },
        },
    }
}

/// The number that a sign byte and a little-endian magnitude stand for.
pub open spec fn spec_big_value(sign: u8, magnitude: Seq<u8>) -> Result<int, DecodeError> {
    if sign == 0 {
        Ok(signed_magnitude(false, magnitude))
    } else if sign == 1 {
        Ok(signed_magnitude(true, magnitude))
    } else {
        Err(DecodeError::InvalidSign)
    }
}

/// Tag, one-byte length, sign byte, then the magnitude.
pub open spec fn spec_small_big_int(s: Seq<u8>) -> Decoded {
    match spec_tag(s, SMALL_BIG_EXT) {
        Err(e) => Err(e),
        Ok(body) => match spec_take(body, 2) {
            Err(e) => Err(e),
            Ok((header, rest)) => match spec_take(rest, header[0] as nat) {
                Err(e) => Err(e),
                Ok((magnitude, rest)) => match spec_big_value(header[1], magnitude) {
                    Err(e) => Err(e),
                    Ok(value) => Ok((SpecTerm::SmallBigInt(value), rest)),
                },
            },
        },
    }
}

/// Tag, four-byte length, sign byte, then the magnitude.
pub open spec fn spec_large_big_int(s: Seq<u8>) -> Decoded {
    match spec_tag(s, LARGE_BIG_EXT) {
        Err(e) => Err(e),
        Ok(body) => match spec_take(body, 5) {
            Err(e) => Err(e),
            Ok((header, rest)) => match spec_take(rest, be_value(header.take(4))) {
                Err(e) => Err(e),
                Ok((magnitude, rest)) => match spec_big_value(header[4], magnitude) {
                    Err(e) => Err(e),
                    Ok(value) => Ok((SpecTerm::LargeBigInt(value), rest)),
                },
            },
        },
    }
}

/// A node or module name: one of the two atom encodings and nothing else.
pub open spec fn spec_node_or_module(s: Seq<u8>) -> Decoded {
    if s.len() == 0 {
        Err(DecodeError::IncompleteInput)
    } else if s[0] == SMALL_ATOM_UTF8_EXT {
        spec_small_atom(s)
    } else if s[0] == ATOM_EXT_DEPRECATED {
        spec_atom_deprecated(s)
    } else {
        Err(DecodeError::RestrictedNodeViolation)
    }
}

/// A small integer or an integer.
pub open spec fn spec_small_int_or_int(s: Seq<u8>) -> Decoded {
    if s.len() == 0 {
        Err(DecodeError::IncompleteInput)
    } else if s[0] == SMALL_INTEGER_EXT {
        spec_small_int(s)
    } else if s[0] == INTEGER_EXT {
        spec_integer(s)
    } else {
        Err(DecodeError::UnknownTag)
    }
}

/// Tag, node, four-byte id, four-byte serial, creation byte.
pub open spec fn spec_pid(s: Seq<u8>) -> Decoded {
    match spec_tag(s, PID_EXT) {
        Err(e) => Err(e),
        Ok(body) => match spec_node_or_module(body) {
            Err(e) => Err(e),
            Ok((node, rest)) => match spec_take(rest, 9) {
                Err(e) => Err(e),
                Ok((fields, rest)) => Ok(
                    (
                        SpecTerm::Pid {
                            node: Box::new(node),
                            id: be_value(fields.subrange(0, 4)) as u32,
                            serial: be_value(fields.subrange(4, 8)) as u32,
                            creation: fields[8],
                        },
                        rest,
                    ),
                ),
            },
        },
    }
}

/// Tag, node, four-byte id, creation byte.
pub open spec fn spec_port(s: Seq<u8>) -> Decoded {
    match spec_tag(s, PORT_EXT) {
        Err(e) => Err(e),
        Ok(body) => match spec_node_or_module(body) {
            Err(e) => Err(e),
            Ok((node, rest)) => match spec_take(rest, 5) {
                Err(e) => Err(e),
                Ok((fields, rest)) => Ok(
                    (
                        SpecTerm::Port {
                            node: Box::new(node),
                            id: be_value(fields.subrange(0, 4)) as u32,
                            creation: fields[4],
                        },
                        rest,
                    ),
                ),
            },
        },
    }
}

/// The big-endian 32-bit words that `bytes` is made of.
pub open spec fn spec_words(bytes: Seq<u8>) -> Seq<u32> {
    Seq::new(bytes.len() / 4, |i: int| be_value(bytes.subrange(4 * i, 4 * i + 4)) as u32)
}

/// Tag, two-byte word count, node, creation byte, then the words.
pub open spec fn spec_reference(s: Seq<u8>) -> Decoded {
    match spec_tag(s, NEW_REFERENCE_EXT) {
        Err(e) => Err(e),
        Ok(body) => match spec_take(body, 2) {
            Err(e) => Err(e),
            Ok((count, rest)) => match spec_node_or_module(rest) {
                Err(e) => Err(e),
                Ok((node, rest)) => match spec_take(rest, 1) {
                    Err(e) => Err(e),
                    Ok((creation, rest)) => match spec_take(rest, 4 * be_value(count)) {
                        Err(e) => Err(e),
                        Ok((words, rest)) => Ok(
                            (
                                SpecTerm::Ref {
                                    node: Box::new(node),
                                    id: spec_words(words),
                                    creation: creation[0],
                                },
                                rest,
                            ),
                        ),
                    },
                },
            },
        },
    }
}

/// A list's elements as they stand in the tree, from the `count + 1` terms of
/// the wire: a `Nil` tail is dropped, any other tail is kept as `Improper`.
pub open spec fn spec_list_items(terms: Seq<SpecTerm>) -> Seq<SpecTerm>
    recommends
        terms.len() > 0,
{
    if terms.last() is Nil {
        terms.drop_last()
    } else {
        terms.drop_last().push(SpecTerm::Improper(Box::new(terms.last())))
    }
}

/// `count` terms in a row, the children of a term that was itself decoded
/// under `limits`. Children need a level of depth.
pub open spec fn spec_terms(s: Seq<u8>, count: nat, limits: Limits) -> DecodedTerms
    decreases limits.depth, 0nat, count,
{
    if count == 0 {
        Ok((Seq::empty(), s))
    } else if limits.depth == 0 {
        Err(DecodeError::NestingTooDeep)
    } else {
        match spec_term(s, deeper(limits)) {
            Err(e) => Err(e),
            Ok((first, rest)) => match spec_terms(rest, (count - 1) as nat, limits) {
                Err(e) => Err(e),
                Ok((others, rest)) => Ok((seq![first] + others, rest)),
            },
        }
    }
}

/// `count` pairs of key and value in a row.
pub open spec fn spec_pairs(s: Seq<u8>, count: nat, limits: Limits) -> DecodedPairs
    decreases limits.depth, 0nat, count,
{
    if count == 0 {
        Ok((Seq::empty(), s))
    } else if limits.depth == 0 {
        Err(DecodeError::NestingTooDeep)
    } else {
        match spec_term(s, deeper(limits)) {
            Err(e) => Err(e),
            Ok((key, rest)) => match spec_term(rest, deeper(limits)) {
                Err(e) => Err(e),
                Ok((value, rest)) => match spec_pairs(rest, (count - 1) as nat, limits) {
                    Err(e) => Err(e),
                    Ok((others, rest)) => Ok((seq![(key, value)] + others, rest)),
                },
            },
        }
    }
}

/// Tag, one-byte arity, then the elements.
pub open spec fn spec_small_tuple(s: Seq<u8>, limits: Limits) -> Decoded
    decreases limits.depth, 1nat, 0nat,
{
    match spec_tag(s, SMALL_TUPLE_EXT) {
        Err(e) => Err(e),
        Ok(body) => match spec_take(body, 1) {
            Err(e) => Err(e),
            Ok((arity, rest)) => match spec_terms(rest, be_value(arity), limits) {
                Err(e) => Err(e),
                Ok((items, rest)) => Ok((SpecTerm::SmallTuple(items), rest)),
            },
        },
    }
}

/// Tag, four-byte count, then the elements and the tail.
pub open spec fn spec_list(s: Seq<u8>, limits: Limits) -> Decoded
    decreases limits.depth, 1nat, 0nat,
{
    match spec_tag(s, LIST_EXT) {
        Err(e) => Err(e),
        Ok(body) => match spec_take(body, 4) {
            Err(e) => Err(e),
            Ok((count, rest)) => match spec_terms(rest, be_value(count) + 1, limits) {
                Err(e) => Err(e),
                Ok((terms, rest)) => Ok((SpecTerm::List(spec_list_items(terms)), rest)),
            },
        },
    }
}

/// Tag, four-byte arity, then the pairs.
pub open spec fn spec_map(s: Seq<u8>, limits: Limits) -> Decoded
    decreases limits.depth, 1nat, 0nat,
{
    match spec_tag(s, MAP_EXT) {
        Err(e) => Err(e),
        Ok(body) => match spec_take(body, 4) {
            Err(e) => Err(e),
            Ok((arity, rest)) => match spec_pairs(rest, be_value(arity), limits) {
                Err(e) => Err(e),
                Ok((pairs, rest)) => Ok((SpecTerm::Mapping(pairs), rest)),
            },
        },
    }
}

/// The four terms that say where a function was made: its module, its old
/// index, its old uniqueness number and the process that made it.
///
/// Opaque for the same reason as `spec_leaf`.
#[verifier::opaque]
pub open spec fn spec_fun_origin(s: Seq<u8>) -> Result<
    ((SpecTerm, SpecTerm, SpecTerm, SpecTerm), Seq<u8>),
    DecodeError,
> {
    match spec_node_or_module(s) {
        Err(e) => Err(e),
        Ok((module, rest)) => match spec_small_int_or_int(rest) {
            Err(e) => Err(e),
            Ok((old_index, rest)) => match spec_small_int_or_int(rest) {
                Err(e) => Err(e),
                Ok((old_uniq, rest)) => match spec_pid(rest) {
                    Err(e) => Err(e),
                    Ok((pid, rest)) => Ok(((module, old_index, old_uniq, pid), rest)),
                },
            },
        },
    }
}

/// The function term that the 29 bytes of fixed fields, the origin and the
/// free variables make up. The fixed fields are the size (4 bytes), the
/// arity (1), the uniqueness hash (16), the index (4) and the number of free
/// variables (4).
pub open spec fn spec_fun_term(
    header: Seq<u8>,
    origin: (SpecTerm, SpecTerm, SpecTerm, SpecTerm),
    free_var: Seq<SpecTerm>,
) -> SpecTerm {
    SpecTerm::Function {
        size: be_value(header.subrange(0, 4)) as u32,
        arity: header[4],
        uniq: header.subrange(5, 21),
        index: be_value(header.subrange(21, 25)) as u32,
        module: Box::new(origin.0),
        old_index: Box::new(origin.1),
        old_uniq: Box::new(origin.2),
        pid: Box::new(origin.3),
        free_var,
    }
}

/// Tag, fixed fields, origin, then the free variables.
pub open spec fn spec_function(s: Seq<u8>, limits: Limits) -> Decoded
    decreases limits.depth, 1nat, 0nat,
{
    match spec_tag(s, NEW_FUN_EXT) {
        Err(e) => Err(e),
        Ok(body) => match spec_take(body, 29) {
            Err(e) => Err(e),
            Ok((header, rest)) => match spec_fun_origin(rest) {
                Err(e) => Err(e),
                Ok((origin, rest)) => match spec_terms(
                    rest,
                    be_value(header.subrange(25, 29)),
                    limits,
                ) {
                    Err(e) => Err(e),
                    Ok((free_var, rest)) => Ok((spec_fun_term(header, origin, free_var), rest)),
                },
            },
        },
    }
}

/// Room that is made for the inflated bytes of an envelope that announces
/// `hint` of them, where at most `cap` are allowed.
pub open spec fn spec_inflate_limit(hint: nat, cap: nat) -> nat {
    if hint <= cap {
        hint
    } else {
        cap
    }
}

/// The one term that fills `s` from end to end.
pub open spec fn spec_sole_term(s: Seq<u8>, limits: Limits) -> Result<SpecTerm, DecodeError>
    decreases limits.depth, 3nat, 0nat,
{
    match spec_term(s, limits) {
        Err(e) => Err(e),
        Ok((term, rest)) => if rest.len() == 0 {
            Ok(term)
        } else {
            Err(DecodeError::TrailingData)
        },
    }
}

/// The compressed envelope: a size hint, then a zlib stream that takes up the
/// rest of the input and inflates to exactly one term. The stream is inflated
/// into room for as many bytes as the hint announces, capped by what the
/// limits allow; what does not fit is not looked at. Where the limits accept
/// no envelopes, the tag has no decoder.
pub open spec fn spec_gzip(s: Seq<u8>, limits: Limits) -> Decoded
    decreases limits.depth, 1nat, 0nat,
{
    match spec_tag(s, ZLIB) {
        Err(e) => Err(e),
        Ok(body) => match limits.inflate {
            None => Err(DecodeError::UnknownTag),
            Some(cap) => match spec_take(body, 4) {
                Err(e) => Err(e),
                Ok((hint, stream)) => if limits.depth == 0 {
                    Err(DecodeError::NestingTooDeep)
                } else {
                    match zlib_inflated(stream, spec_inflate_limit(be_value(hint), cap as nat)) {
                        None => Err(DecodeError::CompressionFailure),
                        Some(inflated) => match spec_sole_term(inflated, deeper(limits)) {
                            Err(e) => Err(e),
                            Ok(inner) => Ok((inner, Seq::empty())),
                        },
                    }
                },
            },
        },
    }
}

/// One term that has no terms inside it: the first byte chooses the decoder.
///
/// The definition is opaque, so that a proof about terms in general does not
/// go through every one of these decoders: a proof that goes by the tag
/// says `reveal(spec_leaf)`.
#[verifier::opaque]
pub open spec fn spec_leaf(s: Seq<u8>) -> Decoded {
    if s.len() == 0 {
        Err(DecodeError::IncompleteInput)
    } else if s[0] == SMALL_INTEGER_EXT {
        spec_small_int(s)
    } else if s[0] == INTEGER_EXT {
        spec_integer(s)
    } else if s[0] == NEW_FLOAT_EXT {
        spec_float(s)
    } else if s[0] == ATOM_EXT_DEPRECATED {
        spec_atom_deprecated(s)
    } else if s[0] == SMALL_ATOM_UTF8_EXT {
        spec_small_atom(s)
    } else if s[0] == NIL_EXT {
        spec_empty_list(s)
    } else if s[0] == BINARY_EXT {
        spec_binary(s)
    } else if s[0] == STRING_EXT {
        spec_string(s)
    } else if s[0] == SMALL_BIG_EXT {
        spec_small_big_int(s)
    } else if s[0] == LARGE_BIG_EXT {
        spec_large_big_int(s)
    } else if s[0] == PID_EXT {
        spec_pid(s)
    } else if s[0] == PORT_EXT {
        spec_port(s)
    } else if s[0] == NEW_REFERENCE_EXT {
        spec_reference(s)
    } else {
        Err(DecodeError::UnknownTag)
    }
}

/// One term: the first byte chooses the decoder. The tags are all different,
/// so the order in which they are compared is of no consequence.
pub open spec fn spec_term(s: Seq<u8>, limits: Limits) -> Decoded
    decreases limits.depth, 2nat, 0nat,
{
    if s.len() == 0 {
        Err(DecodeError::IncompleteInput)
    } else if s[0] == LIST_EXT {
        spec_list(s, limits)
    } else if s[0] == MAP_EXT {
        spec_map(s, limits)
    } else if s[0] == SMALL_TUPLE_EXT {
        spec_small_tuple(s, limits)
    } else if s[0] == NEW_FUN_EXT {
        spec_function(s, limits)
    } else if s[0] == ZLIB {
        spec_gzip(s, limits)
    } else {
        spec_leaf(s)
    }
}

/// The terms that fill `s` from end to end, each decoded under `limits`. A
/// term takes up at least one byte (`lemma_term_consumes`), so the comparison
/// of lengths below always holds; it stands there to show that the
/// definition ends.
pub open spec fn spec_top_terms(s: Seq<u8>, limits: Limits) -> Result<Seq<SpecTerm>, DecodeError>
    decreases s.len(),
{
    if s.len() == 0 {
        Ok(Seq::empty())
    } else {
        match spec_term(s, limits) {
            Err(e) => Err(e),
            Ok((first, rest)) => if rest.len() < s.len() {
                match spec_top_terms(rest, limits) {
                    Err(e) => Err(e),
                    Ok(others) => Ok(seq![first] + others),
                }
            } else {
                Ok(seq![first])
            },
        }
    }
}

/// Every term of a payload: the version marker, then terms until the input
/// ends.
pub open spec fn spec_parser(s: Seq<u8>, limits: Limits) -> Result<Seq<SpecTerm>, DecodeError> {
    if s.len() == 0 {
        Err(DecodeError::IncompleteInput)
    } else if s[0] != REVISION {
        Err(DecodeError::BadVersion)
    } else {
        spec_top_terms(s.skip(1), limits)
    }
}

/// The first term of a payload.
pub open spec fn spec_from_bytes(s: Seq<u8>, limits: Limits) -> Result<SpecTerm, DecodeError> {
    match spec_parser(s, limits) {
        Err(e) => Err(e),
        Ok(terms) => if terms.len() == 0 {
            Err(DecodeError::EmptyPayload)
        } else {
            Ok(terms[0])
        },
    }
}

} // verus!
