//! The executable decoders. Each one computes what the grammar function of
//! the same name prescribes, and its contract says exactly that.

use crate::bigint::big_int_from_bytes_le;
use crate::bigint::big_int_value;
use crate::bytes::slice_to_i32;
use crate::bytes::slice_to_u16;
use crate::bytes::slice_to_u32;
use crate::bytes::slice_to_u64;
use crate::bytes::slice_to_u8;
use crate::consts::ATOM_EXT_DEPRECATED;
use crate::consts::BINARY_EXT;
use crate::consts::INTEGER_EXT;
use crate::consts::LARGE_BIG_EXT;
use crate::consts::LIST_EXT;
use crate::consts::MAP_EXT;
use crate::consts::NEW_FLOAT_EXT;
use crate::consts::NEW_FUN_EXT;
use crate::consts::NEW_REFERENCE_EXT;
use crate::consts::NIL_EXT;
use crate::consts::PID_EXT;
use crate::consts::PORT_EXT;
use crate::consts::REVISION;
use crate::consts::SMALL_ATOM_UTF8_EXT;
use crate::consts::SMALL_BIG_EXT;
use crate::consts::SMALL_INTEGER_EXT;
use crate::consts::SMALL_TUPLE_EXT;
use crate::consts::STRING_EXT;
use crate::consts::ZLIB;
use crate::error::DecodeError;
use crate::grammar::Decoded;
use crate::grammar::DecodedPairs;
use crate::grammar::DecodedTerms;
use crate::grammar::spec_atom_deprecated;
use crate::grammar::spec_atom_name;
use crate::grammar::spec_big_value;
use crate::grammar::spec_binary;
use crate::grammar::spec_empty_list;
use crate::grammar::spec_float;
use crate::grammar::spec_from_bytes;
use crate::grammar::spec_fun_origin;
use crate::grammar::spec_fun_term;
use crate::grammar::spec_function;
use crate::grammar::spec_gzip;
use crate::grammar::spec_inflate_limit;
use crate::grammar::spec_integer;
use crate::grammar::spec_large_big_int;
use crate::grammar::spec_leaf;
use crate::grammar::spec_list;
use crate::grammar::spec_list_items;
use crate::grammar::spec_map;
use crate::grammar::spec_node_or_module;
use crate::grammar::spec_pairs;
use crate::grammar::spec_parser;
use crate::grammar::spec_pid;
use crate::grammar::spec_port;
use crate::grammar::spec_reference;
use crate::grammar::spec_small_atom;
use crate::grammar::spec_small_big_int;
use crate::grammar::spec_small_int;
use crate::grammar::spec_small_int_or_int;
use crate::grammar::spec_small_tuple;
use crate::grammar::spec_sole_term;
use crate::grammar::spec_string;
use crate::grammar::spec_tag;
use crate::grammar::spec_take;
use crate::grammar::spec_term;
use crate::grammar::spec_terms;
use crate::grammar::spec_top_terms;
use crate::grammar::spec_words;
use crate::inflate::zlib_inflate;
use crate::lemmas::after;
use crate::lemmas::behind;
use crate::lemmas::lemma_after_nothing;
use crate::lemmas::lemma_pairs_step;
use crate::lemmas::lemma_terms_step;
use crate::lemmas::lemma_top_terms_step;
use crate::limits::Limits;
use crate::limits::standard_limits;
use crate::shape::lemma_payload_well_formed;
use crate::shape::lemma_term_well_formed;
use crate::term::all_well_formed;
use crate::term::lemma_pairs_view_push;
use crate::term::lemma_terms_view_push;
use crate::term::pairs_view;
use crate::term::RawTerm;
use crate::term::SpecTerm;
use crate::term::terms_view;
use crate::term::well_formed;
use num_bigint::BigInt;
use vstd::prelude::*;
use vstd::slice::slice_subrange;
use vstd::slice::slice_to_vec;

verus! {

/// What the result of `from_bytes` stands for.
pub open spec fn term_result_view(r: Result<RawTerm, DecodeError>) -> Result<SpecTerm, DecodeError> {
    match r {
        Ok(term) => Ok(term@),
        Err(e) => Err(e),
    }
}

/// What the result of `parser` stands for.
pub open spec fn terms_result_view(r: Result<Vec<RawTerm>, DecodeError>) -> Result<
    Seq<SpecTerm>,
    DecodeError,
> {
    match r {
        Ok(terms) => Ok(terms_view(terms@)),
        Err(e) => Err(e),
    }
}

/// Decodes a payload under the standard limits and hands back its first
/// term.
///
/// The payload is the version marker followed by terms up to its last byte.
/// All of it is decoded, so a fault anywhere in it is reported, with the
/// error of the term that could not be decoded. A payload of the version
/// marker alone is an `EmptyPayload`. The term that comes back stands for
/// what the grammar prescribes, and is well formed.
pub fn from_bytes(input: &[u8]) -> (r: Result<RawTerm, DecodeError>)
    ensures
        term_result_view(r) == spec_from_bytes(input@, standard_limits()),
        r matches Ok(term) ==> well_formed(term@),
{
    from_bytes_with(input, Limits::default())
}

/// Decodes a payload under the standard limits and hands back every term in
/// it, in order.
pub fn parser(input: &[u8]) -> (r: Result<Vec<RawTerm>, DecodeError>)
    ensures
        terms_result_view(r) == spec_parser(input@, standard_limits()),
        r matches Ok(terms) ==> all_well_formed(terms_view(terms@)),
{
    parser_with(input, Limits::default())
}

/// Decodes a payload under the given limits and hands back its first term.
pub fn from_bytes_with(input: &[u8], limits: Limits) -> (r: Result<RawTerm, DecodeError>)
    ensures
        term_result_view(r) == spec_from_bytes(input@, limits),
        r matches Ok(term) ==> well_formed(term@),
{
    proof {
        lemma_payload_well_formed(input@, limits);
    }
    let mut found = parser_with(input, limits)?;
    if found.len() == 0 {
        Err(DecodeError::EmptyPayload)
    } else {
        Ok(found.remove(0))
    }
}

/// Decodes a payload under the given limits and hands back every term in it,
/// in order. Each top-level term may nest as deeply as the limits say.
pub fn parser_with(input: &[u8], limits: Limits) -> (r: Result<Vec<RawTerm>, DecodeError>)
    ensures
        terms_result_view(r) == spec_parser(input@, limits),
        r matches Ok(terms) ==> all_well_formed(terms_view(terms@)),
{
    proof {
        lemma_payload_well_formed(input@, limits);
    }
    if input.len() == 0 {
        return Err(DecodeError::IncompleteInput);
    }
    if input[0] != REVISION {
        return Err(DecodeError::BadVersion);
    }
    let mut found: Vec<RawTerm> = Vec::new();
    let mut rest = slice_subrange(input, 1, input.len());
    proof {
        assert(terms_view(found@) =~= Seq::empty());
        match spec_top_terms(rest@, limits) {
            Ok(terms) => {
                assert(Seq::<SpecTerm>::empty() + terms =~= terms);
            },
            Err(_) => {},
        }
    }
    while rest.len() > 0
        invariant
            spec_parser(input@, limits) == behind(
                terms_view(found@),
                spec_top_terms(rest@, limits),
            ),
        decreases rest@.len(),
    {
        let ghost before = found@;
        let ghost here = rest@;
        let (item, next) = term(rest, limits)?;
        proof {
            lemma_top_terms_step(terms_view(before), here, limits, item@, next@);
            lemma_terms_view_push(before, item);
        }
        found.push(item);
        rest = next;
    }
    proof {
        assert(terms_view(found@) + Seq::<SpecTerm>::empty() =~= terms_view(found@));
    }
    Ok(found)
}

/// What the result of `tag` stands for.
pub open spec fn rest_view(r: Result<&[u8], DecodeError>) -> Result<Seq<u8>, DecodeError> {
    match r {
        Ok(rest) => Ok(rest@),
        Err(e) => Err(e),
    }
}

/// What the result of `take` stands for.
pub open spec fn taken_view(r: Result<(&[u8], &[u8]), DecodeError>) -> Result<
    (Seq<u8>, Seq<u8>),
    DecodeError,
> {
    match r {
        Ok((taken, rest)) => Ok((taken@, rest@)),
        Err(e) => Err(e),
    }
}

/// What the result of a decoder stands for.
pub open spec fn decoded_view(r: Result<(RawTerm, &[u8]), DecodeError>) -> Decoded {
    match r {
        Ok((term, rest)) => Ok((term@, rest@)),
        Err(e) => Err(e),
    }
}

/// Matches one tag byte and hands back what follows it.
pub fn tag(input: &[u8], expected: u8) -> (r: Result<&[u8], DecodeError>)
    ensures
        rest_view(r) == spec_tag(input@, expected),
{
    if input.len() == 0 {
        Err(DecodeError::IncompleteInput)
    } else if input[0] != expected {
        Err(DecodeError::UnknownTag)
    } else {
        Ok(slice_subrange(input, 1, input.len()))
    }
}

/// Splits off the first `count` bytes.
pub fn take(input: &[u8], count: usize) -> (r: Result<(&[u8], &[u8]), DecodeError>)
    ensures
        taken_view(r) == spec_take(input@, count as nat),
{
    if input.len() < count {
        Err(DecodeError::IncompleteInput)
    } else {
        Ok((slice_subrange(input, 0, count), slice_subrange(input, count, input.len())))
    }
}

/// A small integer: the tag, then one byte.
pub fn small_int(input: &[u8]) -> (r: Result<(RawTerm, &[u8]), DecodeError>)
    ensures
        decoded_view(r) == spec_small_int(input@),
{
    let body = tag(input, SMALL_INTEGER_EXT)?;
    let (value, rest) = take(body, 1)?;
    Ok((RawTerm::SmallInt(value[0]), rest))
}

/// An integer: the tag, then four bytes, big-endian and signed.
pub fn integer(input: &[u8]) -> (r: Result<(RawTerm, &[u8]), DecodeError>)
    ensures
        decoded_view(r) == spec_integer(input@),
{
    let body = tag(input, INTEGER_EXT)?;
    let (value, rest) = take(body, 4)?;
    Ok((RawTerm::Int(slice_to_i32(value)), rest))
}

/// A float: the tag, then the eight bytes of its IEEE 754 bit pattern,
/// big-endian.
pub fn float(input: &[u8]) -> (r: Result<(RawTerm, &[u8]), DecodeError>)
    ensures
        decoded_view(r) == spec_float(input@),
{
    let body = tag(input, NEW_FLOAT_EXT)?;
    let (bits, rest) = take(body, 8)?;
    Ok((RawTerm::Float(slice_to_u64(bits)), rest))
}

/// What the result of `atom_name` stands for.
pub open spec fn text_view(r: Result<String, DecodeError>) -> Result<Seq<char>, DecodeError> {
    match r {
        Ok(text) => Ok(text@),
        Err(e) => Err(e),
    }
}

/// Reads the bytes of an atom name as UTF-8 text.
pub fn atom_name(bytes: &[u8]) -> (r: Result<String, DecodeError>)
    ensures
        text_view(r) == spec_atom_name(bytes@),
{
    match String::from_utf8(slice_to_vec(bytes)) {
        Ok(text) => Ok(text),
        Err(_) => Err(DecodeError::InvalidText),
    }
}

/// An atom with a one-byte length in front of its name.
pub fn small_atom(input: &[u8]) -> (r: Result<(RawTerm, &[u8]), DecodeError>)
    ensures
        decoded_view(r) == spec_small_atom(input@),
{
    let body = tag(input, SMALL_ATOM_UTF8_EXT)?;
    let (length, rest) = take(body, 1)?;
    let (name, rest) = take(rest, slice_to_u8(length) as usize)?;
    let text = atom_name(name)?;
    Ok((RawTerm::SmallAtom(text), rest))
}

/// An atom with a two-byte length in front of its name.
pub fn atom_deprecated(input: &[u8]) -> (r: Result<(RawTerm, &[u8]), DecodeError>)
    ensures
        decoded_view(r) == spec_atom_deprecated(input@),
{
    let body = tag(input, ATOM_EXT_DEPRECATED)?;
    let (length, rest) = take(body, 2)?;
    let (name, rest) = take(rest, slice_to_u16(length) as usize)?;
    let text = atom_name(name)?;
    Ok((RawTerm::AtomDeprecated(text), rest))
}

/// The empty list: the tag and nothing else.
pub fn empty_list(input: &[u8]) -> (r: Result<(RawTerm, &[u8]), DecodeError>)
    ensures
        decoded_view(r) == spec_empty_list(input@),
{
    let rest = tag(input, NIL_EXT)?;
    Ok((RawTerm::Nil, rest))
}

/// A binary: the tag, a four-byte length, then that many bytes.
pub fn binary(input: &[u8]) -> (r: Result<(RawTerm, &[u8]), DecodeError>)
    ensures
        decoded_view(r) == spec_binary(input@),
{
    let body = tag(input, BINARY_EXT)?;
    let (length, rest) = take(body, 4)?;
    let (data, rest) = take(rest, slice_to_u32(length) as usize)?;
    Ok((RawTerm::Binary(slice_to_vec(data)), rest))
}

/// A packed list of small integers: the tag, a two-byte length, then that
/// many bytes, which stay bytes.
pub fn string(input: &[u8]) -> (r: Result<(RawTerm, &[u8]), DecodeError>)
    ensures
        decoded_view(r) == spec_string(input@),
{
    let body = tag(input, STRING_EXT)?;
    let (length, rest) = take(body, 2)?;
    let (data, rest) = take(rest, slice_to_u16(length) as usize)?;
    Ok((RawTerm::String(slice_to_vec(data)), rest))
}

/// What the result of `big_value` stands for.
pub open spec fn big_value_view(r: Result<BigInt, DecodeError>) -> Result<int, DecodeError> {
    match r {
        Ok(n) => Ok(big_int_value(n)),
        Err(e) => Err(e),
    }
}

/// Builds the big integer that a sign byte and a little-endian magnitude
/// stand for.
pub fn big_value(sign: u8, magnitude: &[u8]) -> (r: Result<BigInt, DecodeError>)
    ensures
        big_value_view(r) == spec_big_value(sign, magnitude@),
{
    if sign == 0 {
        Ok(big_int_from_bytes_le(false, magnitude))
    } else if sign == 1 {
        Ok(big_int_from_bytes_le(true, magnitude))
    } else {
        Err(DecodeError::InvalidSign)
    }
}

/// A big integer with a one-byte length: the tag, the length, the sign
/// byte, then the magnitude, least significant byte first.
pub fn small_big_int(input: &[u8]) -> (r: Result<(RawTerm, &[u8]), DecodeError>)
    ensures
        decoded_view(r) == spec_small_big_int(input@),
{
    let body = tag(input, SMALL_BIG_EXT)?;
    let (header, rest) = take(body, 2)?;
    let (magnitude, rest) = take(rest, header[0] as usize)?;
    let value = big_value(header[1], magnitude)?;
    Ok((RawTerm::SmallBigInt(value), rest))
}

/// A big integer with a four-byte length: the tag, the length, the sign
/// byte, then the magnitude, least significant byte first.
pub fn large_big_int(input: &[u8]) -> (r: Result<(RawTerm, &[u8]), DecodeError>)
    ensures
        decoded_view(r) == spec_large_big_int(input@),
{
    let body = tag(input, LARGE_BIG_EXT)?;
    let (header, rest) = take(body, 5)?;
    let length = slice_to_u32(slice_subrange(header, 0, 4));
    let (magnitude, rest) = take(rest, length as usize)?;
    let value = big_value(header[4], magnitude)?;
    Ok((RawTerm::LargeBigInt(value), rest))
}

/// A node or module name: only the two atom decoders are tried.
pub fn node_or_module(input: &[u8]) -> (r: Result<(RawTerm, &[u8]), DecodeError>)
    ensures
        decoded_view(r) == spec_node_or_module(input@),
{
    if input.len() == 0 {
        Err(DecodeError::IncompleteInput)
    } else if input[0] == SMALL_ATOM_UTF8_EXT {
        small_atom(input)
    } else if input[0] == ATOM_EXT_DEPRECATED {
        atom_deprecated(input)
    } else {
        Err(DecodeError::RestrictedNodeViolation)
    }
}

/// A small integer or an integer, and no other term.
pub fn small_int_or_int(input: &[u8]) -> (r: Result<(RawTerm, &[u8]), DecodeError>)
    ensures
        decoded_view(r) == spec_small_int_or_int(input@),
{
    if input.len() == 0 {
        Err(DecodeError::IncompleteInput)
    } else if input[0] == SMALL_INTEGER_EXT {
        small_int(input)
    } else if input[0] == INTEGER_EXT {
        integer(input)
    } else {
        Err(DecodeError::UnknownTag)
    }
}

/// A process identifier: the tag, the node, then a four-byte id, a
/// four-byte serial and the creation byte.
pub fn pid(input: &[u8]) -> (r: Result<(RawTerm, &[u8]), DecodeError>)
    ensures
        decoded_view(r) == spec_pid(input@),
{
    let body = tag(input, PID_EXT)?;
    let (node, rest) = node_or_module(body)?;
    let (fields, rest) = take(rest, 9)?;
    let id = slice_to_u32(slice_subrange(fields, 0, 4));
    let serial = slice_to_u32(slice_subrange(fields, 4, 8));
    let creation = fields[8];
    Ok((RawTerm::Pid { node: Box::new(node), id, serial, creation }, rest))
}

/// A port: the tag, the node, then a four-byte id and the creation byte.
pub fn port(input: &[u8]) -> (r: Result<(RawTerm, &[u8]), DecodeError>)
    ensures
        decoded_view(r) == spec_port(input@),
{
    let body = tag(input, PORT_EXT)?;
    let (node, rest) = node_or_module(body)?;
    let (fields, rest) = take(rest, 5)?;
    let id = slice_to_u32(slice_subrange(fields, 0, 4));
    let creation = fields[4];
    Ok((RawTerm::Port { node: Box::new(node), id, creation }, rest))
}

/// Reads the bytes as big-endian 32-bit words; bytes beyond the last whole
/// word are left out.
pub fn words(bytes: &[u8]) -> (r: Vec<u32>)
    ensures
        r@ == spec_words(bytes@),
{
    let count = bytes.len() / 4;
    let mut out: Vec<u32> = Vec::new();
    let mut i: usize = 0;
    while i < count
        invariant
            count == bytes@.len() / 4,
            4 * count <= bytes@.len() <= usize::MAX,
            i <= count,
            out@.len() == i,
            forall|k: int| 0 <= k < i ==> out@[k] == spec_words(bytes@)[k],
        decreases count - i,
    {
        let word = slice_to_u32(slice_subrange(bytes, 4 * i, 4 * i + 4));
        out.push(word);
        i += 1;
    }
    out
}

/// A reference: the tag, a two-byte word count, the node, the creation
/// byte, then that many four-byte words.
pub fn reference(input: &[u8]) -> (r: Result<(RawTerm, &[u8]), DecodeError>)
    ensures
        decoded_view(r) == spec_reference(input@),
{
    let body = tag(input, NEW_REFERENCE_EXT)?;
    let (count, rest) = take(body, 2)?;
    let (node, rest) = node_or_module(rest)?;
    let (creation, rest) = take(rest, 1)?;
    let (id_bytes, rest) = take(rest, 4 * (slice_to_u16(count) as usize))?;
    let id = words(id_bytes);
    Ok((RawTerm::Ref { node: Box::new(node), id, creation: slice_to_u8(creation) }, rest))
}

/// What the result of `terms` stands for.
pub open spec fn decoded_terms_view(r: Result<(Vec<RawTerm>, &[u8]), DecodeError>) -> DecodedTerms {
    match r {
        Ok((items, rest)) => Ok((terms_view(items@), rest@)),
        Err(e) => Err(e),
    }
}

/// What the result of `pairs` stands for.
pub open spec fn decoded_pairs_view(
    r: Result<(Vec<(RawTerm, RawTerm)>, &[u8]), DecodeError>,
) -> DecodedPairs {
    match r {
        Ok((items, rest)) => Ok((pairs_view(items@), rest@)),
        Err(e) => Err(e),
    }
}

/// Decodes `count` terms in a row, the children of a term that was itself
/// decoded under `limits`.
pub fn terms(input: &[u8], count: u64, limits: Limits) -> (r: Result<
    (Vec<RawTerm>, &[u8]),
    DecodeError,
>)
    ensures
        decoded_terms_view(r) == spec_terms(input@, count as nat, limits),
    decreases limits.depth, 0nat, count,
{
    let mut found: Vec<RawTerm> = Vec::new();
    let mut rest = input;
    if count > 0 && limits.depth == 0 {
        return Err(DecodeError::NestingTooDeep);
    }
    proof {
        lemma_after_nothing(spec_terms(input@, count as nat, limits));
        assert(terms_view(found@) =~= Seq::empty());
    }
    let mut i: u64 = 0;
    while i < count
        invariant
            i <= count,
            count > 0 ==> limits.depth > 0,
            spec_terms(input@, count as nat, limits) == after(
                terms_view(found@),
                spec_terms(rest@, (count - i) as nat, limits),
            ),
        decreases count - i,
    {
        let ghost before = found@;
        let ghost here = rest@;
        let (item, next) = term(rest, limits.below())?;
        proof {
            lemma_terms_step(
                terms_view(before),
                here,
                (count - i) as nat,
                limits,
                item@,
                next@,
            );
            lemma_terms_view_push(before, item);
        }
        found.push(item);
        rest = next;
        i += 1;
    }
    proof {
        assert(terms_view(found@) + Seq::<SpecTerm>::empty() =~= terms_view(found@));
    }
    Ok((found, rest))
}

/// Decodes `count` pairs of key and value in a row.
pub fn pairs(input: &[u8], count: u64, limits: Limits) -> (r: Result<
    (Vec<(RawTerm, RawTerm)>, &[u8]),
    DecodeError,
>)
    ensures
        decoded_pairs_view(r) == spec_pairs(input@, count as nat, limits),
    decreases limits.depth, 0nat, count,
{
    let mut found: Vec<(RawTerm, RawTerm)> = Vec::new();
    let mut rest = input;
    if count > 0 && limits.depth == 0 {
        return Err(DecodeError::NestingTooDeep);
    }
    proof {
        lemma_after_nothing(spec_pairs(input@, count as nat, limits));
        assert(pairs_view(found@) =~= Seq::empty());
    }
    let mut i: u64 = 0;
    while i < count
        invariant
            i <= count,
            count > 0 ==> limits.depth > 0,
            spec_pairs(input@, count as nat, limits) == after(
                pairs_view(found@),
                spec_pairs(rest@, (count - i) as nat, limits),
            ),
        decreases count - i,
    {
        let ghost before = found@;
        let ghost here = rest@;
        let (key, middle) = term(rest, limits.below())?;
        let (value, next) = term(middle, limits.below())?;
        proof {
            lemma_pairs_step(
                pairs_view(before),
                here,
                (count - i) as nat,
                limits,
                key@,
                middle@,
                value@,
                next@,
            );
            lemma_pairs_view_push(before, (key, value));
        }
        found.push((key, value));
        rest = next;
        i += 1;
    }
    proof {
        assert(pairs_view(found@) + Seq::<(SpecTerm, SpecTerm)>::empty() =~= pairs_view(found@));
    }
    Ok((found, rest))
}

/// A tuple: the tag, a one-byte arity, then that many terms.
pub fn small_tuple(input: &[u8], limits: Limits) -> (r: Result<(RawTerm, &[u8]), DecodeError>)
    ensures
        decoded_view(r) == spec_small_tuple(input@, limits),
    decreases limits.depth, 1nat, 0nat,
{
    let body = tag(input, SMALL_TUPLE_EXT)?;
    let (arity, rest) = take(body, 1)?;
    let (items, rest) = terms(rest, slice_to_u8(arity) as u64, limits)?;
    Ok((RawTerm::SmallTuple(items), rest))
}

/// A list: the tag, a four-byte count, then that many terms and the tail.
/// A `Nil` tail is dropped; any other tail becomes a last element wrapped in
/// `Improper`.
pub fn list(input: &[u8], limits: Limits) -> (r: Result<(RawTerm, &[u8]), DecodeError>)
    ensures
        decoded_view(r) == spec_list(input@, limits),
    decreases limits.depth, 1nat, 0nat,
{
    let body = tag(input, LIST_EXT)?;
    let (count, rest) = take(body, 4)?;
    let (mut items, rest) = terms(rest, slice_to_u32(count) as u64 + 1, limits)?;
    let ghost all = items@;
    match items.pop() {
        None => {},
        Some(RawTerm::Nil) => {
            proof {
                assert(terms_view(items@) =~= spec_list_items(terms_view(all)));
            }
        },
        Some(tail) => {
            proof {
                lemma_terms_view_push(items@, RawTerm::Improper(Box::new(tail)));
                assert(terms_view(items@) =~= terms_view(all).drop_last());
            }
            items.push(RawTerm::Improper(Box::new(tail)));
        },
    }
    Ok((RawTerm::List(items), rest))
}

/// A map: the tag, a four-byte arity, then that many pairs of key and
/// value, kept in the order of the wire.
pub fn map(input: &[u8], limits: Limits) -> (r: Result<(RawTerm, &[u8]), DecodeError>)
    ensures
        decoded_view(r) == spec_map(input@, limits),
    decreases limits.depth, 1nat, 0nat,
{
    let body = tag(input, MAP_EXT)?;
    let (arity, rest) = take(body, 4)?;
    let (found, rest) = pairs(rest, slice_to_u32(arity) as u64, limits)?;
    Ok((RawTerm::Mapping(found), rest))
}

/// Copies sixteen bytes into an array.
fn array_16(bytes: &[u8]) -> (r: [u8; 16])
    requires
        bytes@.len() == 16,
    ensures
        r@ == bytes@,
{
    let r: [u8; 16] = [
        bytes[0],
        bytes[1],
        bytes[2],
        bytes[3],
        bytes[4],
        bytes[5],
        bytes[6],
        bytes[7],
        bytes[8],
        bytes[9],
        bytes[10],
        bytes[11],
        bytes[12],
        bytes[13],
        bytes[14],
        bytes[15],
    ];
    proof {
        assert(r@ =~= bytes@);
    }
    r
}

/// What the result of `fun_origin` stands for.
pub open spec fn origin_view(
    r: Result<((RawTerm, RawTerm, RawTerm, RawTerm), &[u8]), DecodeError>,
) -> Result<((SpecTerm, SpecTerm, SpecTerm, SpecTerm), Seq<u8>), DecodeError> {
    match r {
        Ok((origin, rest)) => Ok(((origin.0@, origin.1@, origin.2@, origin.3@), rest@)),
        Err(e) => Err(e),
    }
}

/// Decodes the module, old index, old uniqueness number and creator of a
/// function.
pub fn fun_origin(input: &[u8]) -> (r: Result<
    ((RawTerm, RawTerm, RawTerm, RawTerm), &[u8]),
    DecodeError,
>)
    ensures
        origin_view(r) == spec_fun_origin(input@),
{
    reveal(spec_fun_origin);
    let (module, rest) = node_or_module(input)?;
    let (old_index, rest) = small_int_or_int(rest)?;
    let (old_uniq, rest) = small_int_or_int(rest)?;
    let (creator, rest) = pid(rest)?;
    Ok(((module, old_index, old_uniq, creator), rest))
}

/// Puts a function term together from its 29 bytes of fixed fields, its
/// origin and its free variables.
fn fun_term(
    header: &[u8],
    origin: (RawTerm, RawTerm, RawTerm, RawTerm),
    free_var: Vec<RawTerm>,
) -> (r: RawTerm)
    requires
        header@.len() == 29,
    ensures
        r@ == spec_fun_term(
            header@,
            (origin.0@, origin.1@, origin.2@, origin.3@),
            terms_view(free_var@),
        ),
{
    let size = slice_to_u32(slice_subrange(header, 0, 4));
    let uniq = array_16(slice_subrange(header, 5, 21));
    let index = slice_to_u32(slice_subrange(header, 21, 25));
    RawTerm::Function {
        size,
        arity: header[4],
        uniq,
        index,
        module: Box::new(origin.0),
        old_index: Box::new(origin.1),
        old_uniq: Box::new(origin.2),
        pid: Box::new(origin.3),
        free_var,
    }
}

/// A function: the tag, 29 bytes of fixed fields, the origin, then as many
/// free variables as the fixed fields announce.
pub fn function(input: &[u8], limits: Limits) -> (r: Result<(RawTerm, &[u8]), DecodeError>)
    ensures
        decoded_view(r) == spec_function(input@, limits),
    decreases limits.depth, 1nat, 0nat,
{
    let body = tag(input, NEW_FUN_EXT)?;
    let (header, rest) = take(body, 29)?;
    let (origin, rest) = fun_origin(rest)?;
    let num_free = slice_to_u32(slice_subrange(header, 25, 29));
    let (free_var, rest) = terms(rest, num_free as u64, limits)?;
    Ok((fun_term(header, origin, free_var), rest))
}

/// Room to make for the inflated bytes of an envelope that announces `hint`
/// of them, where at most `cap` are allowed.
pub fn inflate_limit(hint: u32, cap: usize) -> (limit: usize)
    ensures
        limit == spec_inflate_limit(hint as nat, cap as nat),
{
    if hint as usize <= cap {
        hint as usize
    } else {
        cap
    }
}

/// Decodes the one term that fills `input` from end to end.
pub fn sole_term(input: &[u8], limits: Limits) -> (r: Result<RawTerm, DecodeError>)
    ensures
        term_result_view(r) == spec_sole_term(input@, limits),
    decreases limits.depth, 3nat, 0nat,
{
    let (found, rest) = term(input, limits)?;
    if rest.len() == 0 {
        Ok(found)
    } else {
        Err(DecodeError::TrailingData)
    }
}

/// Decodes a compressed envelope: inflates its stream and decodes the one
/// term that the inflated bytes hold. The envelope takes up the rest of the
/// input, so nothing is left over.
pub fn gzip(input: &[u8], limits: Limits) -> (r: Result<(RawTerm, &[u8]), DecodeError>)
    ensures
        decoded_view(r) == spec_gzip(input@, limits),
    decreases limits.depth, 1nat, 0nat,
{
    let body = tag(input, ZLIB)?;
    let cap = match limits.inflate {
        None => {
            return Err(DecodeError::UnknownTag);
        },
        Some(cap) => cap,
    };
    let (hint, stream) = take(body, 4)?;
    if limits.depth == 0 {
        return Err(DecodeError::NestingTooDeep);
    }
    match zlib_inflate(stream, inflate_limit(slice_to_u32(hint), cap)) {
        Err(_) => Err(DecodeError::CompressionFailure),
        Ok(inflated) => {
            let inner = sole_term(inflated.as_slice(), limits.below())?;
            let end = slice_subrange(stream, stream.len(), stream.len());
            proof {
                assert(end@ =~= Seq::empty());
            }
            Ok((inner, end))
        },
    }
}

/// Decodes one term that has no terms inside it.
pub fn leaf(input: &[u8]) -> (r: Result<(RawTerm, &[u8]), DecodeError>)
    ensures
        decoded_view(r) == spec_leaf(input@),
{
    reveal(spec_leaf);
    if input.len() == 0 {
        return Err(DecodeError::IncompleteInput);
    }
    let first = input[0];
    if first == SMALL_INTEGER_EXT {
        small_int(input)
    } else if first == INTEGER_EXT {
        integer(input)
    } else if first == NEW_FLOAT_EXT {
        float(input)
    } else if first == ATOM_EXT_DEPRECATED {
        atom_deprecated(input)
    } else if first == SMALL_ATOM_UTF8_EXT {
        small_atom(input)
    } else if first == NIL_EXT {
        empty_list(input)
    } else if first == BINARY_EXT {
        binary(input)
    } else if first == STRING_EXT {
        string(input)
    } else if first == SMALL_BIG_EXT {
        small_big_int(input)
    } else if first == LARGE_BIG_EXT {
        large_big_int(input)
    } else if first == PID_EXT {
        pid(input)
    } else if first == PORT_EXT {
        port(input)
    } else if first == NEW_REFERENCE_EXT {
        reference(input)
    } else {
        Err(DecodeError::UnknownTag)
    }
}

/// Decodes one term under the given limits. The first byte chooses the
/// decoder.
pub fn term(input: &[u8], limits: Limits) -> (r: Result<(RawTerm, &[u8]), DecodeError>)
    ensures
        decoded_view(r) == spec_term(input@, limits),
        r matches Ok((term, _)) ==> well_formed(term@),
    decreases limits.depth, 2nat, 0nat,
{
    proof {
        lemma_term_well_formed(input@, limits);
    }
    if input.len() == 0 {
        return Err(DecodeError::IncompleteInput);
    }
    let first = input[0];
    if first == LIST_EXT {
        list(input, limits)
    } else if first == MAP_EXT {
        map(input, limits)
    } else if first == SMALL_TUPLE_EXT {
        small_tuple(input, limits)
    } else if first == NEW_FUN_EXT {
        function(input, limits)
    } else if first == ZLIB {
        gzip(input, limits)
    } else {
        leaf(input)
    }
}

} // verus!
