//! What holds of the decoder on every input, proved from the grammar.
//!
//! The contracts of `from_bytes` and of the decoders say that they compute
//! the grammar, so each law below is a law of the executable code.

use crate::bytes::be_i32;
use crate::bytes::be_value;
use crate::bytes::lemma_be_value_4;
use crate::consts::ATOM_EXT_DEPRECATED;
use crate::consts::BINARY_EXT;
use crate::consts::INTEGER_EXT;
use crate::consts::LARGE_BIG_EXT;
use crate::consts::LIST_EXT;
use crate::consts::MAP_EXT;
use crate::consts::NEW_FLOAT_EXT;
use crate::consts::NEW_FUN_EXT;
use crate::consts::NEW_REFERENCE_EXT;
use crate::consts::NIL_EXT;
use crate::consts::PID_EXT;
use crate::consts::PORT_EXT;
use crate::consts::REVISION;
use crate::consts::SMALL_ATOM_UTF8_EXT;
use crate::consts::SMALL_BIG_EXT;
use crate::consts::SMALL_INTEGER_EXT;
use crate::consts::SMALL_TUPLE_EXT;
use crate::consts::STRING_EXT;
use crate::consts::ZLIB;
use crate::error::DecodeError;
use crate::grammar::spec_from_bytes;
use crate::grammar::spec_leaf;
use crate::grammar::spec_node_or_module;
use crate::grammar::spec_term;
use crate::grammar::spec_top_terms;
use crate::limits::Limits;
use crate::parse::term_result_view;
use crate::term::RawTerm;
use crate::term::SpecTerm;
use vstd::prelude::*;

verus! {

/// A payload that holds one term and nothing after it decodes to that term,
/// and a payload whose first term fails, fails in the same way.
pub proof fn lemma_single_term_payload(s: Seq<u8>, limits: Limits)
    requires
        s.len() > 0,
    ensures
        spec_term(s, limits) matches Ok((term, rest)) ==> rest.len() == 0 ==> spec_from_bytes(
            seq![REVISION] + s,
            limits,
        ) == Ok::<SpecTerm, DecodeError>(term),
        spec_term(s, limits) matches Err(e) ==> spec_from_bytes(seq![REVISION] + s, limits)
            == Err::<SpecTerm, DecodeError>(e),
{
    let payload = seq![REVISION] + s;
    assert(payload.skip(1) =~= s);
    assert(payload[0] == REVISION);
    reveal_with_fuel(spec_top_terms, 2);
    match spec_term(s, limits) {
        Ok((term, rest)) => {
            if rest.len() == 0 {
                assert(spec_top_terms(s, limits) == Ok::<Seq<SpecTerm>, DecodeError>(
                    seq![term] + Seq::empty(),
                ));
                assert((seq![term] + Seq::<SpecTerm>::empty())[0] == term);
            }
        },
        Err(_) => {},
    }
}

/// Every byte decodes as a small integer to itself.
pub proof fn lemma_small_int_decodes(b: u8, limits: Limits)
    ensures
        spec_from_bytes(seq![REVISION, SMALL_INTEGER_EXT, b], limits) == Ok::<
            SpecTerm,
            DecodeError,
        >(SpecTerm::SmallInt(b)),
{
    reveal(spec_leaf);
    let s = seq![SMALL_INTEGER_EXT, b];
    assert(seq![REVISION, SMALL_INTEGER_EXT, b] =~= seq![REVISION] + s);
    assert(s.skip(1).take(1)[0] == b);
    assert(s.skip(1).skip(1).len() == 0);
    lemma_single_term_payload(s, limits);
}

/// The four bytes that spell `v` in two's complement, most significant first.
pub open spec fn be_bytes_i32(v: i32) -> Seq<u8> {
    let u: int = if v < 0 {
        v + 0x1_0000_0000
    } else {
        v as int
    };
    seq![
        (u / 0x100_0000) as u8,
        (u / 0x1_0000 % 0x100) as u8,
        (u / 0x100 % 0x100) as u8,
        (u % 0x100) as u8,
    ]
}

/// Reading back the big-endian bytes of a number gives the number.
pub proof fn lemma_be_bytes_i32(v: i32)
    ensures
        be_bytes_i32(v).len() == 4,
        be_i32(be_bytes_i32(v)) == v,
{
    let u: int = if v < 0 {
        v + 0x1_0000_0000
    } else {
        v as int
    };
    let bytes = be_bytes_i32(v);
    lemma_be_value_4(bytes);
    let b0 = u / 0x100_0000;
    let b1 = u / 0x1_0000 % 0x100;
    let b2 = u / 0x100 % 0x100;
    let b3 = u % 0x100;
    assert(0 <= b0 < 0x100);
    assert(bytes[0] == b0 && bytes[1] == b1 && bytes[2] == b2 && bytes[3] == b3);
    assert(u == b0 * 0x100_0000 + b1 * 0x1_0000 + b2 * 0x100 + b3);
}

/// An integer term is its tag and four bytes.
pub proof fn lemma_integer_term(bytes: Seq<u8>, limits: Limits)
    requires
        bytes.len() == 4,
    ensures
        spec_term(seq![INTEGER_EXT] + bytes, limits) == Ok::<(SpecTerm, Seq<u8>), DecodeError>(
            (SpecTerm::Int(be_i32(bytes) as i32), Seq::empty()),
        ),
{
    reveal(spec_leaf);
    let s = seq![INTEGER_EXT] + bytes;
    assert(s[0] == INTEGER_EXT);
    assert(s.skip(1) =~= bytes);
    assert(bytes.take(4) =~= bytes);
    assert(bytes.skip(4) =~= Seq::empty());
}

/// Every 32-bit signed number decodes from its big-endian bytes to itself.
pub proof fn lemma_integer_decodes(v: i32, limits: Limits)
    ensures
        spec_from_bytes(seq![REVISION, INTEGER_EXT] + be_bytes_i32(v), limits) == Ok::<
            SpecTerm,
            DecodeError,
        >(SpecTerm::Int(v)),
{
    let bytes = be_bytes_i32(v);
    let s = seq![INTEGER_EXT] + bytes;
    lemma_be_bytes_i32(v);
    lemma_integer_term(bytes, limits);
    lemma_single_term_payload(s, limits);
    assert(seq![REVISION, INTEGER_EXT] + bytes =~= seq![REVISION] + s);
}

/// Decoding is a function of the bytes and the limits alone: whatever
/// `from_bytes` or `from_bytes_with` hands back for equal inputs stands for
/// the same term or is the same error.
pub proof fn lemma_from_bytes_is_deterministic(
    a: Seq<u8>,
    b: Seq<u8>,
    limits: Limits,
    ra: Result<RawTerm, DecodeError>,
    rb: Result<RawTerm, DecodeError>,
)
    requires
        a == b,
        term_result_view(ra) == spec_from_bytes(a, limits),
        term_result_view(rb) == spec_from_bytes(b, limits),
    ensures
        term_result_view(ra) == term_result_view(rb),
        ra is Ok <==> rb is Ok,
{
}

/// A payload of the version marker alone holds no term.
pub proof fn lemma_version_alone_is_empty(limits: Limits)
    ensures
        spec_from_bytes(seq![REVISION], limits) == Err::<SpecTerm, DecodeError>(
            DecodeError::EmptyPayload,
        ),
{
    assert(seq![REVISION].skip(1).len() == 0);
}

/// The tags that have a decoder under the given limits.
pub open spec fn has_decoder(tag: u8, limits: Limits) -> bool {
    ||| tag == SMALL_INTEGER_EXT
    ||| tag == INTEGER_EXT
    ||| tag == NEW_FLOAT_EXT
    ||| tag == ATOM_EXT_DEPRECATED
    ||| tag == SMALL_ATOM_UTF8_EXT
    ||| tag == NIL_EXT
    ||| tag == BINARY_EXT
    ||| tag == STRING_EXT
    ||| tag == LIST_EXT
    ||| tag == MAP_EXT
    ||| tag == SMALL_TUPLE_EXT
    ||| tag == SMALL_BIG_EXT
    ||| tag == LARGE_BIG_EXT
    ||| tag == PID_EXT
    ||| tag == PORT_EXT
    ||| tag == NEW_REFERENCE_EXT
    ||| tag == NEW_FUN_EXT
    ||| tag == ZLIB && limits.inflate is Some
}

/// A byte that is the tag of no decoder is an `UnknownTag`, whatever follows
/// it, and so is a payload that opens with it.
pub proof fn lemma_unknown_tag(s: Seq<u8>, limits: Limits)
    requires
        s.len() > 0,
        !has_decoder(s[0], limits),
    ensures
        spec_term(s, limits) == Err::<(SpecTerm, Seq<u8>), DecodeError>(DecodeError::UnknownTag),
        spec_from_bytes(seq![REVISION] + s, limits) == Err::<SpecTerm, DecodeError>(
            DecodeError::UnknownTag,
        ),
{
    reveal(spec_leaf);
    lemma_single_term_payload(s, limits);
}

/// The tags of the terms whose payload is a run of bytes behind a length.
pub open spec fn length_prefixed(tag: u8) -> bool {
    ||| tag == SMALL_ATOM_UTF8_EXT
    ||| tag == ATOM_EXT_DEPRECATED
    ||| tag == BINARY_EXT
    ||| tag == STRING_EXT
    ||| tag == SMALL_BIG_EXT
    ||| tag == LARGE_BIG_EXT
}

/// Number of bytes that stand in front of the payload of such a term: the
/// tag, the length and, for a big integer, the sign.
pub open spec fn payload_offset(tag: u8) -> nat {
    if tag == SMALL_ATOM_UTF8_EXT {
        2
    } else if tag == ATOM_EXT_DEPRECATED || tag == STRING_EXT || tag == SMALL_BIG_EXT {
        3
    } else if tag == BINARY_EXT {
        5
    } else {
        6
    }
}

/// Number of payload bytes that the length in front of them announces.
pub open spec fn payload_len(s: Seq<u8>) -> nat
    recommends
        s.len() > 0,
        s.len() >= payload_offset(s[0]),
{
    if s[0] == SMALL_ATOM_UTF8_EXT || s[0] == SMALL_BIG_EXT {
        s[1] as nat
    } else if s[0] == ATOM_EXT_DEPRECATED || s[0] == STRING_EXT {
        be_value(s.subrange(1, 3))
    } else {
        be_value(s.subrange(1, 5))
    }
}

/// A length-prefixed term whose payload is shorter than its length says is
/// an `IncompleteInput`, and so is a payload that opens with it.
pub proof fn lemma_short_payload(s: Seq<u8>, limits: Limits)
    requires
        s.len() > 0,
        length_prefixed(s[0]),
        payload_offset(s[0]) <= s.len() < payload_offset(s[0]) + payload_len(s),
    ensures
        spec_term(s, limits) == Err::<(SpecTerm, Seq<u8>), DecodeError>(
            DecodeError::IncompleteInput,
        ),
        spec_from_bytes(seq![REVISION] + s, limits) == Err::<SpecTerm, DecodeError>(
            DecodeError::IncompleteInput,
        ),
{
    reveal(spec_leaf);
    let body = s.skip(1);
    reveal_with_fuel(be_value, 2);
    if s[0] == SMALL_ATOM_UTF8_EXT {
        assert(body.take(1) =~= seq![s[1]]);
        assert(be_value(seq![s[1]]) == s[1]);
    } else if s[0] == ATOM_EXT_DEPRECATED || s[0] == STRING_EXT {
        assert(body.take(2) =~= s.subrange(1, 3));
    } else if s[0] == BINARY_EXT {
        assert(body.take(4) =~= s.subrange(1, 5));
    } else if s[0] == SMALL_BIG_EXT {
        assert(body.take(2)[0] == s[1]);
    } else {
        assert(body.take(5).take(4) =~= s.subrange(1, 5));
    }
    assert(spec_term(s, limits) == Err::<(SpecTerm, Seq<u8>), DecodeError>(
        DecodeError::IncompleteInput,
    ));
    lemma_single_term_payload(s, limits);
}

/// Taking the last byte off the payload of a length-prefixed term gives an
/// `IncompleteInput`.
pub proof fn lemma_truncated_by_one(s: Seq<u8>, limits: Limits)
    requires
        s.len() > 0,
        length_prefixed(s[0]),
        payload_len(s) > 0,
        s.len() == payload_offset(s[0]) + payload_len(s),
    ensures
        spec_term(s.drop_last(), limits) == Err::<(SpecTerm, Seq<u8>), DecodeError>(
            DecodeError::IncompleteInput,
        ),
        spec_from_bytes(seq![REVISION] + s.drop_last(), limits) == Err::<SpecTerm, DecodeError>(
            DecodeError::IncompleteInput,
        ),
{
    let cut = s.drop_last();
    assert(cut[0] == s[0]);
    assert(cut[1] == s[1]);
    if s[0] == ATOM_EXT_DEPRECATED || s[0] == STRING_EXT {
        assert(cut.subrange(1, 3) =~= s.subrange(1, 3));
    } else if s[0] == BINARY_EXT || s[0] == LARGE_BIG_EXT {
        assert(cut.subrange(1, 5) =~= s.subrange(1, 5));
    }
    assert(payload_len(cut) == payload_len(s));
    lemma_short_payload(cut, limits);
}

/// A reference with fewer bytes behind its creation byte than its word
/// count asks for is an `IncompleteInput`.
pub proof fn lemma_short_reference(s: Seq<u8>, limits: Limits)
    requires
        s.len() >= 3,
        s[0] == NEW_REFERENCE_EXT,
        spec_node_or_module(s.skip(3)) matches Ok((_, rest)) && 1 <= rest.len() < 1 + 4
            * be_value(s.subrange(1, 3)),
    ensures
        spec_term(s, limits) == Err::<(SpecTerm, Seq<u8>), DecodeError>(
            DecodeError::IncompleteInput,
        ),
        spec_from_bytes(seq![REVISION] + s, limits) == Err::<SpecTerm, DecodeError>(
            DecodeError::IncompleteInput,
        ),
{
    reveal(spec_leaf);
    let body = s.skip(1);
    assert(body.take(2) =~= s.subrange(1, 3));
    assert(body.skip(2) =~= s.skip(3));
    assert(spec_term(s, limits) == Err::<(SpecTerm, Seq<u8>), DecodeError>(
        DecodeError::IncompleteInput,
    ));
    lemma_single_term_payload(s, limits);
}

} // verus!
