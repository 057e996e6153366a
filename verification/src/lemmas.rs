//! Facts about the grammar that the decoders and the laws are proved from.

use crate::bytes::be_value;
use crate::consts::ATOM_EXT_DEPRECATED;
use crate::consts::BINARY_EXT;
use crate::consts::INTEGER_EXT;
use crate::consts::LARGE_BIG_EXT;
use crate::consts::LIST_EXT;
use crate::consts::MAP_EXT;
use crate::consts::NEW_FLOAT_EXT;
use crate::consts::NEW_FUN_EXT;
use crate::consts::NEW_REFERENCE_EXT;
use crate::consts::NIL_EXT;
use crate::consts::PID_EXT;
use crate::consts::PORT_EXT;
use crate::consts::SMALL_ATOM_UTF8_EXT;
use crate::consts::SMALL_BIG_EXT;
use crate::consts::SMALL_INTEGER_EXT;
use crate::consts::SMALL_TUPLE_EXT;
use crate::consts::STRING_EXT;
use crate::consts::ZLIB;
use crate::error::DecodeError;
use crate::grammar::spec_atom_deprecated;
use crate::grammar::spec_binary;
use crate::grammar::spec_empty_list;
use crate::grammar::spec_float;
use crate::grammar::spec_fun_origin;
use crate::grammar::spec_function;
use crate::grammar::spec_gzip;
use crate::grammar::spec_integer;
use crate::grammar::spec_large_big_int;
use crate::grammar::spec_leaf;
use crate::grammar::spec_list;
use crate::grammar::spec_map;
use crate::grammar::spec_node_or_module;
use crate::grammar::spec_pairs;
use crate::grammar::spec_pid;
use crate::grammar::spec_port;
use crate::grammar::spec_reference;
use crate::grammar::spec_small_atom;
use crate::grammar::spec_small_big_int;
use crate::grammar::spec_small_int;
use crate::grammar::spec_small_int_or_int;
use crate::grammar::spec_small_tuple;
use crate::grammar::spec_string;
use crate::grammar::spec_tag;
use crate::grammar::spec_take;
use crate::grammar::spec_term;
use crate::grammar::spec_terms;
use crate::grammar::spec_top_terms;
use crate::limits::deeper;
use crate::limits::Limits;
use crate::term::SpecTerm;
use vstd::prelude::*;

verus! {

/// The outcome `r` of decoding a run of items, with `prefix` put in front of
/// the items that it found.
pub open spec fn after<T>(prefix: Seq<T>, r: Result<(Seq<T>, Seq<u8>), DecodeError>) -> Result<
    (Seq<T>, Seq<u8>),
    DecodeError,
> {
    match r {
        Ok((items, rest)) => Ok((prefix + items, rest)),
        Err(e) => Err(e),
    }
}

/// The outcome `r` of decoding the terms up to the end of the input, with
/// `prefix` put in front of the terms that it found.
pub open spec fn behind(prefix: Seq<SpecTerm>, r: Result<Seq<SpecTerm>, DecodeError>) -> Result<
    Seq<SpecTerm>,
    DecodeError,
> {
    match r {
        Ok(terms) => Ok(prefix + terms),
        Err(e) => Err(e),
    }
}

/// `rest` is what is left of `s` behind some of its first bytes.
pub open spec fn is_tail(rest: Seq<u8>, s: Seq<u8>) -> bool {
    rest.len() <= s.len() && rest =~= s.skip(s.len() - rest.len())
}

/// `rest` is what is left of `s` behind at least one byte.
pub open spec fn proper_tail(rest: Seq<u8>, s: Seq<u8>) -> bool {
    rest.len() < s.len() && is_tail(rest, s)
}

/// Nothing in front changes nothing.
pub proof fn lemma_after_nothing<T>(r: Result<(Seq<T>, Seq<u8>), DecodeError>)
    ensures
        after(Seq::empty(), r) == r,
{
    match r {
        Ok((items, rest)) => {
            assert(Seq::<T>::empty() + items =~= items);
        },
        Err(_) => {},
    }
}

/// A run of terms is its first term followed by a shorter run: having
/// decoded `first` from `s`, the rest of the run continues behind what was
/// already found.
pub proof fn lemma_terms_step(
    found: Seq<SpecTerm>,
    s: Seq<u8>,
    count: nat,
    limits: Limits,
    first: SpecTerm,
    rest: Seq<u8>,
)
    requires
        count > 0,
        limits.depth > 0,
        spec_term(s, deeper(limits)) == Ok::<(SpecTerm, Seq<u8>), DecodeError>((first, rest)),
    ensures
        after(found, spec_terms(s, count, limits)) == after(
            found.push(first),
            spec_terms(rest, (count - 1) as nat, limits),
        ),
{
    match spec_terms(rest, (count - 1) as nat, limits) {
        Ok((others, _)) => {
            assert(found + (seq![first] + others) =~= found.push(first) + others);
        },
        Err(_) => {},
    }
}

/// The same for a run of pairs.
pub proof fn lemma_pairs_step(
    found: Seq<(SpecTerm, SpecTerm)>,
    s: Seq<u8>,
    count: nat,
    limits: Limits,
    key: SpecTerm,
    middle: Seq<u8>,
    value: SpecTerm,
    rest: Seq<u8>,
)
    requires
        count > 0,
        limits.depth > 0,
        spec_term(s, deeper(limits)) == Ok::<(SpecTerm, Seq<u8>), DecodeError>((key, middle)),
        spec_term(middle, deeper(limits)) == Ok::<(SpecTerm, Seq<u8>), DecodeError>(
            (value, rest),
        ),
    ensures
        after(found, spec_pairs(s, count, limits)) == after(
            found.push((key, value)),
            spec_pairs(rest, (count - 1) as nat, limits),
        ),
{
    match spec_pairs(rest, (count - 1) as nat, limits) {
        Ok((others, _)) => {
            assert(found + (seq![(key, value)] + others) =~= found.push((key, value)) + others);
        },
        Err(_) => {},
    }
}

/// The terms up to the end of the input are the first term followed by the
/// terms up to the end of what it left over.
pub proof fn lemma_top_terms_step(
    found: Seq<SpecTerm>,
    s: Seq<u8>,
    limits: Limits,
    first: SpecTerm,
    rest: Seq<u8>,
)
    requires
        s.len() > 0,
        spec_term(s, limits) == Ok::<(SpecTerm, Seq<u8>), DecodeError>((first, rest)),
    ensures
        rest.len() < s.len(),
        behind(found, spec_top_terms(s, limits)) == behind(
            found.push(first),
            spec_top_terms(rest, limits),
        ),
{
    lemma_term_consumes(s, limits);
    match spec_top_terms(rest, limits) {
        Ok(others) => {
            assert(found + (seq![first] + others) =~= found.push(first) + others);
        },
        Err(_) => {},
    }
}

/// What a run of terms leaves over is a tail of what it was handed.
pub proof fn lemma_terms_consume(s: Seq<u8>, count: nat, limits: Limits)
    ensures
        spec_terms(s, count, limits) matches Ok((_, rest)) ==> is_tail(rest, s),
    decreases limits.depth, 0nat, count,
{
    if count > 0 && limits.depth > 0 {
        lemma_term_consumes(s, deeper(limits));
        if let Ok((_, rest)) = spec_term(s, deeper(limits)) {
            lemma_terms_consume(rest, (count - 1) as nat, limits);
        }
    }
}

/// The same for a run of pairs.
pub proof fn lemma_pairs_consume(s: Seq<u8>, count: nat, limits: Limits)
    ensures
        spec_pairs(s, count, limits) matches Ok((_, rest)) ==> is_tail(rest, s),
    decreases limits.depth, 0nat, count,
{
    if count > 0 && limits.depth > 0 {
        lemma_term_consumes(s, deeper(limits));
        if let Ok((_, middle)) = spec_term(s, deeper(limits)) {
            lemma_term_consumes(middle, deeper(limits));
            if let Ok((_, rest)) = spec_term(middle, deeper(limits)) {
                lemma_pairs_consume(rest, (count - 1) as nat, limits);
            }
        }
    }
}

/// Each of the decoders below takes up at least its tag byte and leaves a
/// tail of its input.
pub proof fn lemma_scalar_consumes(s: Seq<u8>)
    ensures
        spec_small_int(s) matches Ok((_, rest)) ==> proper_tail(rest, s),
        spec_integer(s) matches Ok((_, rest)) ==> proper_tail(rest, s),
        spec_float(s) matches Ok((_, rest)) ==> proper_tail(rest, s),
        spec_empty_list(s) matches Ok((_, rest)) ==> proper_tail(rest, s),
        spec_small_int_or_int(s) matches Ok((_, rest)) ==> proper_tail(rest, s),
{
}

/// So does an atom in either encoding.
pub proof fn lemma_atom_consumes(s: Seq<u8>)
    ensures
        spec_small_atom(s) matches Ok((_, rest)) ==> proper_tail(rest, s),
        spec_atom_deprecated(s) matches Ok((_, rest)) ==> proper_tail(rest, s),
        spec_node_or_module(s) matches Ok((_, rest)) ==> proper_tail(rest, s),
{
}

/// So do the terms that carry a run of bytes.
pub proof fn lemma_bytes_consume(s: Seq<u8>)
    ensures
        spec_binary(s) matches Ok((_, rest)) ==> proper_tail(rest, s),
        spec_string(s) matches Ok((_, rest)) ==> proper_tail(rest, s),
        spec_small_big_int(s) matches Ok((_, rest)) ==> proper_tail(rest, s),
        spec_large_big_int(s) matches Ok((_, rest)) ==> proper_tail(rest, s),
{
}

/// So does a process identifier.
pub proof fn lemma_pid_consumes(s: Seq<u8>)
    ensures
        spec_pid(s) matches Ok((_, rest)) ==> proper_tail(rest, s),
{
    if s.len() > 0 {
        lemma_atom_consumes(s.skip(1));
    }
}

/// So does a port.
pub proof fn lemma_port_consumes(s: Seq<u8>)
    ensures
        spec_port(s) matches Ok((_, rest)) ==> proper_tail(rest, s),
{
    if s.len() > 0 {
        lemma_atom_consumes(s.skip(1));
    }
}

/// So does a reference.
pub proof fn lemma_reference_consumes(s: Seq<u8>)
    ensures
        spec_reference(s) matches Ok((_, rest)) ==> proper_tail(rest, s),
{
    if s.len() >= 3 {
        lemma_atom_consumes(s.skip(1).skip(2));
    }
}

/// So does the origin of a function.
pub proof fn lemma_fun_origin_consumes(s: Seq<u8>)
    ensures
        spec_fun_origin(s) matches Ok((_, rest)) ==> proper_tail(rest, s),
{
    reveal(spec_fun_origin);
    lemma_atom_consumes(s);
    if let Ok((_, r1)) = spec_node_or_module(s) {
        lemma_scalar_consumes(r1);
        if let Ok((_, r2)) = spec_small_int_or_int(r1) {
            lemma_scalar_consumes(r2);
            if let Ok((_, r3)) = spec_small_int_or_int(r2) {
                lemma_pid_consumes(r3);
            }
        }
    }
}

/// So does a tuple.
pub proof fn lemma_small_tuple_consumes(s: Seq<u8>, limits: Limits)
    ensures
        spec_small_tuple(s, limits) matches Ok((_, rest)) ==> proper_tail(rest, s),
    decreases limits.depth, 1nat, 0nat,
{
    if let Ok(body) = spec_tag(s, SMALL_TUPLE_EXT) {
        if let Ok((arity, rest)) = spec_take(body, 1) {
            lemma_terms_consume(rest, be_value(arity), limits);
        }
    }
}

/// So does a list.
pub proof fn lemma_list_consumes(s: Seq<u8>, limits: Limits)
    ensures
        spec_list(s, limits) matches Ok((_, rest)) ==> proper_tail(rest, s),
    decreases limits.depth, 1nat, 0nat,
{
    if let Ok(body) = spec_tag(s, LIST_EXT) {
        if let Ok((count, rest)) = spec_take(body, 4) {
            lemma_terms_consume(rest, be_value(count) + 1, limits);
        }
    }
}

/// So does a map.
pub proof fn lemma_map_consumes(s: Seq<u8>, limits: Limits)
    ensures
        spec_map(s, limits) matches Ok((_, rest)) ==> proper_tail(rest, s),
    decreases limits.depth, 1nat, 0nat,
{
    if let Ok(body) = spec_tag(s, MAP_EXT) {
        if let Ok((arity, rest)) = spec_take(body, 4) {
            lemma_pairs_consume(rest, be_value(arity), limits);
        }
    }
}

/// So does a function.
pub proof fn lemma_function_consumes(s: Seq<u8>, limits: Limits)
    ensures
        spec_function(s, limits) matches Ok((_, rest)) ==> proper_tail(rest, s),
    decreases limits.depth, 1nat, 0nat,
{
    if let Ok(body) = spec_tag(s, NEW_FUN_EXT) {
        if let Ok((header, rest)) = spec_take(body, 29) {
            lemma_fun_origin_consumes(rest);
            if let Ok((_, rest)) = spec_fun_origin(rest) {
                lemma_terms_consume(rest, be_value(header.subrange(25, 29)), limits);
            }
        }
    }
}

/// So does a compressed envelope, which leaves nothing over.
pub proof fn lemma_gzip_consumes(s: Seq<u8>, limits: Limits)
    ensures
        spec_gzip(s, limits) matches Ok((_, rest)) ==> proper_tail(rest, s),
{
}

/// So does every term that has no terms inside it.
pub proof fn lemma_leaf_consumes(s: Seq<u8>)
    ensures
        spec_leaf(s) matches Ok((_, rest)) ==> proper_tail(rest, s),
{
    reveal(spec_leaf);
    if s.len() > 0 {
        let t = s[0];
        if t == SMALL_INTEGER_EXT || t == INTEGER_EXT || t == NEW_FLOAT_EXT || t == NIL_EXT {
            lemma_scalar_consumes(s);
        } else if t == ATOM_EXT_DEPRECATED || t == SMALL_ATOM_UTF8_EXT {
            lemma_atom_consumes(s);
        } else if t == BINARY_EXT || t == STRING_EXT || t == SMALL_BIG_EXT || t == LARGE_BIG_EXT {
            lemma_bytes_consume(s);
        } else if t == PID_EXT {
            lemma_pid_consumes(s);
        } else if t == PORT_EXT {
            lemma_port_consumes(s);
        } else if t == NEW_REFERENCE_EXT {
            lemma_reference_consumes(s);
        }
    }
}

/// A term takes up at least its tag byte, and what it leaves over is the
/// tail of what it was handed.
pub proof fn lemma_term_consumes(s: Seq<u8>, limits: Limits)
    ensures
        spec_term(s, limits) matches Ok((_, rest)) ==> proper_tail(rest, s),
    decreases limits.depth, 2nat, 0nat,
{
    if s.len() > 0 {
        let t = s[0];
        if t == LIST_EXT {
            lemma_list_consumes(s, limits);
        } else if t == MAP_EXT {
            lemma_map_consumes(s, limits);
        } else if t == SMALL_TUPLE_EXT {
            lemma_small_tuple_consumes(s, limits);
        } else if t == NEW_FUN_EXT {
            lemma_function_consumes(s, limits);
        } else if t == ZLIB {
            lemma_gzip_consumes(s, limits);
        } else {
            lemma_leaf_consumes(s);
        }
    }
}

} // verus!
