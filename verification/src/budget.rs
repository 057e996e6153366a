//! The depth budget is a safety net and nothing else: short of
//! `NestingTooDeep`, what it is set to makes no difference.

use crate::bytes::be_value;
use crate::consts::LIST_EXT;
use crate::consts::MAP_EXT;
use crate::consts::NEW_FUN_EXT;
use crate::consts::REVISION;
use crate::consts::SMALL_TUPLE_EXT;
use crate::consts::ZLIB;
use crate::error::DecodeError;
use crate::grammar::spec_from_bytes;
use crate::grammar::spec_fun_origin;
use crate::grammar::spec_function;
use crate::grammar::spec_gzip;
use crate::grammar::spec_inflate_limit;
use crate::grammar::spec_list;
use crate::grammar::spec_map;
use crate::grammar::spec_pairs;
use crate::grammar::spec_parser;
use crate::grammar::spec_small_tuple;
use crate::grammar::spec_tag;
use crate::grammar::spec_take;
use crate::grammar::spec_term;
use crate::grammar::spec_terms;
use crate::grammar::spec_top_terms;
use crate::inflate::zlib_inflated;
use crate::lemmas::lemma_term_consumes;
use crate::limits::deeper;
use crate::limits::Limits;
use vstd::prelude::*;

verus! {

/// `more` allows at least the depth that `fewer` allows, and the same
/// otherwise.
pub open spec fn at_least(more: Limits, fewer: Limits) -> bool {
    more.depth >= fewer.depth && more.inflate == fewer.inflate
}

/// The outcome is something other than `NestingTooDeep`.
pub open spec fn deep_enough<T>(r: Result<T, DecodeError>) -> bool {
    r != Err::<T, DecodeError>(DecodeError::NestingTooDeep)
}

/// A run of terms that is not too deep for `fewer` comes out the same under
/// `more`.
pub proof fn lemma_terms_any_depth(s: Seq<u8>, count: nat, fewer: Limits, more: Limits)
    requires
        at_least(more, fewer),
        deep_enough(spec_terms(s, count, fewer)),
    ensures
        spec_terms(s, count, more) == spec_terms(s, count, fewer),
    decreases fewer.depth, 0nat, count,
{
    if count > 0 {
        lemma_term_any_depth(s, deeper(fewer), deeper(more));
        if let Ok((_, rest)) = spec_term(s, deeper(fewer)) {
            lemma_terms_any_depth(rest, (count - 1) as nat, fewer, more);
        }
    }
}

/// The same for a run of pairs.
pub proof fn lemma_pairs_any_depth(s: Seq<u8>, count: nat, fewer: Limits, more: Limits)
    requires
        at_least(more, fewer),
        deep_enough(spec_pairs(s, count, fewer)),
    ensures
        spec_pairs(s, count, more) == spec_pairs(s, count, fewer),
    decreases fewer.depth, 0nat, count,
{
    if count > 0 {
        lemma_term_any_depth(s, deeper(fewer), deeper(more));
        if let Ok((_, middle)) = spec_term(s, deeper(fewer)) {
            lemma_term_any_depth(middle, deeper(fewer), deeper(more));
            if let Ok((_, rest)) = spec_term(middle, deeper(fewer)) {
                lemma_pairs_any_depth(rest, (count - 1) as nat, fewer, more);
            }
        }
    }
}

/// The same for a tuple.
pub proof fn lemma_small_tuple_any_depth(s: Seq<u8>, fewer: Limits, more: Limits)
    requires
        at_least(more, fewer),
        deep_enough(spec_small_tuple(s, fewer)),
    ensures
        spec_small_tuple(s, more) == spec_small_tuple(s, fewer),
    decreases fewer.depth, 1nat, 0nat,
{
    if let Ok(body) = spec_tag(s, SMALL_TUPLE_EXT) {
        if let Ok((arity, rest)) = spec_take(body, 1) {
            lemma_terms_any_depth(rest, be_value(arity), fewer, more);
        }
    }
}

/// The same for a list.
pub proof fn lemma_list_any_depth(s: Seq<u8>, fewer: Limits, more: Limits)
    requires
        at_least(more, fewer),
        deep_enough(spec_list(s, fewer)),
    ensures
        spec_list(s, more) == spec_list(s, fewer),
    decreases fewer.depth, 1nat, 0nat,
{
    if let Ok(body) = spec_tag(s, LIST_EXT) {
        if let Ok((count, rest)) = spec_take(body, 4) {
            lemma_terms_any_depth(rest, be_value(count) + 1, fewer, more);
        }
    }
}

/// The same for a map.
pub proof fn lemma_map_any_depth(s: Seq<u8>, fewer: Limits, more: Limits)
    requires
        at_least(more, fewer),
        deep_enough(spec_map(s, fewer)),
    ensures
        spec_map(s, more) == spec_map(s, fewer),
    decreases fewer.depth, 1nat, 0nat,
{
    if let Ok(body) = spec_tag(s, MAP_EXT) {
        if let Ok((arity, rest)) = spec_take(body, 4) {
            lemma_pairs_any_depth(rest, be_value(arity), fewer, more);
        }
    }
}

/// The same for a function.
pub proof fn lemma_function_any_depth(s: Seq<u8>, fewer: Limits, more: Limits)
    requires
        at_least(more, fewer),
        deep_enough(spec_function(s, fewer)),
    ensures
        spec_function(s, more) == spec_function(s, fewer),
    decreases fewer.depth, 1nat, 0nat,
{
    if let Ok(body) = spec_tag(s, NEW_FUN_EXT) {
        if let Ok((header, rest)) = spec_take(body, 29) {
            if let Ok((_, rest)) = spec_fun_origin(rest) {
                lemma_terms_any_depth(rest, be_value(header.subrange(25, 29)), fewer, more);
            }
        }
    }
}

/// The same for a compressed envelope.
pub proof fn lemma_gzip_any_depth(s: Seq<u8>, fewer: Limits, more: Limits)
    requires
        at_least(more, fewer),
        deep_enough(spec_gzip(s, fewer)),
    ensures
        spec_gzip(s, more) == spec_gzip(s, fewer),
    decreases fewer.depth, 1nat, 0nat,
{
    if let Ok(body) = spec_tag(s, ZLIB) {
        if let Some(cap) = fewer.inflate {
            if let Ok((hint, stream)) = spec_take(body, 4) {
                let room = spec_inflate_limit(be_value(hint), cap as nat);
                if let Some(inflated) = zlib_inflated(stream, room) {
                    lemma_term_any_depth(inflated, deeper(fewer), deeper(more));
                }
            }
        }
    }
}

/// A term that is not too deep for `fewer` comes out the same under `more`:
/// the same term and the same rest, or the same error.
pub proof fn lemma_term_any_depth(s: Seq<u8>, fewer: Limits, more: Limits)
    requires
        at_least(more, fewer),
        deep_enough(spec_term(s, fewer)),
    ensures
        spec_term(s, more) == spec_term(s, fewer),
    decreases fewer.depth, 2nat, 0nat,
{
    if s.len() > 0 {
        let t = s[0];
        if t == LIST_EXT {
            lemma_list_any_depth(s, fewer, more);
        } else if t == MAP_EXT {
            lemma_map_any_depth(s, fewer, more);
        } else if t == SMALL_TUPLE_EXT {
            lemma_small_tuple_any_depth(s, fewer, more);
        } else if t == NEW_FUN_EXT {
            lemma_function_any_depth(s, fewer, more);
        } else if t == ZLIB {
            lemma_gzip_any_depth(s, fewer, more);
        }
    }
}

/// The same for the terms that fill an input.
pub proof fn lemma_top_terms_any_depth(s: Seq<u8>, fewer: Limits, more: Limits)
    requires
        at_least(more, fewer),
        deep_enough(spec_top_terms(s, fewer)),
    ensures
        spec_top_terms(s, more) == spec_top_terms(s, fewer),
    decreases s.len(),
{
    if s.len() > 0 {
        lemma_term_any_depth(s, fewer, more);
        lemma_term_consumes(s, fewer);
        if let Ok((_, rest)) = spec_term(s, fewer) {
            lemma_top_terms_any_depth(rest, fewer, more);
        }
    }
}

/// A payload that is not too deep for `fewer` decodes the same under `more`:
/// raising the depth budget changes no outcome but `NestingTooDeep`.
pub proof fn lemma_payload_any_depth(s: Seq<u8>, fewer: Limits, more: Limits)
    requires
        at_least(more, fewer),
        deep_enough(spec_from_bytes(s, fewer)),
    ensures
        spec_from_bytes(s, more) == spec_from_bytes(s, fewer),
        spec_parser(s, more) == spec_parser(s, fewer),
{
    if s.len() > 0 && s[0] == REVISION {
        lemma_top_terms_any_depth(s.skip(1), fewer, more);
    }
}

} // verus!
