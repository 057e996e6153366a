//! Every term that the grammar yields is well formed.

use crate::bytes::be_value;
use crate::bytes::lemma_be_value_1;
use crate::bytes::lemma_be_value_2;
use crate::bytes::lemma_be_value_4;
use crate::consts::LIST_EXT;
use crate::consts::MAP_EXT;
use crate::consts::NEW_FUN_EXT;
use crate::consts::SMALL_TUPLE_EXT;
use crate::consts::ZLIB;
use crate::grammar::spec_from_bytes;
use crate::grammar::spec_fun_origin;
use crate::grammar::spec_function;
use crate::grammar::spec_gzip;
use crate::grammar::spec_inflate_limit;
use crate::grammar::spec_leaf;
use crate::grammar::spec_list;
use crate::grammar::spec_list_items;
use crate::grammar::spec_map;
use crate::grammar::spec_pairs;
use crate::grammar::spec_parser;
use crate::grammar::spec_small_tuple;
use crate::grammar::spec_tag;
use crate::grammar::spec_take;
use crate::grammar::spec_term;
use crate::grammar::spec_terms;
use crate::grammar::spec_top_terms;
use crate::inflate::zlib_inflated;
use crate::lemmas::lemma_term_consumes;
use crate::limits::deeper;
use crate::limits::Limits;
use crate::term::all_well_formed;
use crate::term::is_atom;
use crate::term::is_small_int_or_int;
use crate::term::well_formed;
use crate::term::SpecTerm;
use vstd::prelude::*;

verus! {

/// A term without terms inside it is well formed.
pub proof fn lemma_leaf_well_formed(s: Seq<u8>)
    ensures
        spec_leaf(s) matches Ok((term, _)) ==> well_formed(term),
{
    reveal(spec_leaf);
    if s.len() > 0 {
        let body = s.skip(1);
        if body.len() >= 2 {
            lemma_be_value_2(body.take(2));
        }
        if body.len() >= 4 {
            lemma_be_value_4(body.take(4));
        }
    }
}

/// The origin of a function is a module name, two integers and a process
/// identifier.
pub proof fn lemma_fun_origin_well_formed(s: Seq<u8>)
    ensures
        spec_fun_origin(s) matches Ok((origin, _)) ==> {
            &&& is_atom(origin.0)
            &&& is_small_int_or_int(origin.1)
            &&& is_small_int_or_int(origin.2)
            &&& origin.3 is Pid
            &&& well_formed(origin.3)
        },
{
    reveal(spec_fun_origin);
}

/// A run of terms has as many terms as were asked for, each well formed.
pub proof fn lemma_terms_well_formed(s: Seq<u8>, count: nat, limits: Limits)
    ensures
        spec_terms(s, count, limits) matches Ok((items, _)) ==> items.len() == count
            && all_well_formed(items),
    decreases limits.depth, 0nat, count,
{
    if count > 0 && limits.depth > 0 {
        lemma_term_well_formed(s, deeper(limits));
        if let Ok((_, rest)) = spec_term(s, deeper(limits)) {
            lemma_terms_well_formed(rest, (count - 1) as nat, limits);
        }
    }
}

/// A run of pairs has as many pairs as were asked for, each of two well
/// formed terms.
pub proof fn lemma_pairs_well_formed(s: Seq<u8>, count: nat, limits: Limits)
    ensures
        spec_pairs(s, count, limits) matches Ok((pairs, _)) ==> pairs.len() == count && forall|
            i: int,
        |
            0 <= i < pairs.len() ==> well_formed((#[trigger] pairs[i]).0) && well_formed(
                pairs[i].1,
            ),
    decreases limits.depth, 0nat, count,
{
    if count > 0 && limits.depth > 0 {
        lemma_term_well_formed(s, deeper(limits));
        if let Ok((_, middle)) = spec_term(s, deeper(limits)) {
            lemma_term_well_formed(middle, deeper(limits));
            if let Ok((_, rest)) = spec_term(middle, deeper(limits)) {
                lemma_pairs_well_formed(rest, (count - 1) as nat, limits);
            }
        }
    }
}

/// A tuple is well formed.
pub proof fn lemma_small_tuple_well_formed(s: Seq<u8>, limits: Limits)
    ensures
        spec_small_tuple(s, limits) matches Ok((term, _)) ==> well_formed(term),
    decreases limits.depth, 1nat, 0nat,
{
    if let Ok(body) = spec_tag(s, SMALL_TUPLE_EXT) {
        if let Ok((arity, rest)) = spec_take(body, 1) {
            lemma_be_value_1(arity);
            lemma_terms_well_formed(rest, be_value(arity), limits);
        }
    }
}

/// A list is well formed: `Improper` stands at its end or nowhere.
pub proof fn lemma_list_well_formed(s: Seq<u8>, limits: Limits)
    ensures
        spec_list(s, limits) matches Ok((term, _)) ==> well_formed(term),
    decreases limits.depth, 1nat, 0nat,
{
    if let Ok(body) = spec_tag(s, LIST_EXT) {
        if let Ok((count, rest)) = spec_take(body, 4) {
            lemma_be_value_4(count);
            lemma_terms_well_formed(rest, be_value(count) + 1, limits);
            if let Ok((terms, _)) = spec_terms(rest, be_value(count) + 1, limits) {
                let items = spec_list_items(terms);
                assert forall|i: int| 0 <= i < items.len() implies match #[trigger] items[i] {
                    SpecTerm::Improper(tail) => i == items.len() - 1 && !(*tail is Nil)
                        && well_formed(*tail),
                    item => well_formed(item),
                } by {
                    if i < terms.len() - 1 {
                        assert(items[i] == terms[i]);
                        assert(well_formed(terms[i]));
                    } else {
                        assert(well_formed(terms.last()));
                    }
                }
            }
        }
    }
}

/// A map is well formed.
pub proof fn lemma_map_well_formed(s: Seq<u8>, limits: Limits)
    ensures
        spec_map(s, limits) matches Ok((term, _)) ==> well_formed(term),
    decreases limits.depth, 1nat, 0nat,
{
    if let Ok(body) = spec_tag(s, MAP_EXT) {
        if let Ok((arity, rest)) = spec_take(body, 4) {
            lemma_be_value_4(arity);
            lemma_pairs_well_formed(rest, be_value(arity), limits);
        }
    }
}

/// A function is well formed.
pub proof fn lemma_function_well_formed(s: Seq<u8>, limits: Limits)
    ensures
        spec_function(s, limits) matches Ok((term, _)) ==> well_formed(term),
    decreases limits.depth, 1nat, 0nat,
{
    if let Ok(body) = spec_tag(s, NEW_FUN_EXT) {
        if let Ok((header, rest)) = spec_take(body, 29) {
            lemma_fun_origin_well_formed(rest);
            lemma_be_value_4(header.subrange(25, 29));
            if let Ok((_, rest)) = spec_fun_origin(rest) {
                lemma_terms_well_formed(rest, be_value(header.subrange(25, 29)), limits);
            }
        }
    }
}

/// The term inside a compressed envelope is well formed.
pub proof fn lemma_gzip_well_formed(s: Seq<u8>, limits: Limits)
    ensures
        spec_gzip(s, limits) matches Ok((term, _)) ==> well_formed(term),
    decreases limits.depth, 1nat, 0nat,
{
    if let Ok(body) = spec_tag(s, ZLIB) {
        if let Some(cap) = limits.inflate {
            if let Ok((hint, stream)) = spec_take(body, 4) {
                if limits.depth > 0 {
                    let room = spec_inflate_limit(be_value(hint), cap as nat);
                    if let Some(inflated) = zlib_inflated(stream, room) {
                        lemma_term_well_formed(inflated, deeper(limits));
                    }
                }
            }
        }
    }
}

/// Every term that decodes is well formed.
pub proof fn lemma_term_well_formed(s: Seq<u8>, limits: Limits)
    ensures
        spec_term(s, limits) matches Ok((term, _)) ==> well_formed(term),
    decreases limits.depth, 2nat, 0nat,
{
    if s.len() > 0 {
        let t = s[0];
        if t == LIST_EXT {
            lemma_list_well_formed(s, limits);
        } else if t == MAP_EXT {
            lemma_map_well_formed(s, limits);
        } else if t == SMALL_TUPLE_EXT {
            lemma_small_tuple_well_formed(s, limits);
        } else if t == NEW_FUN_EXT {
            lemma_function_well_formed(s, limits);
        } else if t == ZLIB {
            lemma_gzip_well_formed(s, limits);
        } else {
            lemma_leaf_well_formed(s);
        }
    }
}

/// Every term of the run of terms that fills an input is well formed.
pub proof fn lemma_top_terms_well_formed(s: Seq<u8>, limits: Limits)
    ensures
        spec_top_terms(s, limits) matches Ok(terms) ==> all_well_formed(terms),
    decreases s.len(),
{
    if s.len() > 0 {
        lemma_term_well_formed(s, limits);
        lemma_term_consumes(s, limits);
        if let Ok((_, rest)) = spec_term(s, limits) {
            lemma_top_terms_well_formed(rest, limits);
        }
    }
}

/// Every term of a payload that decodes is well formed, and so is the first.
pub proof fn lemma_payload_well_formed(s: Seq<u8>, limits: Limits)
    ensures
        spec_parser(s, limits) matches Ok(terms) ==> all_well_formed(terms),
        spec_from_bytes(s, limits) matches Ok(term) ==> well_formed(term),
{
    if s.len() > 0 {
        lemma_top_terms_well_formed(s.skip(1), limits);
    }
}

} // verus!
