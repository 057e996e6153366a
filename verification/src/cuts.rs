//! What the decoders make of an input that was cut short.
//!
//! A decoder reads its input from the front and stops where its term ends.
//! So the first `k` bytes of an input that decodes are either too few, and
//! then the decoder reports `IncompleteInput`, or enough, and then it finds
//! the same term. This holds of every decoder but the compressed envelope,
//! whose stream runs to the end of the input.

use crate::bytes::be_value;
use crate::consts::ATOM_EXT_DEPRECATED;
use crate::consts::BINARY_EXT;
use crate::consts::INTEGER_EXT;
use crate::consts::LARGE_BIG_EXT;
use crate::consts::LIST_EXT;
use crate::consts::MAP_EXT;
use crate::consts::NEW_FLOAT_EXT;
use crate::consts::NEW_FUN_EXT;
use crate::consts::NEW_REFERENCE_EXT;
use crate::consts::NIL_EXT;
use crate::consts::PID_EXT;
use crate::consts::PORT_EXT;
use crate::consts::REVISION;
use crate::consts::SMALL_ATOM_UTF8_EXT;
use crate::consts::SMALL_BIG_EXT;
use crate::consts::SMALL_INTEGER_EXT;
use crate::consts::SMALL_TUPLE_EXT;
use crate::consts::STRING_EXT;
use crate::consts::ZLIB;
use crate::error::DecodeError;
use crate::grammar::spec_atom_deprecated;
use crate::grammar::spec_binary;
use crate::grammar::spec_empty_list;
use crate::grammar::spec_float;
use crate::grammar::spec_from_bytes;
use crate::grammar::spec_fun_origin;
use crate::grammar::spec_function;
use crate::grammar::spec_integer;
use crate::grammar::spec_large_big_int;
use crate::grammar::spec_leaf;
use crate::grammar::spec_list;
use crate::grammar::spec_map;
use crate::grammar::spec_node_or_module;
use crate::grammar::spec_pairs;
use crate::grammar::spec_pid;
use crate::grammar::spec_port;
use crate::grammar::spec_reference;
use crate::grammar::spec_small_atom;
use crate::grammar::spec_small_big_int;
use crate::grammar::spec_small_int;
use crate::grammar::spec_small_int_or_int;
use crate::grammar::spec_small_tuple;
use crate::grammar::spec_string;
use crate::grammar::spec_tag;
use crate::grammar::spec_take;
use crate::grammar::spec_term;
use crate::grammar::spec_terms;
use crate::laws::lemma_single_term_payload;
use crate::lemmas::lemma_fun_origin_consumes;
use crate::lemmas::lemma_function_consumes;
use crate::lemmas::lemma_leaf_consumes;
use crate::lemmas::lemma_list_consumes;
use crate::lemmas::lemma_map_consumes;
use crate::lemmas::lemma_pairs_consume;
use crate::lemmas::lemma_small_tuple_consumes;
use crate::lemmas::lemma_term_consumes;
use crate::lemmas::lemma_terms_consume;
use crate::limits::deeper;
use crate::limits::Limits;
use crate::term::SpecTerm;
use vstd::prelude::*;

verus! {

/// What a decoder makes of the first `k` bytes of an input of `len` bytes on
/// which it found `whole`: too few bytes while its term is cut, and the same
/// value in front of a shorter rest from there on.
pub open spec fn cut_of<T>(whole: (T, Seq<u8>), len: nat, k: nat) -> Result<
    (T, Seq<u8>),
    DecodeError,
> {
    let used = len - whole.1.len();
    if k < used {
        Err(DecodeError::IncompleteInput)
    } else {
        Ok((whole.0, whole.1.take(k - used)))
    }
}

/// `part` is what `cut_of` says, given that `whole` is the outcome on all
/// `len` bytes and `part` the outcome on the first `k` of them. An input
/// that fails as a whole is not spoken of.
pub open spec fn cuts<T>(
    whole: Result<(T, Seq<u8>), DecodeError>,
    part: Result<(T, Seq<u8>), DecodeError>,
    len: nat,
    k: nat,
) -> bool {
    whole matches Ok(found) ==> found.1.len() <= len && part == cut_of(found, len, k)
}

/// A tag is there as soon as one byte is.
pub proof fn lemma_tag_cut(s: Seq<u8>, expected: u8, k: nat)
    requires
        k <= s.len(),
    ensures
        spec_tag(s, expected) matches Ok(body) ==> spec_tag(s.take(k as int), expected) == (if k
            == 0 {
            Err::<Seq<u8>, DecodeError>(DecodeError::IncompleteInput)
        } else {
            Ok::<Seq<u8>, DecodeError>(body.take(k - 1))
        }),
{
    if k > 0 {
        assert(s.take(k as int).skip(1) =~= s.skip(1).take(k - 1));
    }
}

/// A run of `count` bytes is there as soon as `count` bytes are.
pub proof fn lemma_take_cut(s: Seq<u8>, count: nat, k: nat)
    requires
        k <= s.len(),
    ensures
        spec_take(s, count) matches Ok((taken, rest)) ==> spec_take(s.take(k as int), count) == (
        if k < count {
            Err::<(Seq<u8>, Seq<u8>), DecodeError>(DecodeError::IncompleteInput)
        } else {
            Ok::<(Seq<u8>, Seq<u8>), DecodeError>((taken, rest.take(k - count)))
        }),
{
    if k >= count && count <= s.len() {
        assert(s.take(k as int).take(count as int) =~= s.take(count as int));
        assert(s.take(k as int).skip(count as int) =~= s.skip(count as int).take(k - count));
    }
}

/// A small integer cut short.
pub proof fn lemma_small_int_cut(s: Seq<u8>, k: nat)
    requires
        k <= s.len(),
    ensures
        cuts(spec_small_int(s), spec_small_int(s.take(k as int)), s.len(), k),
{
    lemma_tag_cut(s, SMALL_INTEGER_EXT, k);
    if k > 0 {
        lemma_take_cut(s.skip(1), 1, (k - 1) as nat);
    }
}

/// An integer cut short.
pub proof fn lemma_integer_cut(s: Seq<u8>, k: nat)
    requires
        k <= s.len(),
    ensures
        cuts(spec_integer(s), spec_integer(s.take(k as int)), s.len(), k),
{
    lemma_tag_cut(s, INTEGER_EXT, k);
    if k > 0 {
        lemma_take_cut(s.skip(1), 4, (k - 1) as nat);
    }
}

/// A float cut short.
pub proof fn lemma_float_cut(s: Seq<u8>, k: nat)
    requires
        k <= s.len(),
    ensures
        cuts(spec_float(s), spec_float(s.take(k as int)), s.len(), k),
{
    lemma_tag_cut(s, NEW_FLOAT_EXT, k);
    if k > 0 {
        lemma_take_cut(s.skip(1), 8, (k - 1) as nat);
    }
}

/// The empty list cut short.
pub proof fn lemma_empty_list_cut(s: Seq<u8>, k: nat)
    requires
        k <= s.len(),
    ensures
        cuts(spec_empty_list(s), spec_empty_list(s.take(k as int)), s.len(), k),
{
    lemma_tag_cut(s, NIL_EXT, k);
}

/// An atom with a one-byte length cut short.
pub proof fn lemma_small_atom_cut(s: Seq<u8>, k: nat)
    requires
        k <= s.len(),
    ensures
        cuts(spec_small_atom(s), spec_small_atom(s.take(k as int)), s.len(), k),
{
    lemma_tag_cut(s, SMALL_ATOM_UTF8_EXT, k);
    if k > 0 {
        let body = s.skip(1);
        lemma_take_cut(body, 1, (k - 1) as nat);
        if let Ok((header, rest)) = spec_take(body, 1) {
            if k >= 1 + 1 {
                lemma_take_cut(rest, be_value(header), (k - 1 - 1) as nat);
            }
        }
    }
}

/// An atom with a two-byte length cut short.
pub proof fn lemma_atom_deprecated_cut(s: Seq<u8>, k: nat)
    requires
        k <= s.len(),
    ensures
        cuts(spec_atom_deprecated(s), spec_atom_deprecated(s.take(k as int)), s.len(), k),
{
    lemma_tag_cut(s, ATOM_EXT_DEPRECATED, k);
    if k > 0 {
        let body = s.skip(1);
        lemma_take_cut(body, 2, (k - 1) as nat);
        if let Ok((header, rest)) = spec_take(body, 2) {
            if k >= 1 + 2 {
                lemma_take_cut(rest, be_value(header), (k - 1 - 2) as nat);
            }
        }
    }
}

/// A binary cut short.
pub proof fn lemma_binary_cut(s: Seq<u8>, k: nat)
    requires
        k <= s.len(),
    ensures
        cuts(spec_binary(s), spec_binary(s.take(k as int)), s.len(), k),
{
    lemma_tag_cut(s, BINARY_EXT, k);
    if k > 0 {
        let body = s.skip(1);
        lemma_take_cut(body, 4, (k - 1) as nat);
        if let Ok((header, rest)) = spec_take(body, 4) {
            if k >= 1 + 4 {
                lemma_take_cut(rest, be_value(header), (k - 1 - 4) as nat);
            }
        }
    }
}

/// A packed list cut short.
pub proof fn lemma_string_cut(s: Seq<u8>, k: nat)
    requires
        k <= s.len(),
    ensures
        cuts(spec_string(s), spec_string(s.take(k as int)), s.len(), k),
{
    lemma_tag_cut(s, STRING_EXT, k);
    if k > 0 {
        let body = s.skip(1);
        lemma_take_cut(body, 2, (k - 1) as nat);
        if let Ok((header, rest)) = spec_take(body, 2) {
            if k >= 1 + 2 {
                lemma_take_cut(rest, be_value(header), (k - 1 - 2) as nat);
            }
        }
    }
}

/// A big integer with a one-byte length cut short.
pub proof fn lemma_small_big_int_cut(s: Seq<u8>, k: nat)
    requires
        k <= s.len(),
    ensures
        cuts(spec_small_big_int(s), spec_small_big_int(s.take(k as int)), s.len(), k),
{
    lemma_tag_cut(s, SMALL_BIG_EXT, k);
    if k > 0 {
        let body = s.skip(1);
        lemma_take_cut(body, 2, (k - 1) as nat);
        if let Ok((header, rest)) = spec_take(body, 2) {
            if k >= 1 + 2 {
                lemma_take_cut(rest, header[0] as nat, (k - 1 - 2) as nat);
            }
        }
    }
}

/// A big integer with a four-byte length cut short.
pub proof fn lemma_large_big_int_cut(s: Seq<u8>, k: nat)
    requires
        k <= s.len(),
    ensures
        cuts(spec_large_big_int(s), spec_large_big_int(s.take(k as int)), s.len(), k),
{
    lemma_tag_cut(s, LARGE_BIG_EXT, k);
    if k > 0 {
        let body = s.skip(1);
        lemma_take_cut(body, 5, (k - 1) as nat);
        if let Ok((header, rest)) = spec_take(body, 5) {
            if k >= 1 + 5 {
                lemma_take_cut(rest, be_value(header.take(4)), (k - 1 - 5) as nat);
            }
        }
    }
}

/// A node or module name cut short.
pub proof fn lemma_node_or_module_cut(s: Seq<u8>, k: nat)
    requires
        k <= s.len(),
    ensures
        cuts(spec_node_or_module(s), spec_node_or_module(s.take(k as int)), s.len(), k),
{
    lemma_small_atom_cut(s, k);
    lemma_atom_deprecated_cut(s, k);
}

/// A small integer or an integer cut short.
pub proof fn lemma_small_int_or_int_cut(s: Seq<u8>, k: nat)
    requires
        k <= s.len(),
    ensures
        cuts(spec_small_int_or_int(s), spec_small_int_or_int(s.take(k as int)), s.len(), k),
{
    lemma_small_int_cut(s, k);
    lemma_integer_cut(s, k);
}

/// A process identifier cut short.
pub proof fn lemma_pid_cut(s: Seq<u8>, k: nat)
    requires
        k <= s.len(),
    ensures
        cuts(spec_pid(s), spec_pid(s.take(k as int)), s.len(), k),
{
    lemma_tag_cut(s, PID_EXT, k);
    if k > 0 {
        let body = s.skip(1);
        lemma_node_or_module_cut(body, (k - 1) as nat);
        if let Ok((_, rest)) = spec_node_or_module(body) {
            let used = body.len() - rest.len();
            if k - 1 >= used {
                lemma_take_cut(rest, 9, (k - 1 - used) as nat);
            }
        }
    }
}

/// A port cut short.
pub proof fn lemma_port_cut(s: Seq<u8>, k: nat)
    requires
        k <= s.len(),
    ensures
        cuts(spec_port(s), spec_port(s.take(k as int)), s.len(), k),
{
    lemma_tag_cut(s, PORT_EXT, k);
    if k > 0 {
        let body = s.skip(1);
        lemma_node_or_module_cut(body, (k - 1) as nat);
        if let Ok((_, rest)) = spec_node_or_module(body) {
            let used = body.len() - rest.len();
            if k - 1 >= used {
                lemma_take_cut(rest, 5, (k - 1 - used) as nat);
            }
        }
    }
}

/// A reference cut short.
pub proof fn lemma_reference_cut(s: Seq<u8>, k: nat)
    requires
        k <= s.len(),
    ensures
        cuts(spec_reference(s), spec_reference(s.take(k as int)), s.len(), k),
{
    lemma_tag_cut(s, NEW_REFERENCE_EXT, k);
    if k > 0 {
        let body = s.skip(1);
        lemma_take_cut(body, 2, (k - 1) as nat);
        if let Ok((count, named)) = spec_take(body, 2) {
            if k >= 3 {
                lemma_node_or_module_cut(named, (k - 3) as nat);
                if let Ok((_, rest)) = spec_node_or_module(named) {
                    let used = named.len() - rest.len();
                    if k - 3 >= used {
                        let left = (k - 3 - used) as nat;
                        lemma_take_cut(rest, 1, left);
                        if let Ok((_, words)) = spec_take(rest, 1) {
                            if left >= 1 {
                                lemma_take_cut(words, 4 * be_value(count), (left - 1) as nat);
                            }
                        }
                    }
                }
            }
        }
    }
}

/// Two decoders, one behind the other: the outcome of the first, then the
/// second on what the first left over.
#[verifier::opaque]
pub open spec fn chain<A, B>(
    first: Result<(A, Seq<u8>), DecodeError>,
    second: spec_fn(Seq<u8>) -> Result<(B, Seq<u8>), DecodeError>,
) -> Result<((A, B), Seq<u8>), DecodeError> {
    match first {
        Err(e) => Err(e),
        Ok((a, rest)) => match second(rest) {
            Err(e) => Err(e),
            Ok((b, rest)) => Ok(((a, b), rest)),
        },
    }
}

/// `second` makes of every input cut short what `cut_of` says.
pub open spec fn cuts_well<B>(second: spec_fn(Seq<u8>) -> Result<(B, Seq<u8>), DecodeError>) -> bool {
    forall|t: Seq<u8>, j: nat|
        j <= t.len() ==> cuts(second(t), #[trigger] second(t.take(j as int)), t.len(), j)
}

/// Where both decoders make of an input cut short what `cut_of` says, so
/// does the one behind the other.
pub proof fn lemma_chain_cut<A, B>(
    whole: Result<(A, Seq<u8>), DecodeError>,
    part: Result<(A, Seq<u8>), DecodeError>,
    second: spec_fn(Seq<u8>) -> Result<(B, Seq<u8>), DecodeError>,
    len: nat,
    k: nat,
)
    requires
        k <= len,
        cuts(whole, part, len, k),
        cuts_well(second),
    ensures
        cuts(chain(whole, second), chain(part, second), len, k),
{
    reveal(chain);
    if let Ok((_, rest)) = whole {
        let used = len - rest.len();
        assert(cuts(second(rest), second(rest.take(rest.len() as int)), rest.len(), rest.len()));
        if k >= used {
            assert(cuts(second(rest), second(rest.take(k - used)), rest.len(), (k - used) as nat));
        }
    }
}

/// The origin of a function as three steps of one decoder behind another.
pub open spec fn origin_chain(s: Seq<u8>) -> Result<
    ((((SpecTerm, SpecTerm), SpecTerm), SpecTerm), Seq<u8>),
    DecodeError,
> {
    chain(
        chain(
            chain(spec_node_or_module(s), |t: Seq<u8>| spec_small_int_or_int(t)),
            |t: Seq<u8>| spec_small_int_or_int(t),
        ),
        |t: Seq<u8>| spec_pid(t),
    )
}

/// The origin of a function is what its three steps give.
pub proof fn lemma_origin_is_chain(s: Seq<u8>)
    ensures
        spec_fun_origin(s) == match origin_chain(s) {
            Ok(((((module, old_index), old_uniq), pid), rest)) => Ok(
                ((module, old_index, old_uniq, pid), rest),
            ),
            Err(e) => Err(e),
        },
{
    reveal(chain);
    reveal(spec_fun_origin);
}

/// The origin of a function cut short.
pub proof fn lemma_fun_origin_cut(s: Seq<u8>, k: nat)
    requires
        k <= s.len(),
    ensures
        cuts(spec_fun_origin(s), spec_fun_origin(s.take(k as int)), s.len(), k),
{
    let ints = |t: Seq<u8>| spec_small_int_or_int(t);
    let pids = |t: Seq<u8>| spec_pid(t);
    assert(cuts_well(ints)) by {
        assert forall|t: Seq<u8>, j: nat| j <= t.len() implies cuts(
            ints(t),
            #[trigger] ints(t.take(j as int)),
            t.len(),
            j,
        ) by {
            lemma_small_int_or_int_cut(t, j);
        }
    }
    assert(cuts_well(pids)) by {
        assert forall|t: Seq<u8>, j: nat| j <= t.len() implies cuts(
            pids(t),
            #[trigger] pids(t.take(j as int)),
            t.len(),
            j,
        ) by {
            lemma_pid_cut(t, j);
        }
    }
    let part = s.take(k as int);
    lemma_node_or_module_cut(s, k);
    let one = chain(spec_node_or_module(s), ints);
    let one_part = chain(spec_node_or_module(part), ints);
    lemma_chain_cut(spec_node_or_module(s), spec_node_or_module(part), ints, s.len(), k);
    let two = chain(one, ints);
    let two_part = chain(one_part, ints);
    lemma_chain_cut(one, one_part, ints, s.len(), k);
    lemma_chain_cut(two, two_part, pids, s.len(), k);
    lemma_origin_is_chain(s);
    lemma_origin_is_chain(part);
}

/// A run of terms cut short.
pub proof fn lemma_terms_cut(s: Seq<u8>, count: nat, limits: Limits, k: nat)
    requires
        limits.inflate is None,
        k <= s.len(),
    ensures
        cuts(spec_terms(s, count, limits), spec_terms(s.take(k as int), count, limits), s.len(), k),
    decreases limits.depth, 0nat, count,
{
    if count == 0 {
    } else if limits.depth > 0 {
        lemma_term_cut(s, deeper(limits), k);
        if let Ok((first, rest)) = spec_term(s, deeper(limits)) {
            let used = s.len() - rest.len();
            lemma_terms_consume(rest, (count - 1) as nat, limits);
            if k >= used {
                lemma_terms_cut(rest, (count - 1) as nat, limits, (k - used) as nat);
            }
        }
    }
}

/// A run of pairs cut short.
pub proof fn lemma_pairs_cut(s: Seq<u8>, count: nat, limits: Limits, k: nat)
    requires
        limits.inflate is None,
        k <= s.len(),
    ensures
        cuts(spec_pairs(s, count, limits), spec_pairs(s.take(k as int), count, limits), s.len(), k),
    decreases limits.depth, 0nat, count,
{
    if count == 0 {
    } else if limits.depth > 0 {
        lemma_term_cut(s, deeper(limits), k);
        if let Ok((key, middle)) = spec_term(s, deeper(limits)) {
            let used = s.len() - middle.len();
            lemma_term_consumes(middle, deeper(limits));
            if k >= used {
                lemma_term_cut(middle, deeper(limits), (k - used) as nat);
            }
            if let Ok((value, rest)) = spec_term(middle, deeper(limits)) {
                let used_again = middle.len() - rest.len();
                lemma_pairs_consume(rest, (count - 1) as nat, limits);
                if k >= used + used_again {
                    lemma_pairs_cut(
                        rest,
                        (count - 1) as nat,
                        limits,
                        (k - used - used_again) as nat,
                    );
                }
            }
        }
    }
}

/// A tuple cut short.
pub proof fn lemma_small_tuple_cut(s: Seq<u8>, limits: Limits, k: nat)
    requires
        limits.inflate is None,
        k <= s.len(),
    ensures
        cuts(spec_small_tuple(s, limits), spec_small_tuple(s.take(k as int), limits), s.len(), k),
    decreases limits.depth, 1nat, 0nat,
{
    lemma_small_tuple_consumes(s, limits);
    lemma_tag_cut(s, SMALL_TUPLE_EXT, k);
    if k > 0 {
        let body = s.skip(1);
        lemma_take_cut(body, 1, (k - 1) as nat);
        if let Ok((arity, rest)) = spec_take(body, 1) {
            lemma_terms_consume(rest, be_value(arity), limits);
            if k >= 2 {
                lemma_terms_cut(rest, be_value(arity), limits, (k - 2) as nat);
            }
        }
    }
}

/// A list cut short.
pub proof fn lemma_list_cut(s: Seq<u8>, limits: Limits, k: nat)
    requires
        limits.inflate is None,
        k <= s.len(),
    ensures
        cuts(spec_list(s, limits), spec_list(s.take(k as int), limits), s.len(), k),
    decreases limits.depth, 1nat, 0nat,
{
    lemma_list_consumes(s, limits);
    lemma_tag_cut(s, LIST_EXT, k);
    if k > 0 {
        let body = s.skip(1);
        lemma_take_cut(body, 4, (k - 1) as nat);
        if let Ok((count, rest)) = spec_take(body, 4) {
            lemma_terms_consume(rest, be_value(count) + 1, limits);
            if k >= 5 {
                lemma_terms_cut(rest, be_value(count) + 1, limits, (k - 5) as nat);
            }
        }
    }
}

/// A map cut short.
pub proof fn lemma_map_cut(s: Seq<u8>, limits: Limits, k: nat)
    requires
        limits.inflate is None,
        k <= s.len(),
    ensures
        cuts(spec_map(s, limits), spec_map(s.take(k as int), limits), s.len(), k),
    decreases limits.depth, 1nat, 0nat,
{
    lemma_map_consumes(s, limits);
    lemma_tag_cut(s, MAP_EXT, k);
    if k > 0 {
        let body = s.skip(1);
        lemma_take_cut(body, 4, (k - 1) as nat);
        if let Ok((arity, rest)) = spec_take(body, 4) {
            lemma_pairs_consume(rest, be_value(arity), limits);
            if k >= 5 {
                lemma_pairs_cut(rest, be_value(arity), limits, (k - 5) as nat);
            }
        }
    }
}

/// A function cut short.
pub proof fn lemma_function_cut(s: Seq<u8>, limits: Limits, k: nat)
    requires
        limits.inflate is None,
        k <= s.len(),
    ensures
        cuts(spec_function(s, limits), spec_function(s.take(k as int), limits), s.len(), k),
    decreases limits.depth, 1nat, 0nat,
{
    lemma_function_consumes(s, limits);
    lemma_tag_cut(s, NEW_FUN_EXT, k);
    if k > 0 {
        let body = s.skip(1);
        lemma_take_cut(body, 29, (k - 1) as nat);
        if let Ok((header, named)) = spec_take(body, 29) {
            lemma_fun_origin_consumes(named);
            if k >= 30 {
                lemma_fun_origin_cut(named, (k - 30) as nat);
            }
            if let Ok((_, rest)) = spec_fun_origin(named) {
                let used = named.len() - rest.len();
                let free = be_value(header.subrange(25, 29));
                lemma_terms_consume(rest, free, limits);
                if k >= 30 + used {
                    lemma_terms_cut(rest, free, limits, (k - 30 - used) as nat);
                }
            }
        }
    }
}

/// A term that has no terms inside it cut short.
pub proof fn lemma_leaf_cut(s: Seq<u8>, k: nat)
    requires
        k <= s.len(),
    ensures
        cuts(spec_leaf(s), spec_leaf(s.take(k as int)), s.len(), k),
{
    reveal(spec_leaf);
    lemma_leaf_consumes(s);
    if s.len() > 0 && k > 0 {
        let t = s[0];
        assert(s.take(k as int)[0] == t);
        if t == SMALL_INTEGER_EXT {
            lemma_small_int_cut(s, k);
        } else if t == INTEGER_EXT {
            lemma_integer_cut(s, k);
        } else if t == NEW_FLOAT_EXT {
            lemma_float_cut(s, k);
        } else if t == ATOM_EXT_DEPRECATED {
            lemma_atom_deprecated_cut(s, k);
        } else if t == SMALL_ATOM_UTF8_EXT {
            lemma_small_atom_cut(s, k);
        } else if t == NIL_EXT {
            lemma_empty_list_cut(s, k);
        } else if t == BINARY_EXT {
            lemma_binary_cut(s, k);
        } else if t == STRING_EXT {
            lemma_string_cut(s, k);
        } else if t == SMALL_BIG_EXT {
            lemma_small_big_int_cut(s, k);
        } else if t == LARGE_BIG_EXT {
            lemma_large_big_int_cut(s, k);
        } else if t == PID_EXT {
            lemma_pid_cut(s, k);
        } else if t == PORT_EXT {
            lemma_port_cut(s, k);
        } else if t == NEW_REFERENCE_EXT {
            lemma_reference_cut(s, k);
        }
    }
}

/// With compressed envelopes refused, the first `k` bytes of an input that
/// holds a term are an `IncompleteInput` while they end inside the term, and
/// hold the same term from there on.
pub proof fn lemma_term_cut(s: Seq<u8>, limits: Limits, k: nat)
    requires
        limits.inflate is None,
        k <= s.len(),
    ensures
        cuts(spec_term(s, limits), spec_term(s.take(k as int), limits), s.len(), k),
    decreases limits.depth, 2nat, 0nat,
{
    lemma_term_consumes(s, limits);
    if s.len() > 0 && k > 0 {
        let t = s[0];
        assert(s.take(k as int)[0] == t);
        if t == LIST_EXT {
            lemma_list_cut(s, limits, k);
        } else if t == MAP_EXT {
            lemma_map_cut(s, limits, k);
        } else if t == SMALL_TUPLE_EXT {
            lemma_small_tuple_cut(s, limits, k);
        } else if t == NEW_FUN_EXT {
            lemma_function_cut(s, limits, k);
        } else if t == ZLIB {
        } else {
            lemma_leaf_cut(s, k);
        }
    }
}

/// With compressed envelopes refused, an input that ends inside a term is an
/// `IncompleteInput`, wherever in the term it ends and however deep.
pub proof fn lemma_cut_term_is_incomplete(s: Seq<u8>, limits: Limits, k: nat)
    requires
        limits.inflate is None,
        spec_term(s, limits) matches Ok((_, rest)) && k < s.len() - rest.len(),
    ensures
        spec_term(s.take(k as int), limits) == Err::<(SpecTerm, Seq<u8>), DecodeError>(
            DecodeError::IncompleteInput,
        ),
{
    lemma_term_cut(s, limits, k);
}

/// With compressed envelopes refused, a payload of one term that lost bytes
/// from its end, but not all of its term, is an `IncompleteInput`. Here `s`
/// is the term, and `k` the number of its bytes that are left.
pub proof fn lemma_cut_payload_is_incomplete(s: Seq<u8>, limits: Limits, k: nat)
    requires
        limits.inflate is None,
        spec_term(s, limits) matches Ok((_, rest)) && rest.len() == 0,
        0 < k < s.len(),
    ensures
        spec_from_bytes(seq![REVISION] + s.take(k as int), limits) == Err::<SpecTerm, DecodeError>(
            DecodeError::IncompleteInput,
        ),
{
    lemma_term_cut(s, limits, k);
    lemma_single_term_payload(s.take(k as int), limits);
}

} // verus!
