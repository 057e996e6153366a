//! The decoded term tree and its mathematical model.

use crate::bigint::big_int_value;
use num_bigint::BigInt;
use vstd::prelude::*;
use vstd::slice::slice_to_vec;

verus! {

/// One decoded term. Every variant stands for exactly one wire tag, and a
/// term owns its children.
#[derive(Debug, PartialEq, Eq)]
#[allow(inconsistent_fields)]
pub enum RawTerm {
    /// An integer from 0 to 255.
    SmallInt(u8),
    /// A signed 32-bit integer.
    Int(i32),
    /// The IEEE 754 binary64 bit pattern, as it stood on the wire.
    Float(u64),
    /// An atom name that came with a one-byte length.
    SmallAtom(String),
    /// An atom name that came with a two-byte length.
    AtomDeprecated(String),
    /// The empty list.
    Nil,
    /// A run of bytes.
    Binary(Vec<u8>),
    /// A list of small integers in its packed encoding, kept as bytes.
    String(Vec<u8>),
    /// The elements in order. A list whose tail is not `Nil` ends in an
    /// `Improper` element that carries the tail.
    List(Vec<RawTerm>),
    /// The tail of a list that does not end in `Nil`.
    Improper(Box<RawTerm>),
    /// Key and value pairs in the order of the wire; keys may repeat.
    Mapping(Vec<(RawTerm, RawTerm)>),
    /// A tuple of at most 255 elements.
    SmallTuple(Vec<RawTerm>),
    /// A big integer that came with a one-byte length.
    SmallBigInt(BigInt),
    /// A big integer that came with a four-byte length.
    LargeBigInt(BigInt),
    /// A process identifier; `node` is an atom.
    Pid { node: Box<RawTerm>, id: u32, serial: u32, creation: u8 },
    /// A port; `node` is an atom.
    Port { node: Box<RawTerm>, id: u32, creation: u8 },
    /// A reference; `node` is an atom, `id` holds its words in order.
    Ref { node: Box<RawTerm>, id: Vec<u32>, creation: u8 },
    /// A function: `module` is an atom, `old_index` and `old_uniq` are
    /// integers, `pid` is the process that made it, and `free_var` holds its
    /// free variables in order.
    Function {
        size: u32,
        arity: u8,
        uniq: [u8; 16],
        index: u32,
        module: Box<RawTerm>,
        old_index: Box<RawTerm>,
        old_uniq: Box<RawTerm>,
        pid: Box<RawTerm>,
        free_var: Vec<RawTerm>,
    },
}

/// What a `RawTerm` means: the same tree over sequences and mathematical
/// integers.
#[allow(inconsistent_fields)]
pub enum SpecTerm {
    SmallInt(u8),
    Int(i32),
    Float(u64),
    SmallAtom(Seq<char>),
    AtomDeprecated(Seq<char>),
    Nil,
    Binary(Seq<u8>),
    String(Seq<u8>),
    List(Seq<SpecTerm>),
    Improper(Box<SpecTerm>),
    Mapping(Seq<(SpecTerm, SpecTerm)>),
    SmallTuple(Seq<SpecTerm>),
    SmallBigInt(int),
    LargeBigInt(int),
    Pid { node: Box<SpecTerm>, id: u32, serial: u32, creation: u8 },
    Port { node: Box<SpecTerm>, id: u32, creation: u8 },
    Ref { node: Box<SpecTerm>, id: Seq<u32>, creation: u8 },
    Function {
        size: u32,
        arity: u8,
        uniq: Seq<u8>,
        index: u32,
        module: Box<SpecTerm>,
        old_index: Box<SpecTerm>,
        old_uniq: Box<SpecTerm>,
        pid: Box<SpecTerm>,
        free_var: Seq<SpecTerm>,
    },
}

/// The model of a sequence of terms, element by element.
pub open spec fn terms_view(items: Seq<RawTerm>) -> Seq<SpecTerm>
    decreases items, 0int,
{
    Seq::new(
        items.len(),
        |i: int|
            if 0 <= i < items.len() {
                term_view(items[i])
            } else {
                SpecTerm::Nil
            },
    )
}

/// The model of a sequence of key and value pairs, pair by pair.
pub open spec fn pairs_view(pairs: Seq<(RawTerm, RawTerm)>) -> Seq<(SpecTerm, SpecTerm)>
    decreases pairs, 0int,
{
    Seq::new(
        pairs.len(),
        |i: int|
            if 0 <= i < pairs.len() {
                (term_view(pairs[i].0), term_view(pairs[i].1))
            } else {
                (SpecTerm::Nil, SpecTerm::Nil)
            },
    )
}

/// The model of one term.
pub open spec fn term_view(term: RawTerm) -> SpecTerm
    decreases term, 1int,
{
    match term {
        RawTerm::SmallInt(n) => SpecTerm::SmallInt(n),
        RawTerm::Int(n) => SpecTerm::Int(n),
        RawTerm::Float(bits) => SpecTerm::Float(bits),
        RawTerm::SmallAtom(name) => SpecTerm::SmallAtom(name@),
        RawTerm::AtomDeprecated(name) => SpecTerm::AtomDeprecated(name@),
        RawTerm::Nil => SpecTerm::Nil,
        RawTerm::Binary(data) => SpecTerm::Binary(data@),
        RawTerm::String(data) => SpecTerm::String(data@),
        RawTerm::List(items) => SpecTerm::List(terms_view(items@)),
        RawTerm::Improper(tail) => SpecTerm::Improper(Box::new(term_view(*tail))),
        RawTerm::Mapping(pairs) => SpecTerm::Mapping(pairs_view(pairs@)),
        RawTerm::SmallTuple(items) => SpecTerm::SmallTuple(terms_view(items@)),
        RawTerm::SmallBigInt(n) => SpecTerm::SmallBigInt(big_int_value(n)),
        RawTerm::LargeBigInt(n) => SpecTerm::LargeBigInt(big_int_value(n)),
        RawTerm::Pid { node, id, serial, creation } => SpecTerm::Pid {
            node: Box::new(term_view(*node)),
            id,
            serial,
            creation,
        },
        RawTerm::Port { node, id, creation } => SpecTerm::Port {
            node: Box::new(term_view(*node)),
            id,
            creation,
        },
        RawTerm::Ref { node, id, creation } => SpecTerm::Ref {
            node: Box::new(term_view(*node)),
            id: id@,
            creation,
        },
        RawTerm::Function {
            size,
            arity,
            uniq,
            index,
            module,
            old_index,
            old_uniq,
            pid,
            free_var,
        } => SpecTerm::Function {
            size,
            arity,
            uniq: uniq@,
            index,
            module: Box::new(term_view(*module)),
            old_index: Box::new(term_view(*old_index)),
            old_uniq: Box::new(term_view(*old_uniq)),
            pid: Box::new(term_view(*pid)),
            free_var: terms_view(free_var@),
        },
    }
}

/// An atom in either encoding.
pub open spec fn is_atom(term: SpecTerm) -> bool {
    term is SmallAtom || term is AtomDeprecated
}

/// A small integer or an integer.
pub open spec fn is_small_int_or_int(term: SpecTerm) -> bool {
    term is SmallInt || term is Int
}

/// Every one of `items` is well formed.
pub open spec fn all_well_formed(items: Seq<SpecTerm>) -> bool
    decreases items, 0int,
{
    forall|i: int| 0 <= i < items.len() ==> well_formed(#[trigger] items[i])
}

/// The shape that every decoded term has, all the way down.
///
/// Counts and lengths fit the width of their field on the wire. Node and
/// module names are atoms; the old index and the old uniqueness number of a
/// function are integers, and its creator is a process identifier.
/// `Improper` stands nowhere but at the end of a list, around a tail that is
/// not `Nil`.
pub open spec fn well_formed(term: SpecTerm) -> bool
    decreases term, 1int,
{
    match term {
        SpecTerm::SmallInt(_) => true,
        SpecTerm::Int(_) => true,
        SpecTerm::Float(_) => true,
        SpecTerm::SmallAtom(_) => true,
        SpecTerm::AtomDeprecated(_) => true,
        SpecTerm::Nil => true,
        SpecTerm::Binary(data) => data.len() <= u32::MAX,
        SpecTerm::String(data) => data.len() <= u16::MAX,
        SpecTerm::List(items) => {
            &&& items.len() <= u32::MAX + 1
            &&& forall|i: int|
                0 <= i < items.len() ==> match #[trigger] items[i] {
                    SpecTerm::Improper(tail) => i == items.len() - 1 && !(*tail is Nil)
                        && well_formed(*tail),
                    item => well_formed(item),
                }
        },
        SpecTerm::Improper(_) => false,
        SpecTerm::Mapping(pairs) => {
            &&& pairs.len() <= u32::MAX
            &&& forall|i: int|
                0 <= i < pairs.len() ==> well_formed((#[trigger] pairs[i]).0) && well_formed(
                    pairs[i].1,
                )
        },
        SpecTerm::SmallTuple(items) => items.len() <= u8::MAX && all_well_formed(items),
        SpecTerm::SmallBigInt(_) => true,
        SpecTerm::LargeBigInt(_) => true,
        SpecTerm::Pid { node, .. } => is_atom(*node),
        SpecTerm::Port { node, .. } => is_atom(*node),
        SpecTerm::Ref { node, id, .. } => is_atom(*node) && id.len() <= u16::MAX,
        SpecTerm::Function { uniq, module, old_index, old_uniq, pid, free_var, .. } => {
            &&& uniq.len() == 16
            &&& is_atom(*module)
            &&& is_small_int_or_int(*old_index)
            &&& is_small_int_or_int(*old_uniq)
            &&& *pid is Pid
            &&& well_formed(*pid)
            &&& free_var.len() <= u32::MAX
            &&& all_well_formed(free_var)
        },
    }
}

/// The model of a sequence grows with the sequence.
pub proof fn lemma_terms_view_push(items: Seq<RawTerm>, last: RawTerm)
    ensures
        terms_view(items.push(last)) == terms_view(items).push(term_view(last)),
{
    assert(terms_view(items.push(last)) =~= terms_view(items).push(term_view(last)));
}

/// The same for pairs.
pub proof fn lemma_pairs_view_push(pairs: Seq<(RawTerm, RawTerm)>, last: (RawTerm, RawTerm))
    ensures
        pairs_view(pairs.push(last)) == pairs_view(pairs).push(
            (term_view(last.0), term_view(last.1)),
        ),
{
    assert(pairs_view(pairs.push(last)) =~= pairs_view(pairs).push(
        (term_view(last.0), term_view(last.1)),
    ));
}

impl View for RawTerm {
    type V = SpecTerm;

    open spec fn view(&self) -> SpecTerm {
        term_view(*self)
    }
}

/// Copies a run of terms, term by term.
pub fn duplicate_terms(items: &Vec<RawTerm>) -> (r: Vec<RawTerm>)
    ensures
        terms_view(r@) == terms_view(items@),
    decreases items,
{
    let mut out: Vec<RawTerm> = Vec::new();
    let mut i: usize = 0;
    while i < items.len()
        invariant
            i <= items@.len(),
            out@.len() == i,
            forall|k: int| 0 <= k < i ==> term_view(out@[k]) == term_view(items@[k]),
        decreases items@.len() - i,
    {
        let copy = duplicate(&items[i]);
        out.push(copy);
        i += 1;
    }
    proof {
        assert(terms_view(out@) =~= terms_view(items@));
    }
    out
}

/// Copies a run of pairs, pair by pair.
pub fn duplicate_pairs(pairs: &Vec<(RawTerm, RawTerm)>) -> (r: Vec<(RawTerm, RawTerm)>)
    ensures
        pairs_view(r@) == pairs_view(pairs@),
    decreases pairs,
{
    let mut out: Vec<(RawTerm, RawTerm)> = Vec::new();
    let mut i: usize = 0;
    while i < pairs.len()
        invariant
            i <= pairs@.len(),
            out@.len() == i,
            forall|k: int|
                0 <= k < i ==> term_view(out@[k].0) == term_view(pairs@[k].0) && term_view(
                    out@[k].1,
                ) == term_view(pairs@[k].1),
        decreases pairs@.len() - i,
    {
        let key = duplicate(&pairs[i].0);
        let value = duplicate(&pairs[i].1);
        out.push((key, value));
        i += 1;
    }
    proof {
        assert(pairs_view(out@) =~= pairs_view(pairs@));
    }
    out
}

/// Copies a term. The copy stands for the same term as the one it was made
/// from.
pub fn duplicate(term: &RawTerm) -> (r: RawTerm)
    ensures
        r@ == term@,
    decreases term,
{
    match term {
        RawTerm::SmallInt(n) => RawTerm::SmallInt(*n),
        RawTerm::Int(n) => RawTerm::Int(*n),
        RawTerm::Float(bits) => RawTerm::Float(*bits),
        RawTerm::SmallAtom(name) => RawTerm::SmallAtom(name.clone()),
        RawTerm::AtomDeprecated(name) => RawTerm::AtomDeprecated(name.clone()),
        RawTerm::Nil => RawTerm::Nil,
        RawTerm::Binary(data) => RawTerm::Binary(slice_to_vec(data.as_slice())),
        RawTerm::String(data) => RawTerm::String(slice_to_vec(data.as_slice())),
        RawTerm::List(items) => RawTerm::List(duplicate_terms(items)),
        RawTerm::Improper(tail) => RawTerm::Improper(Box::new(duplicate(tail))),
        RawTerm::Mapping(pairs) => RawTerm::Mapping(duplicate_pairs(pairs)),
        RawTerm::SmallTuple(items) => RawTerm::SmallTuple(duplicate_terms(items)),
        RawTerm::SmallBigInt(n) => RawTerm::SmallBigInt(n.clone()),
        RawTerm::LargeBigInt(n) => RawTerm::LargeBigInt(n.clone()),
        RawTerm::Pid { node, id, serial, creation } => RawTerm::Pid {
            node: Box::new(duplicate(node)),
            id: *id,
            serial: *serial,
            creation: *creation,
        },
        RawTerm::Port { node, id, creation } => RawTerm::Port {
            node: Box::new(duplicate(node)),
            id: *id,
            creation: *creation,
        },
        RawTerm::Ref { node, id, creation } => RawTerm::Ref {
            node: Box::new(duplicate(node)),
            id: slice_to_vec(id.as_slice()),
            creation: *creation,
        },
        RawTerm::Function {
            size,
            arity,
            uniq,
            index,
            module,
            old_index,
            old_uniq,
            pid,
            free_var,
        } => RawTerm::Function {
            size: *size,
            arity: *arity,
            uniq: *uniq,
            index: *index,
            module: Box::new(duplicate(module)),
            old_index: Box::new(duplicate(old_index)),
            old_uniq: Box::new(duplicate(old_uniq)),
            pid: Box::new(duplicate(pid)),
            free_var: duplicate_terms(free_var),
        },
    }
}

impl Clone for RawTerm {
    fn clone(&self) -> (r: Self)
        ensures
            r@ == self@,
    {
        duplicate(self)
    }
}

} // verus!
