//! The document value model: a closed recursive sum type standing for any
//! decoded document node.
//!
//! A value is built once, bottom-up, by a decoder outside this crate and is
//! only read afterwards: the evaluators in this crate clone sub-values and
//! never mutate a tree in place.
//!
//! A floating-point node carries the raw IEEE-754 bit pattern of the number:
//! the evaluators never look inside it, they only carry it through, and the
//! encoder outside this crate turns the bits back into a number.
//!
//! A map node carries its entries as an ordered list of key/value pairs.  A
//! well-formed map has pairwise distinct keys (see [`view_wf`]), so the order
//! of the entries never influences a lookup.
use vstd::prelude::*;

verus! {

/// One node of a decoded document.
#[derive(Debug, PartialEq, Eq)]
pub enum Value {
    /// Absence of a value (null).
    Unit,
    /// A signed 64-bit integer.
    Int(i64),
    /// The IEEE-754 bit pattern of a 64-bit floating-point number.
    Float(u64),
    /// A boolean.
    Bool(bool),
    /// Owned text.
    String(String),
    /// A string-keyed mapping; keys of a well-formed map are distinct.
    Dict(Vec<(String, Value)>),
    /// An ordered list.
    List(Vec<Value>),
}

/// The mathematical shape of a [`Value`]: the same tree over `Seq` and `int`,
/// with text as its character sequence.  Structural equality of two values is
/// equality of their views.
pub enum ValueView {
    Unit,
    Int(int),
    Float(u64),
    Bool(bool),
    String(Seq<char>),
    Dict(Seq<(Seq<char>, ValueView)>),
    List(Seq<ValueView>),
}

/// The view of one value.
pub open spec fn v_view(v: Value) -> ValueView
    decreases v,
    via v_view_dec
{
    match v {
        Value::Unit => ValueView::Unit,
        Value::Int(i) => ValueView::Int(i as int),
        Value::Float(bits) => ValueView::Float(bits),
        Value::Bool(b) => ValueView::Bool(b),
        Value::String(s) => ValueView::String(s@),
        Value::Dict(es) => ValueView::Dict(entries_view(es@)),
        Value::List(l) => ValueView::List(elems_view(l@)),
    }
}

/// The view of every entry of a map, in order.
pub open spec fn entries_view(es: Seq<(String, Value)>) -> Seq<(Seq<char>, ValueView)>
    decreases es,
    via entries_view_dec
{
    if es.len() == 0 {
        Seq::empty()
    } else {
        seq![(es[0].0@, v_view(es[0].1))] + entries_view(es.drop_first())
    }
}

/// The view of every element of a list, in order.
pub open spec fn elems_view(l: Seq<Value>) -> Seq<ValueView>
    decreases l,
    via elems_view_dec
{
    if l.len() == 0 {
        Seq::empty()
    } else {
        seq![v_view(l[0])] + elems_view(l.drop_first())
    }
}

#[via_fn]
proof fn v_view_dec(v: Value) {
    broadcast use vstd::seq::axiom_seq_index_decreases;

    match v {
        Value::Dict(es) => {
            assert(decreases_to!(v => es));
            assert(decreases_to!(es => es@));
        },
        Value::List(l) => {
            assert(decreases_to!(v => l));
            assert(decreases_to!(l => l@));
        },
        _ => {},
    }
}

#[via_fn]
proof fn entries_view_dec(es: Seq<(String, Value)>) {
    broadcast use vstd::seq::axiom_seq_index_decreases;
    broadcast use vstd::seq::axiom_seq_subrange_decreases;

    if es.len() > 0 {
        assert(decreases_to!(es => es[0]));
        assert(es.drop_first() == es.subrange(1, es.len() as int));
        assert(decreases_to!(es => es.subrange(1, es.len() as int)));
    }
}

#[via_fn]
proof fn elems_view_dec(l: Seq<Value>) {
    broadcast use vstd::seq::axiom_seq_index_decreases;
    broadcast use vstd::seq::axiom_seq_subrange_decreases;

    if l.len() > 0 {
        assert(decreases_to!(l => l[0]));
        assert(l.drop_first() == l.subrange(1, l.len() as int));
        assert(decreases_to!(l => l.subrange(1, l.len() as int)));
    }
}

/// A list view is as long as the list.
pub broadcast proof fn lemma_elems_view_len(l: Seq<Value>)
    ensures
        (#[trigger] elems_view(l)).len() == l.len(),
    decreases l.len(),
{
    if l.len() > 0 {
        lemma_elems_view_len(l.drop_first());
    }
}

/// A list view holds the view of each element, in place.
pub broadcast proof fn lemma_elems_view_index(l: Seq<Value>, i: int)
    requires
        0 <= i < l.len(),
    ensures
        #[trigger] elems_view(l)[i] == v_view(l[i]),
    decreases l.len(),
{
    lemma_elems_view_len(l.drop_first());
    if i > 0 {
        lemma_elems_view_index(l.drop_first(), i - 1);
    }
}

/// An entry-sequence view is as long as the entry sequence.
pub broadcast proof fn lemma_entries_view_len(es: Seq<(String, Value)>)
    ensures
        (#[trigger] entries_view(es)).len() == es.len(),
    decreases es.len(),
{
    if es.len() > 0 {
        lemma_entries_view_len(es.drop_first());
    }
}

/// An entry-sequence view holds the view of each entry, in place.
pub broadcast proof fn lemma_entries_view_index(es: Seq<(String, Value)>, i: int)
    requires
        0 <= i < es.len(),
    ensures
        #[trigger] entries_view(es)[i] == (es[i].0@, v_view(es[i].1)),
    decreases es.len(),
{
    lemma_entries_view_len(es.drop_first());
    if i > 0 {
        lemma_entries_view_index(es.drop_first(), i - 1);
    }
}

/// A list view distributes over concatenation.
pub proof fn lemma_elems_view_concat(a: Seq<Value>, b: Seq<Value>)
    ensures
        elems_view(a + b) =~= elems_view(a) + elems_view(b),
{
    broadcast use group_value_views;

    assert forall|i: int| 0 <= i < (a + b).len() implies elems_view(a + b)[i] == (elems_view(a)
        + elems_view(b))[i] by {
        if i < a.len() {
            assert((a + b)[i] == a[i]);
        } else {
            assert((a + b)[i] == b[i - a.len()]);
        }
    }
}

/// How a list or map view relates to its list or map, element by element.
pub broadcast group group_value_views {
    lemma_elems_view_len,
    lemma_elems_view_index,
    lemma_entries_view_len,
    lemma_entries_view_index,
}

impl View for Value {
    type V = ValueView;

    open spec fn view(&self) -> ValueView {
        v_view(*self)
    }
}

/// Well-formedness of a value: every map in the tree has pairwise distinct
/// keys.  Decoders establish it; the evaluators only read sub-values, so it
/// is preserved throughout.
pub open spec fn view_wf(v: ValueView) -> bool
    decreases v,
{
    match v {
        ValueView::Dict(es) => {
            &&& forall|i: int, j: int|
                0 <= i < j < es.len() ==> #[trigger] es[i].0 != #[trigger] es[j].0
            &&& forall|i: int| 0 <= i < es.len() ==> view_wf(#[trigger] es[i].1)
        },
        ValueView::List(l) => forall|i: int| 0 <= i < l.len() ==> view_wf(#[trigger] l[i]),
        _ => true,
    }
}

/// The value under `k` in the entry sequence `es`, searching from entry `i`
/// on: the first entry whose key is `k` decides.
pub open spec fn map_lookup_from(
    es: Seq<(Seq<char>, ValueView)>,
    k: Seq<char>,
    i: int,
) -> Option<ValueView>
    decreases es.len() - i,
{
    if 0 <= i < es.len() {
        if es[i].0 == k {
            Some(es[i].1)
        } else {
            map_lookup_from(es, k, i + 1)
        }
    } else {
        None
    }
}

/// The value under key `k` in the entry sequence `es`, if any.
pub open spec fn map_lookup(es: Seq<(Seq<char>, ValueView)>, k: Seq<char>) -> Option<ValueView> {
    map_lookup_from(es, k, 0)
}

impl Value {
    /// A deep copy: the copy has the same view as the original.
    pub fn duplicate(&self) -> (res: Value)
        ensures
            res@ == self@,
        decreases *self,
    {
        broadcast use group_value_views;

        match self {
            Value::Unit => Value::Unit,
            Value::Int(i) => Value::Int(*i),
            Value::Float(bits) => Value::Float(*bits),
            Value::Bool(b) => Value::Bool(*b),
            Value::String(s) => Value::String(s.clone()),
            Value::Dict(es) => {
                let mut out: Vec<(String, Value)> = Vec::new();
                let n = es.len();
                let mut i: usize = 0;
                while i < n
                    invariant
                        i <= n,
                        n == es@.len(),
                        (*self == Value::Dict(*es)),
                        out@.len() == i as int,
                        forall|j: int|
                            0 <= j < i as int ==> #[trigger] out@[j].0@ == es@[j].0@ && v_view(
                                out@[j].1,
                            ) == v_view(es@[j].1),
                    decreases n - i,
                {
                    proof {
                        broadcast use vstd::seq::axiom_seq_index_decreases;

                        assert(decreases_to!(*self => (*self)->Dict_0));
                        assert(decreases_to!(*es => es@));
                        assert(decreases_to!(es@ => es@[i as int]));
                        assert(decreases_to!(es@[i as int] => es@[i as int].1));
                    }
                    let key = es[i].0.clone();
                    let child = es[i].1.duplicate();
                    out.push((key, child));
                    i += 1;
                }
                proof {
                    assert(entries_view(out@) =~= entries_view(es@));
                }
                Value::Dict(out)
            },
            Value::List(l) => {
                let mut out: Vec<Value> = Vec::new();
                let n = l.len();
                let mut i: usize = 0;
                while i < n
                    invariant
                        i <= n,
                        n == l@.len(),
                        (*self == Value::List(*l)),
                        out@.len() == i as int,
                        forall|j: int| 0 <= j < i as int ==> v_view(#[trigger] out@[j]) == v_view(l@[j]),
                    decreases n - i,
                {
                    proof {
                        broadcast use vstd::seq::axiom_seq_index_decreases;

                        assert(decreases_to!(*self => (*self)->List_0));
                        assert(decreases_to!(*l => l@));
                        assert(decreases_to!(l@ => l@[i as int]));
                    }
                    let child = l[i].duplicate();
                    out.push(child);
                    i += 1;
                }
                proof {
                    assert(elems_view(out@) =~= elems_view(l@));
                }
                Value::List(out)
            },
        }
    }
}

/// The entry under `key` in `entries`, if any: the executable side of
/// [`map_lookup`].
pub fn map_get<'a>(entries: &'a Vec<(String, Value)>, key: &String) -> (res: Option<&'a Value>)
    ensures
        match res {
            Some(c) => map_lookup(entries_view(entries@), key@) == Some(c@),
            None => map_lookup(entries_view(entries@), key@) is None,
        },
{
    broadcast use group_value_views;

    let n = entries.len();
    let mut i: usize = 0;
    while i < n
        invariant
            i <= n,
            n == entries@.len(),
            map_lookup(entries_view(entries@), key@) == map_lookup_from(
                entries_view(entries@),
                key@,
                i as int,
            ),
        decreases n - i,
    {
        proof {
            lemma_entries_view_len(entries@);
            lemma_entries_view_index(entries@, i as int);
        }
        if entries[i].0 == *key {
            return Some(&entries[i].1);
        }
        i += 1;
    }
    None
}

} // verus!
