//! The selector chain: the lazy, filtering expression dialect.  Every step
//! is a relation from one value to zero or more children, and a chain
//! composes the steps by flat-mapping each over the stream of current
//! candidates.  A structural mismatch yields nothing instead of an error.
//!
//! With the two step kinds of the present grammar every step yields at most
//! one child, so the stream holds at most one value and evaluation costs no
//! more than the chain is long; the flat-map composition is kept so that
//! one-to-many step kinds can be added without changing the evaluator's
//! shape.
use vstd::prelude::*;

use crate::grammar::{
    chain_parse, parse_chain, steps_view, IndexSelector, NameSelector, SelectorParseError,
    StepView, UnionSelector,
};
use crate::matcher::step_match;
use crate::value::{
    elems_view, entries_view, group_value_views, lemma_elems_view_concat, map_get, v_view, Value,
    ValueView,
};

verus! {

/// The failure of a selector evaluation.  The present step kinds filter
/// structural mismatches out instead of raising them, so no evaluation
/// produces this error today; the type is part of the dialect's surface,
/// kept for step kinds that may fail.
#[derive(PartialEq, Eq, Debug, Clone)]
pub struct SelectorError {
    /// A human-readable description of the failure.
    pub msg: String,
}

/// What one step yields of one value as a relation: the one child a
/// matcher would select, or nothing where a matcher would fail.
pub open spec fn step_select(st: StepView, v: ValueView) -> Seq<ValueView> {
    match step_match(st, v) {
        Ok(c) => seq![c],
        Err(_) => Seq::empty(),
    }
}

/// Every child the step yields of any of the candidates, in candidate
/// order: one flat-map of the step's relation over the stream.
pub open spec fn fan_out(st: StepView, vs: Seq<ValueView>) -> Seq<ValueView> {
    vs.flat_map(|c: ValueView| step_select(st, c))
}

/// The candidate stream after each of the steps, in order, has fanned out
/// over the stream left by the steps before it.
pub open spec fn select_seq(steps: Seq<StepView>, vs: Seq<ValueView>) -> Seq<ValueView>
    decreases steps.len(),
{
    if steps.len() == 0 {
        vs
    } else {
        select_seq(steps.drop_first(), fan_out(steps[0], vs))
    }
}

/// What a selector chain makes of `v`: the stream of all values the chain
/// selects, starting from `v` as the sole candidate.
pub open spec fn chain_select(steps: Seq<StepView>, v: ValueView) -> Seq<ValueView> {
    select_seq(steps, seq![v])
}

/// The outcome of a selector evaluation: a stream of matching values,
/// consumed once, front to back.
#[derive(PartialEq, Eq, Debug)]
pub struct SelectorResult {
    items: Vec<Value>,
}

impl View for SelectorResult {
    type V = Seq<ValueView>;

    closed spec fn view(&self) -> Seq<ValueView> {
        elems_view(self.items@)
    }
}

impl SelectorResult {
    /// How many values are left in the stream.
    pub fn len(&self) -> (n: usize)
        ensures
            n == self@.len(),
    {
        proof {
            broadcast use group_value_views;

        }
        self.items.len()
    }

    /// Whether the stream is out of values.
    pub fn is_empty(&self) -> (b: bool)
        ensures
            b == (self@.len() == 0),
    {
        self.len() == 0
    }

    /// The next value of the stream, if one is left.
    pub fn next(&mut self) -> (r: Option<Value>)
        ensures
            match r {
                Some(x) => old(self)@.len() > 0 && x@ == old(self)@[0] && final(self)@ == old(
                    self,
                )@.drop_first(),
                None => old(self)@.len() == 0 && final(self)@ == old(self)@,
            },
    {
        broadcast use group_value_views;

        if self.items.len() > 0 {
            let x = self.items.remove(0);
            proof {
                assert(elems_view(self.items@) =~= elems_view(old(self).items@).drop_first());
            }
            Some(x)
        } else {
            proof {
                assert(elems_view(self.items@).len() == 0);
            }
            None
        }
    }

    /// The values left in the stream, as a vector, front first.
    pub fn into_vec(self) -> (r: Vec<Value>)
        ensures
            elems_view(r@) == self@,
    {
        self.items
    }
}

/// A stream of no values.
fn empty_result() -> (r: SelectorResult)
    ensures
        r@ == Seq::<ValueView>::empty(),
{
    let items: Vec<Value> = Vec::new();
    proof {
        assert(elems_view(items@) =~= Seq::<ValueView>::empty());
    }
    SelectorResult { items }
}

/// A stream of exactly one value.
fn single_result(x: Value) -> (r: SelectorResult)
    ensures
        r@ =~= seq![v_view(x)],
{
    broadcast use group_value_views;

    let mut items: Vec<Value> = Vec::new();
    items.push(x);
    proof {
        assert(elems_view(items@) =~= seq![v_view(items@[0])]);
    }
    SelectorResult { items }
}

impl NameSelector {
    /// What this step yields of `v` as a relation: the child under the name
    /// if `v` is a map that contains it, nothing otherwise.
    pub fn try_match(&self, v: &Value) -> (r: SelectorResult)
        ensures
            r@ == step_select(StepView::Name(self@), v@),
    {
        broadcast use group_value_views;

        match v {
            Value::Dict(entries) => {
                proof {
                    assert(v@ == ValueView::Dict(entries_view(entries@)));
                }
                match map_get(entries, &self.0) {
                    Some(c) => single_result(c.duplicate()),
                    None => empty_result(),
                }
            },
            _ => empty_result(),
        }
    }
}

impl IndexSelector {
    /// What this step yields of `v` as a relation: the child at the index
    /// if `v` is a list long enough, nothing otherwise.
    pub fn try_match(&self, v: &Value) -> (r: SelectorResult)
        ensures
            r@ == step_select(StepView::Index(self@), v@),
    {
        broadcast use group_value_views;

        match v {
            Value::List(items) => {
                proof {
                    assert(v@ == ValueView::List(elems_view(items@)));
                    assert(elems_view(items@).len() == items@.len());
                }
                if self.0 < items.len() {
                    proof {
                        assert(elems_view(items@)[self.0 as int] == v_view(items@[self.0 as int]));
                    }
                    single_result(items[self.0].duplicate())
                } else {
                    empty_result()
                }
            },
            _ => empty_result(),
        }
    }
}

impl UnionSelector {
    /// What this step yields of `v` as a relation, whichever kind it is.
    pub fn try_match(&self, v: &Value) -> (r: SelectorResult)
        ensures
            r@ == step_select(self@, v@),
    {
        match self {
            UnionSelector::Name(m) => m.try_match(v),
            UnionSelector::Index(m) => m.try_match(v),
        }
    }
}

/// A selector chain: `Nil` yields the current value itself; `Node` applies
/// one step and hands every selected child to the rest of the chain.
#[derive(PartialEq, Eq, Debug)]
pub enum Selector {
    Nil,
    Node(UnionSelector, Box<Selector>),
}

/// The steps of a selector, front first.
pub open spec fn sel_steps(s: Selector) -> Seq<StepView>
    decreases s,
{
    match s {
        Selector::Nil => Seq::empty(),
        Selector::Node(u, next) => seq![u@] + sel_steps(*next),
    }
}

impl View for Selector {
    type V = Seq<StepView>;

    open spec fn view(&self) -> Seq<StepView> {
        sel_steps(*self)
    }
}

impl Selector {
    /// The selector that applies the given steps in order.
    pub fn from_vec(sels: Vec<UnionSelector>) -> (r: Selector)
        ensures
            r@ == steps_view(sels@),
    {
        let ghost all = sels@;
        let mut rest = sels;
        let mut sel = Selector::Nil;
        proof {
            assert(rest@ =~= all.take(rest@.len() as int));
            assert(sel@ =~= steps_view(all.skip(rest@.len() as int)));
        }
        while rest.len() > 0
            invariant
                rest@.len() <= all.len(),
                rest@ == all.take(rest@.len() as int),
                sel@ == steps_view(all.skip(rest@.len() as int)),
            decreases rest@.len(),
        {
            let ghost k = rest@.len() as int;
            let u = rest.pop().unwrap();
            proof {
                assert(u == all[k - 1]);
                assert(rest@ =~= all.take(k - 1));
            }
            sel = Selector::Node(u, Box::new(sel));
            proof {
                assert(sel@ =~= seq![u@] + steps_view(all.skip(k)));
                assert(sel@ =~= steps_view(all.skip(k - 1)));
            }
        }
        proof {
            assert(all.skip(0) =~= all);
        }
        sel
    }

    /// Applies every step in order, flat-mapping it over the stream of
    /// current candidates: the stream of all selected values.
    pub fn try_match(&self, v: &Value) -> (r: SelectorResult)
        ensures
            r@ == chain_select(self@, v@),
    {
        broadcast use group_value_views;

        let mut vs: Vec<Value> = Vec::new();
        vs.push(v.duplicate());
        let mut cur: &Selector = self;
        proof {
            assert(elems_view(vs@) =~= seq![v@]);
        }
        loop
            invariant
                select_seq(cur@, elems_view(vs@)) == chain_select(self@, v@),
            ensures
                select_seq(cur@, elems_view(vs@)) == chain_select(self@, v@),
                cur@.len() == 0,
            decreases *cur,
        {
            broadcast use group_value_views;

            match cur {
                Selector::Nil => {
                    break ;
                },
                Selector::Node(u, next) => {
                    let ghost stf = |c: ValueView| step_select(u@, c);
                    let ghost vsv = elems_view(vs@);
                    let m = vs.len();
                    let mut out: Vec<Value> = Vec::new();
                    let mut i: usize = 0;
                    proof {
                        assert(elems_view(out@) =~= vsv.take(0).flat_map(stf));
                    }
                    while i < m
                        invariant
                            i <= m,
                            m == vs@.len(),
                            vsv == elems_view(vs@),
                            vsv.len() == m,
                            elems_view(out@) == vsv.take(i as int).flat_map(stf),
                            (stf == |c: ValueView| step_select(u@, c)),
                        decreases m - i,
                    {
                        broadcast use vstd::seq::Seq::lemma_flat_map_take_append;
                        broadcast use group_value_views;

                        let found = u.try_match(&vs[i]);
                        let ghost before = out@;
                        let mut found_items = found.into_vec();
                        let ghost fi = found_items@;
                        out.append(&mut found_items);
                        proof {
                            lemma_elems_view_concat(before, fi);
                            assert(elems_view(fi) == stf(vsv[i as int]));
                            assert(out@ == before + fi);
                        }
                        i = i + 1;
                    }
                    proof {
                        assert(vsv.take(m as int) =~= vsv);
                        assert(elems_view(out@) == fan_out(u@, vsv));
                        assert(cur@.drop_first() =~= (**next)@);
                        assert(cur@[0] == u@);
                    }
                    vs = out;
                    cur = &**next;
                },
            }
        }
        SelectorResult { items: vs }
    }

    /// Parses a chain — one step, then as many `.`-separated steps as the
    /// text allows — from the start of `input`, returning the unconsumed
    /// remainder and the selector.  A caller that wants the whole text to
    /// be one expression must reject a non-empty remainder itself.
    pub fn parse(input: &str) -> (r: Result<(&str, Selector), SelectorParseError>)
        ensures
            match r {
                Ok(t) => {
                    &&& chain_parse(input@, 0) == Some((t.1@, input@.len() - t.0@.len()))
                    &&& t.0@ == input@.subrange(input@.len() - t.0@.len(), input@.len() as int)
                    &&& t.1@.len() >= 1
                },
                Err(e) => {
                    &&& chain_parse(input@, 0) is None
                    &&& e.msg@ == "expression must begin with a field name or an index"@
                },
            },
    {
        let n = input.unicode_len();
        match parse_chain(input) {
            Some(t) => {
                let rest = input.substring_char(t.1, n);
                Ok((rest, Selector::from_vec(t.0)))
            },
            None => Err(
                SelectorParseError {
                    msg: ("expression must begin with a field name or an index").to_owned(),
                },
            ),
        }
    }
}

} // verus!
