//! The matcher chain: the strict expression dialect.  The steps of one
//! parsed path expression are applied left-to-right to a single value; each
//! step narrows the current value to exactly one child or fails outright,
//! and the first failure ends the evaluation.
use vstd::prelude::*;

use crate::grammar::{
    chain_parse, parse_chain, steps_view, SelectorParseError, StepView, UnionSelector,
};
use crate::text::{dec_repr, usize_to_string};
use crate::value::{
    elems_view, entries_view, group_value_views, map_get, map_lookup, v_view, Value, ValueView,
};

verus! {

/// The failure of a matcher-chain evaluation: a structural mismatch at the
/// step that could not apply.
#[derive(PartialEq, Eq, Debug, Clone)]
pub enum MatchError {
    /// A name step was applied to a value that is not a map.
    NotMap,
    /// A name step named a key its map does not contain.
    MissingKey(String),
    /// An index step was applied to a value that is not a list.
    NotList,
    /// An index step pointed at or past the end of its list.
    IndexOutOfRange(usize),
}

/// The mathematical shape of a match error.
pub enum MatchErrorView {
    NotMap,
    MissingKey(Seq<char>),
    NotList,
    IndexOutOfRange(nat),
}

impl View for MatchError {
    type V = MatchErrorView;

    open spec fn view(&self) -> MatchErrorView {
        match *self {
            MatchError::NotMap => MatchErrorView::NotMap,
            MatchError::MissingKey(ref k) => MatchErrorView::MissingKey(k@),
            MatchError::NotList => MatchErrorView::NotList,
            MatchError::IndexOutOfRange(i) => MatchErrorView::IndexOutOfRange(i as nat),
        }
    }
}

/// The human-readable text of a match error.
pub open spec fn match_error_text(e: MatchErrorView) -> Seq<char> {
    match e {
        MatchErrorView::NotMap => "value is not a map"@,
        MatchErrorView::MissingKey(k) => "map does not contain key '"@ + k + "'"@,
        MatchErrorView::NotList => "value is not a list"@,
        MatchErrorView::IndexOutOfRange(i) => "index out of range: "@ + dec_repr(i),
    }
}

impl MatchError {
    /// Renders the error as its human-readable message.
    pub fn message(&self) -> (m: String)
        ensures
            m@ == match_error_text(self@),
    {
        match self {
            MatchError::NotMap => ("value is not a map").to_owned(),
            MatchError::MissingKey(k) => String::from_str("map does not contain key '").concat(
                k.as_str(),
            ).concat("'"),
            MatchError::NotList => ("value is not a list").to_owned(),
            MatchError::IndexOutOfRange(i) => String::from_str("index out of range: ").concat(
                usize_to_string(*i).as_str(),
            ),
        }
    }
}

/// What one step makes of one value: the one child it selects, or the
/// structural mismatch that stops a matcher chain.
pub open spec fn step_match(st: StepView, v: ValueView) -> Result<ValueView, MatchErrorView> {
    match st {
        StepView::Name(name) => match v {
            ValueView::Dict(es) => match map_lookup(es, name) {
                Some(c) => Ok(c),
                None => Err(MatchErrorView::MissingKey(name)),
            },
            _ => Err(MatchErrorView::NotMap),
        },
        StepView::Index(i) => match v {
            ValueView::List(l) => if i < l.len() {
                Ok(l[i as int])
            } else {
                Err(MatchErrorView::IndexOutOfRange(i))
            },
            _ => Err(MatchErrorView::NotList),
        },
    }
}

/// What the steps from `i` on make of `v`: a left-to-right fold that stops
/// at the first step that cannot apply.
pub open spec fn chain_match_from(steps: Seq<StepView>, i: int, v: ValueView) -> Result<
    ValueView,
    MatchErrorView,
>
    decreases steps.len() - i,
{
    if 0 <= i < steps.len() {
        match step_match(steps[i], v) {
            Ok(c) => chain_match_from(steps, i + 1, c),
            Err(e) => Err(e),
        }
    } else {
        Ok(v)
    }
}

/// What a whole chain makes of `v`: the single final value, or the error of
/// the first step that could not apply.
pub open spec fn chain_match(steps: Seq<StepView>, v: ValueView) -> Result<
    ValueView,
    MatchErrorView,
> {
    chain_match_from(steps, 0, v)
}

/// One step applied to one value: the executable side of [`step_match`].
fn apply_step(u: &UnionSelector, cur: &Value) -> (r: Result<Value, MatchError>)
    ensures
        match r {
            Ok(c) => step_match(u@, cur@) == Ok::<ValueView, MatchErrorView>(c@),
            Err(e) => step_match(u@, cur@) == Err::<ValueView, MatchErrorView>(e@),
        },
{
    broadcast use group_value_views;

    match u {
        UnionSelector::Name(ns) => match cur {
            Value::Dict(entries) => {
                proof {
                    assert(u@ == StepView::Name(ns.0@));
                    assert(cur@ == ValueView::Dict(entries_view(entries@)));
                }
                match map_get(entries, &ns.0) {
                    Some(c) => Ok(c.duplicate()),
                    None => Err(MatchError::MissingKey(ns.0.clone())),
                }
            },
            _ => Err(MatchError::NotMap),
        },
        UnionSelector::Index(ix) => match cur {
            Value::List(items) => {
                proof {
                    assert(u@ == StepView::Index(ix.0 as nat));
                    assert(cur@ == ValueView::List(elems_view(items@)));
                    assert(elems_view(items@).len() == items@.len());
                }
                if ix.0 < items.len() {
                    proof {
                        assert(elems_view(items@)[ix.0 as int] == v_view(items@[ix.0 as int]));
                    }
                    Ok(items[ix.0].duplicate())
                } else {
                    Err(MatchError::IndexOutOfRange(ix.0))
                }
            },
            _ => Err(MatchError::NotList),
        },
    }
}

/// A matcher chain: the steps of one parsed path expression, applied
/// left-to-right to a single starting value, failing fast.
#[derive(PartialEq, Eq, Debug, Clone)]
pub struct MatcherChain(pub Vec<UnionSelector>);

impl View for MatcherChain {
    type V = Seq<StepView>;

    open spec fn view(&self) -> Seq<StepView> {
        steps_view(self.0@)
    }
}

impl MatcherChain {
    /// A chain made of the given steps, in order.
    pub fn from_vec(steps: Vec<UnionSelector>) -> (r: MatcherChain)
        ensures
            r@ == steps_view(steps@),
    {
        MatcherChain(steps)
    }

    /// Parses a chain — one step, then as many `.`-separated steps as the
    /// text allows — from the start of `input`, returning the unconsumed
    /// remainder and the chain.  A caller that wants the whole text to be
    /// one expression must reject a non-empty remainder itself.
    pub fn parse(input: &str) -> (r: Result<(&str, MatcherChain), SelectorParseError>)
        ensures
            match r {
                Ok(t) => {
                    &&& chain_parse(input@, 0) == Some((t.1@, input@.len() - t.0@.len()))
                    &&& t.0@ == input@.subrange(input@.len() - t.0@.len(), input@.len() as int)
                    &&& t.1@.len() >= 1
                },
                Err(e) => {
                    &&& chain_parse(input@, 0) is None
                    &&& e.msg@ == "expression must begin with a field name or an index"@
                },
            },
    {
        let n = input.unicode_len();
        match parse_chain(input) {
            Some(t) => {
                let rest = input.substring_char(t.1, n);
                Ok((rest, MatcherChain(t.0)))
            },
            None => Err(
                SelectorParseError {
                    msg: ("expression must begin with a field name or an index").to_owned(),
                },
            ),
        }
    }

    /// Applies every step in order to `v`: the single final value, or the
    /// error of the first step that could not apply.
    pub fn try_match(&self, v: &Value) -> (r: Result<Value, MatchError>)
        ensures
            match r {
                Ok(out) => chain_match(self@, v@) == Ok::<ValueView, MatchErrorView>(out@),
                Err(e) => chain_match(self@, v@) == Err::<ValueView, MatchErrorView>(e@),
            },
    {
        let mut cur = v.duplicate();
        let n = self.0.len();
        let mut i: usize = 0;
        while i < n
            invariant
                i <= n,
                n == self.0@.len(),
                self@.len() == n,
                chain_match(self@, v@) == chain_match_from(self@, i as int, cur@),
            decreases n - i,
        {
            match apply_step(&self.0[i], &cur) {
                Ok(c) => {
                    cur = c;
                },
                Err(e) => {
                    return Err(e);
                },
            }
            i = i + 1;
        }
        Ok(cur)
    }
}

} // verus!
