//! Grammar primitives and the parser layer shared by both expression
//! dialects.
//!
//! The textual grammar is
//!
//! ```text
//! chain      := step ("." step)*
//! step       := name_step | index_step
//! name_step  := ALPHA ALNUM*               e.g. "hoge1234"
//! index_step := "[" DIGIT+ "]"             e.g. "[0]"
//! ```
//!
//! No whitespace is permitted anywhere, and there is no escaping: a field
//! whose name contains `.`, `[` or `]` cannot be referenced.  That is a known
//! limitation of the grammar, not an accident.
//!
//! A name step is tried before an index step; a text starting with `[` can
//! never be a name, so the two never overlap, but the order is part of the
//! grammar's contract.  Chain parsing consumes steps as long as a literal
//! `.` followed by a parsable step is there, and hands the unconsumed
//! remainder back to the caller; rejecting a non-empty remainder is the
//! caller's business, not the parser's.
use vstd::prelude::*;

use crate::text::{
    alnum_run, char_is_alnum, char_is_alpha, char_is_digit, digit_run, digits_value,
    is_ascii_alpha, is_ascii_digit, lemma_alnum_run_bound, lemma_digit_run_bound,
    lemma_digits_value_mono,
};

verus! {

/// The failure of a parse: the expression text does not conform to the
/// grammar.
#[derive(PartialEq, Eq, Debug, Clone)]
pub struct SelectorParseError {
    /// A human-readable description of the failure.
    pub msg: String,
}

/// One atomic path segment selecting a map entry by name.  The name always
/// starts with an ASCII letter followed by ASCII letters or digits.
#[derive(PartialEq, Eq, Debug, Clone)]
pub struct NameSelector(pub String);

/// One atomic path segment selecting a list entry by position.
#[derive(PartialEq, Eq, Debug, Clone)]
pub struct IndexSelector(pub usize);

/// One step of a chain: a field name or a list index.
#[derive(PartialEq, Eq, Debug, Clone)]
pub enum UnionSelector {
    Name(NameSelector),
    Index(IndexSelector),
}

/// The mathematical shape of a step: the selected name as a character
/// sequence, or the selected position as a number.
pub enum StepView {
    Name(Seq<char>),
    Index(nat),
}

impl View for NameSelector {
    type V = Seq<char>;

    open spec fn view(&self) -> Seq<char> {
        self.0@
    }
}

impl View for IndexSelector {
    type V = nat;

    open spec fn view(&self) -> nat {
        self.0 as nat
    }
}

impl View for UnionSelector {
    type V = StepView;

    open spec fn view(&self) -> StepView {
        match *self {
            UnionSelector::Name(ref m) => StepView::Name(m.0@),
            UnionSelector::Index(ref m) => StepView::Index(m.0 as nat),
        }
    }
}

/// The views of a sequence of steps, in order.
pub open spec fn steps_view(us: Seq<UnionSelector>) -> Seq<StepView> {
    us.map_values(|u: UnionSelector| u@)
}

/// How much of `s` is left from `pos` on.
pub open spec fn rem(s: Seq<char>, pos: int) -> int {
    if 0 <= pos && pos <= s.len() {
        s.len() - pos
    } else {
        0
    }
}

/// What a name step parse returns at `pos`: the maximal alphanumeric run
/// and the position after it, provided the first character is a letter.
pub open spec fn name_parse(s: Seq<char>, pos: int) -> Option<(Seq<char>, int)> {
    if 0 <= pos && pos < s.len() && is_ascii_alpha(s[pos]) {
        Some((s.subrange(pos, pos + alnum_run(s, pos)), pos + alnum_run(s, pos)))
    } else {
        None
    }
}

/// What an index step parse returns at `pos`: the value of the digits
/// between `[` and `]` and the position after `]`.  A missing bracket, an
/// empty digit run, and a number beyond `usize` are all failures.
pub open spec fn index_parse(s: Seq<char>, pos: int) -> Option<(nat, int)> {
    if 0 <= pos && pos < s.len() && s[pos] == '[' {
        let d = digit_run(s, pos + 1) as int;
        if d > 0 && pos + 1 + d < s.len() && s[pos + 1 + d] == ']' && digits_value(
            s,
            pos + 1,
            pos + 1 + d,
        ) <= usize::MAX as nat {
            Some((digits_value(s, pos + 1, pos + 1 + d), pos + 2 + d))
        } else {
            None
        }
    } else {
        None
    }
}

/// What a step parse returns at `pos`: a name step if one starts here,
/// otherwise an index step, otherwise nothing.
pub open spec fn step_parse(s: Seq<char>, pos: int) -> Option<(StepView, int)> {
    match name_parse(s, pos) {
        Some(r) => Some((StepView::Name(r.0), r.1)),
        None => match index_parse(s, pos) {
            Some(r) => Some((StepView::Index(r.0), r.1)),
            None => None,
        },
    }
}

/// A successful step parse stands inside the text and moves forward.
pub proof fn lemma_step_parse_bounds(s: Seq<char>, pos: int)
    requires
        step_parse(s, pos) is Some,
    ensures
        0 <= pos < s.len(),
        pos < step_parse(s, pos)->Some_0.1 <= s.len(),
{
    if name_parse(s, pos) is Some {
        lemma_alnum_run_bound(s, pos);
    } else {
        lemma_digit_run_bound(s, pos + 1);
    }
}

/// What a chain parse returns at `pos`: one step, then as many further
/// steps as a literal `.` and a parsable step allow, and the position where
/// that stops.  The unconsumed remainder is the caller's to judge.
pub open spec fn chain_parse(s: Seq<char>, pos: int) -> Option<(Seq<StepView>, int)>
    decreases rem(s, pos),
    via chain_parse_dec
{
    match step_parse(s, pos) {
        None => None,
        Some(r) => {
            if r.1 < s.len() && s[r.1] == '.' && step_parse(s, r.1 + 1) is Some {
                match chain_parse(s, r.1 + 1) {
                    Some(t) => Some((seq![r.0] + t.0, t.1)),
                    None => None,
                }
            } else {
                Some((seq![r.0], r.1))
            }
        },
    }
}

#[via_fn]
proof fn chain_parse_dec(s: Seq<char>, pos: int) {
    if step_parse(s, pos) is Some {
        lemma_step_parse_bounds(s, pos);
        let p1 = step_parse(s, pos)->Some_0.1;
        if p1 < s.len() && s[p1] == '.' && step_parse(s, p1 + 1) is Some {
            lemma_step_parse_bounds(s, p1 + 1);
        }
    }
}

/// A chain parses exactly where its first step parses, and never with zero
/// steps: an empty text is never a chain.
pub proof fn lemma_chain_parse_shape(s: Seq<char>, pos: int)
    ensures
        chain_parse(s, pos) is Some <==> step_parse(s, pos) is Some,
        chain_parse(s, pos) is Some ==> chain_parse(s, pos)->Some_0.0.len() >= 1,
    decreases rem(s, pos),
{
    if step_parse(s, pos) is Some {
        lemma_step_parse_bounds(s, pos);
        let r = step_parse(s, pos)->Some_0;
        if r.1 < s.len() && s[r.1] == '.' && step_parse(s, r.1 + 1) is Some {
            lemma_step_parse_bounds(s, r.1 + 1);
            lemma_chain_parse_shape(s, r.1 + 1);
        }
    }
}

/// The position where `scan_alnum` stops: the end of the maximal
/// alphanumeric run beginning at `from`.
fn scan_alnum(s: &str, from: usize, n: usize) -> (end: usize)
    requires
        n == s@.len(),
        from <= n,
    ensures
        end as int == from + alnum_run(s@, from as int),
        from <= end <= n,
{
    proof {
        lemma_alnum_run_bound(s@, from as int);
    }
    let mut i = from;
    loop
        invariant
            from <= i <= n,
            n == s@.len(),
            alnum_run(s@, from as int) == (i - from) + alnum_run(s@, i as int),
        ensures
            from <= i <= n,
            i as int == from + alnum_run(s@, from as int),
        decreases n - i,
    {
        if i >= n {
            break ;
        }
        let c = s.get_char(i);
        if !char_is_alnum(c) {
            break ;
        }
        proof {
            lemma_alnum_run_bound(s@, i + 1);
        }
        i = i + 1;
    }
    i
}

/// The position where `scan_digits` stops: the end of the maximal digit run
/// beginning at `from`.
fn scan_digits(s: &str, from: usize, n: usize) -> (end: usize)
    requires
        n == s@.len(),
        from <= n,
    ensures
        end as int == from + digit_run(s@, from as int),
        from <= end <= n,
        forall|i: int| from <= i < end ==> is_ascii_digit(#[trigger] s@[i]),
{
    proof {
        lemma_digit_run_bound(s@, from as int);
    }
    let mut i = from;
    loop
        invariant
            from <= i <= n,
            n == s@.len(),
            digit_run(s@, from as int) == (i - from) + digit_run(s@, i as int),
            forall|j: int| from <= j < i ==> is_ascii_digit(#[trigger] s@[j]),
        ensures
            from <= i <= n,
            i as int == from + digit_run(s@, from as int),
            forall|j: int| from <= j < i ==> is_ascii_digit(#[trigger] s@[j]),
        decreases n - i,
    {
        if i >= n {
            break ;
        }
        let c = s.get_char(i);
        if !char_is_digit(c) {
            break ;
        }
        proof {
            lemma_digit_run_bound(s@, i + 1);
        }
        i = i + 1;
    }
    i
}

/// The number written by the digit characters `s[from..end]`, unless it
/// does not fit a `usize`.
fn digits_to_usize(s: &str, from: usize, end: usize, n: usize) -> (r: Option<usize>)
    requires
        n == s@.len(),
        from <= end <= n,
        forall|i: int| from <= i < end ==> is_ascii_digit(#[trigger] s@[i]),
    ensures
        match r {
            Some(v) => v as nat == digits_value(s@, from as int, end as int),
            None => digits_value(s@, from as int, end as int) > usize::MAX as nat,
        },
{
    let mut acc: usize = 0;
    let mut i = from;
    while i < end
        invariant
            from <= i <= end <= n,
            n == s@.len(),
            forall|j: int| from <= j < end ==> is_ascii_digit(#[trigger] s@[j]),
            acc as nat == digits_value(s@, from as int, i as int),
        decreases end - i,
    {
        let c = s.get_char(i);
        let d = (c as u32 - 48) as usize;
        let overflowed: bool = match acc.checked_mul(10) {
            Some(acc10) => {
                match acc10.checked_add(d) {
                    Some(next) => {
                        acc = next;
                        false
                    },
                    None => true,
                }
            },
            None => true,
        };
        if overflowed {
            proof {
                lemma_digits_value_mono(s@, from as int, i + 1, end as int);
            }
            return None;
        }
        i = i + 1;
    }
    Some(acc)
}

/// The step starting at `pos`, with the position after it: the executable
/// side of [`step_parse`].
pub(crate) fn parse_step_at(s: &str, pos: usize, n: usize) -> (r: Option<(UnionSelector, usize)>)
    requires
        n == s@.len(),
        pos <= n,
    ensures
        match r {
            Some(t) => step_parse(s@, pos as int) == Some((t.0@, t.1 as int)) && pos < t.1 <= n,
            None => step_parse(s@, pos as int) is None,
        },
{
    if pos >= n {
        return None;
    }
    let c = s.get_char(pos);
    if char_is_alpha(c) {
        let end = scan_alnum(s, pos, n);
        let name = s.substring_char(pos, end).to_owned();
        return Some((UnionSelector::Name(NameSelector(name)), end));
    }
    if c == '[' {
        let dstart = pos + 1;
        let dend = scan_digits(s, dstart, n);
        if dend == dstart {
            return None;
        }
        if dend >= n {
            return None;
        }
        let cc = s.get_char(dend);
        if cc != ']' {
            return None;
        }
        match digits_to_usize(s, dstart, dend, n) {
            Some(v) => Some((UnionSelector::Index(IndexSelector(v)), dend + 1)),
            None => None,
        }
    } else {
        None
    }
}

/// Where the continuation of a chain parse lands, once the steps in `acc`
/// have been consumed up to `pos`.
spec fn chain_cont(s: Seq<char>, acc: Seq<StepView>, pos: int) -> Option<(Seq<StepView>, int)> {
    if pos < s.len() && s[pos] == '.' && step_parse(s, pos + 1) is Some {
        match chain_parse(s, pos + 1) {
            Some(t) => Some((acc + t.0, t.1)),
            None => None,
        }
    } else {
        Some((acc, pos))
    }
}

/// The chain starting at the beginning of `s`, with the position where it
/// stops: the executable side of [`chain_parse`].
pub(crate) fn parse_chain(s: &str) -> (r: Option<(Vec<UnionSelector>, usize)>)
    ensures
        match r {
            Some(t) => chain_parse(s@, 0) == Some((steps_view(t.0@), t.1 as int)) && t.1 as int
                <= s@.len() && t.0@.len() >= 1,
            None => chain_parse(s@, 0) is None,
        },
{
    let n = s.unicode_len();
    let mut steps: Vec<UnionSelector> = Vec::new();
    let first = parse_step_at(s, 0, n);
    let mut pos: usize = 0;
    match first {
        None => {
            return None;
        },
        Some(t) => {
            steps.push(t.0);
            pos = t.1;
        },
    }
    proof {
        assert(steps_view(steps@) =~= seq![steps@[0]@]);
        assert(chain_parse(s@, 0) == chain_cont(s@, steps_view(steps@), pos as int));
    }
    while pos < n
        invariant_except_break
            pos <= n,
            n == s@.len(),
            steps@.len() >= 1,
            chain_parse(s@, 0) == chain_cont(s@, steps_view(steps@), pos as int),
        ensures
            pos <= n,
            steps@.len() >= 1,
            chain_parse(s@, 0) == Some((steps_view(steps@), pos as int)),
        decreases n - pos,
    {
        let c = s.get_char(pos);
        if c != '.' {
            break ;
        }
        let after_dot: usize = pos + 1;
        let stepped = parse_step_at(s, after_dot, n);
        if stepped.is_none() {
            break ;
        }
        let t = stepped.unwrap();
        let ghost acc0 = steps_view(steps@);
        let ghost pos0 = pos as int;
        steps.push(t.0);
        let ghost st2 = t.0@;
        let ghost p2 = t.1 as int;
        pos = t.1;
        proof {
            assert(steps_view(steps@) =~= acc0 + seq![st2]);
            assert(chain_parse(s@, pos0 + 1) == chain_cont(s@, seq![st2], p2));
            if p2 < s@.len() && s@[p2] == '.' && step_parse(s@, p2 + 1) is Some {
                match chain_parse(s@, p2 + 1) {
                    Some(u) => {
                        assert((acc0 + (seq![st2] + u.0)) =~= ((acc0 + seq![st2]) + u.0));
                    },
                    None => {},
                }
            }
            assert(chain_parse(s@, 0) == chain_cont(s@, steps_view(steps@), p2));
        }
    }
    Some((steps, pos))
}

impl NameSelector {
    /// Parses a name step from the start of `input`, returning the
    /// remainder of the text and the step.  Fails unless the first
    /// character is an ASCII letter.
    pub fn parse(input: &str) -> (r: Result<(&str, NameSelector), SelectorParseError>)
        ensures
            match r {
                Ok(t) => {
                    &&& name_parse(input@, 0) == Some((t.1@, input@.len() - t.0@.len()))
                    &&& t.0@ == input@.subrange(input@.len() - t.0@.len(), input@.len() as int)
                },
                Err(e) => {
                    &&& name_parse(input@, 0) is None
                    &&& e.msg@ == "field name must start with a letter"@
                },
            },
    {
        let n = input.unicode_len();
        if n > 0 {
            let c = input.get_char(0);
            if char_is_alpha(c) {
                let end = scan_alnum(input, 0, n);
                let name = input.substring_char(0, end).to_owned();
                let rest = input.substring_char(end, n);
                return Ok((rest, NameSelector(name)));
            }
        }
        Err(
            SelectorParseError {
                msg: ("field name must start with a letter").to_owned(),
            },
        )
    }
}

impl IndexSelector {
    /// Parses an index step — `[`, digits, `]` — from the start of `input`,
    /// returning the remainder of the text and the step.
    pub fn parse(input: &str) -> (r: Result<(&str, IndexSelector), SelectorParseError>)
        ensures
            match r {
                Ok(t) => {
                    &&& index_parse(input@, 0) == Some((t.1@, input@.len() - t.0@.len()))
                    &&& t.0@ == input@.subrange(input@.len() - t.0@.len(), input@.len() as int)
                },
                Err(e) => {
                    &&& index_parse(input@, 0) is None
                    &&& e.msg@ == "expected an index of the form [digits]"@
                },
            },
    {
        let n = input.unicode_len();
        if n > 0 {
            let c = input.get_char(0);
            if c == '[' {
                let dend = scan_digits(input, 1, n);
                if dend > 1 && dend < n {
                    let cc = input.get_char(dend);
                    if cc == ']' {
                        match digits_to_usize(input, 1, dend, n) {
                            Some(v) => {
                                let rest = input.substring_char(dend + 1, n);
                                return Ok((rest, IndexSelector(v)));
                            },
                            None => {
                                return Err(
                                    SelectorParseError {
                                        msg: ("expected an index of the form [digits]").to_owned(),
                                    },
                                );
                            },
                        }
                    }
                }
            }
        }
        Err(
            SelectorParseError {
                msg: ("expected an index of the form [digits]").to_owned(),
            },
        )
    }
}

impl UnionSelector {
    /// Parses one step from the start of `input`: a name step if one starts
    /// there, otherwise an index step.
    pub fn parse(input: &str) -> (r: Result<(&str, UnionSelector), SelectorParseError>)
        ensures
            match r {
                Ok(t) => {
                    &&& step_parse(input@, 0) == Some((t.1@, input@.len() - t.0@.len()))
                    &&& t.0@ == input@.subrange(input@.len() - t.0@.len(), input@.len() as int)
                },
                Err(e) => {
                    &&& step_parse(input@, 0) is None
                    &&& e.msg@ == "expected a field name or an index"@
                },
            },
    {
        let n = input.unicode_len();
        match parse_step_at(input, 0, n) {
            Some(t) => {
                let rest = input.substring_char(t.1, n);
                Ok((rest, t.0))
            },
            None => Err(
                SelectorParseError {
                    msg: ("expected a field name or an index").to_owned(),
                },
            ),
        }
    }
}

} // verus!
