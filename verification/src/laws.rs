//! The general laws of the library, each stated over the same spec
//! functions the public contracts use and proved once for all inputs.
use vstd::prelude::*;

use crate::grammar::{
    chain_parse, index_parse, lemma_chain_parse_shape, name_parse, StepView,
};
use crate::matcher::{chain_match, chain_match_from, step_match};
use crate::selector::{chain_select, fan_out, select_seq, step_select};
use crate::text::{
    dec_repr, is_ascii_alpha, is_ascii_digit, lemma_dec_repr_digits, lemma_digit_run_exact,
    lemma_digits_value_of_repr,
};
use crate::value::{Value, ValueView};

verus! {

/// A chain has at least one step: parsing an empty text always fails, and
/// whatever text a parse does accept yields one step or more.
pub proof fn lemma_no_empty_chain(s: Seq<char>, pos: int)
    ensures
        s.len() == 0 ==> chain_parse(s, pos) is None,
        chain_parse(s, pos) is Some ==> chain_parse(s, pos)->Some_0.0.len() >= 1,
{
    lemma_chain_parse_shape(s, pos);
}

/// A name step parse is total on texts that begin with an ASCII letter,
/// and rejects every text that begins with a digit.
pub proof fn lemma_name_parse_classified(s: Seq<char>)
    ensures
        s.len() > 0 && is_ascii_alpha(s[0]) ==> name_parse(s, 0) is Some,
        s.len() > 0 && is_ascii_digit(s[0]) ==> name_parse(s, 0) is None,
{
}

/// An index step round-trips through its text: for every index `n`, the
/// text `[` + decimal of `n` + `]` parses back to the step `n`, as one
/// whole chain with nothing left over.
pub proof fn lemma_index_round_trip(n: usize)
    ensures
        ({
            let text = seq!['['] + dec_repr(n as nat) + seq![']'];
            chain_parse(text, 0) == Some((seq![StepView::Index(n as nat)], text.len() as int))
        }),
{
    let rep = dec_repr(n as nat);
    let text = seq!['['] + rep + seq![']'];
    let d = rep.len() as int;
    lemma_dec_repr_digits(n as nat);
    assert forall|i: int| 1 <= i < 1 + d implies is_ascii_digit(#[trigger] text[i]) by {
        assert(text[i] == rep[i - 1]);
    }
    lemma_digit_run_exact(text, 1, 1 + d);
    assert(text.subrange(1, 1 + d) =~= rep);
    lemma_digits_value_of_repr(text, 1, n as nat);
    assert(index_parse(text, 0) == Some((n as nat, text.len() as int)));
    assert(chain_parse(text, 0) == Some((seq![StepView::Index(n as nat)], text.len() as int)));
}

/// Matcher evaluation is deterministic: one chain applied to two
/// structurally equal values — two value trees with the same view — gives
/// the same outcome, value or error kind alike.
pub proof fn lemma_matcher_deterministic(steps: Seq<StepView>, a: Value, b: Value)
    requires
        a@ == b@,
    ensures
        chain_match(steps, a@) == chain_match(steps, b@),
{
}

/// Walking into the tail of a step sequence is the same fold, one step
/// later.
proof fn lemma_match_from_drop(steps: Seq<StepView>, i: int, v: ValueView)
    requires
        1 <= i <= steps.len(),
    ensures
        chain_match_from(steps, i, v) == chain_match_from(steps.drop_first(), i - 1, v),
    decreases steps.len() - i,
{
    if i < steps.len() {
        assert(steps.drop_first()[i - 1] == steps[i]);
        match step_match(steps[i], v) {
            Ok(c) => {
                lemma_match_from_drop(steps, i + 1, c);
            },
            Err(_) => {},
        }
    }
}

/// A selector stream that runs out of candidates stays empty, however many
/// steps are left.
proof fn lemma_select_seq_empty(steps: Seq<StepView>)
    ensures
        select_seq(steps, Seq::<ValueView>::empty()) == Seq::<ValueView>::empty(),
    decreases steps.len(),
{
    if steps.len() > 0 {
        assert(fan_out(steps[0], Seq::<ValueView>::empty()) =~= Seq::<ValueView>::empty());
        lemma_select_seq_empty(steps.drop_first());
    }
}

/// The two dialects agree: wherever the matcher chain succeeds with a
/// value, the selector chain built from the same steps yields exactly that
/// value as its sole element, and wherever the matcher fails, the selector
/// yields the empty stream; the stream never holds more than one value.
pub proof fn lemma_selector_matches_matcher(steps: Seq<StepView>, v: ValueView)
    ensures
        chain_select(steps, v).len() <= 1,
        chain_match(steps, v) matches Ok(x) ==> chain_select(steps, v) == seq![x],
        chain_match(steps, v) is Err ==> chain_select(steps, v) == Seq::<ValueView>::empty(),
    decreases steps.len(),
{
    if steps.len() == 0 {
        assert(chain_select(steps, v) == seq![v]);
    } else {
        let st = steps[0];
        let rest = steps.drop_first();
        let stf = |c: ValueView| step_select(st, c);
        seq![v].lemma_flat_map_singleton(stf);
        assert(fan_out(st, seq![v]) == step_select(st, v));
        match step_match(st, v) {
            Ok(c) => {
                assert(step_select(st, v) == seq![c]);
                assert(chain_select(steps, v) == select_seq(rest, seq![c]));
                lemma_selector_matches_matcher(rest, c);
                lemma_match_from_drop(steps, 1, c);
                assert(chain_match(steps, v) == chain_match(rest, c));
            },
            Err(_) => {
                assert(step_select(st, v) =~= Seq::<ValueView>::empty());
                lemma_select_seq_empty(rest);
                assert(chain_select(steps, v) == Seq::<ValueView>::empty());
            },
        }
    }
}

} // verus!
