//! Characters and decimal text: the lexical ground the step grammar is built
//! on — ASCII letter and digit classes, maximal runs of them, and the value
//! and text of decimal numbers.
use vstd::prelude::*;

verus! {

/// An ASCII decimal digit.
pub open spec fn is_ascii_digit(c: char) -> bool {
    48 <= c as u32 <= 57
}

/// An ASCII letter.
pub open spec fn is_ascii_alpha(c: char) -> bool {
    (65 <= c as u32 <= 90) || (97 <= c as u32 <= 122)
}

/// An ASCII letter or digit.
pub open spec fn is_ascii_alnum(c: char) -> bool {
    is_ascii_alpha(c) || is_ascii_digit(c)
}

/// Whether `c` is an ASCII decimal digit.
pub fn char_is_digit(c: char) -> (b: bool)
    ensures
        b == is_ascii_digit(c),
{
    let u = c as u32;
    48 <= u && u <= 57
}

/// Whether `c` is an ASCII letter.
pub fn char_is_alpha(c: char) -> (b: bool)
    ensures
        b == is_ascii_alpha(c),
{
    let u = c as u32;
    (65 <= u && u <= 90) || (97 <= u && u <= 122)
}

/// Whether `c` is an ASCII letter or digit.
pub fn char_is_alnum(c: char) -> (b: bool)
    ensures
        b == is_ascii_alnum(c),
{
    char_is_alpha(c) || char_is_digit(c)
}

/// How many consecutive characters of `s`, from `pos` on, are letters or
/// digits: the length of the maximal alphanumeric run.
pub open spec fn alnum_run(s: Seq<char>, pos: int) -> nat
    decreases s.len() - pos,
{
    if 0 <= pos && pos < s.len() && is_ascii_alnum(s[pos]) {
        (1 + alnum_run(s, pos + 1)) as nat
    } else {
        0
    }
}

/// How many consecutive characters of `s`, from `pos` on, are digits: the
/// length of the maximal digit run.
pub open spec fn digit_run(s: Seq<char>, pos: int) -> nat
    decreases s.len() - pos,
{
    if 0 <= pos && pos < s.len() && is_ascii_digit(s[pos]) {
        (1 + digit_run(s, pos + 1)) as nat
    } else {
        0
    }
}

/// An alphanumeric run never runs past the end of the sequence.
pub proof fn lemma_alnum_run_bound(s: Seq<char>, pos: int)
    requires
        0 <= pos <= s.len(),
    ensures
        pos + alnum_run(s, pos) <= s.len(),
    decreases s.len() - pos,
{
    if pos < s.len() && is_ascii_alnum(s[pos]) {
        lemma_alnum_run_bound(s, pos + 1);
    }
}

/// A digit run never runs past the end of the sequence.
pub proof fn lemma_digit_run_bound(s: Seq<char>, pos: int)
    requires
        0 <= pos <= s.len(),
    ensures
        pos + digit_run(s, pos) <= s.len(),
    decreases s.len() - pos,
{
    if pos < s.len() && is_ascii_digit(s[pos]) {
        lemma_digit_run_bound(s, pos + 1);
    }
}

/// A stretch of digits ending at the end of the sequence or at a non-digit
/// is exactly the digit run.
pub proof fn lemma_digit_run_exact(s: Seq<char>, pos: int, end: int)
    requires
        0 <= pos <= end <= s.len(),
        forall|i: int| pos <= i < end ==> is_ascii_digit(#[trigger] s[i]),
        end == s.len() || !is_ascii_digit(s[end]),
    ensures
        digit_run(s, pos) == end - pos,
    decreases end - pos,
{
    if pos < end {
        lemma_digit_run_exact(s, pos + 1, end);
    }
}

/// The numeric value of a digit character.
pub open spec fn digit_val(c: char) -> nat {
    (c as u32 - 48) as nat
}

/// The number written by the digit characters `s[pos..end]`, most
/// significant first.
pub open spec fn digits_value(s: Seq<char>, pos: int, end: int) -> nat
    decreases end - pos,
{
    if pos < end {
        digits_value(s, pos, end - 1) * 10 + digit_val(s[end - 1])
    } else {
        0
    }
}

/// Reading more digits never shrinks the number.
pub proof fn lemma_digits_value_mono(s: Seq<char>, pos: int, i: int, j: int)
    requires
        pos <= i <= j,
    ensures
        digits_value(s, pos, j) >= digits_value(s, pos, i),
    decreases j - i,
{
    if i < j {
        lemma_digits_value_mono(s, pos, i, j - 1);
    }
}

/// The digit character for a value below ten.
pub open spec fn digit_char(d: nat) -> char {
    ((48 + d) as u8) as char
}

/// A digit character below ten reads back as its value.
pub proof fn lemma_digit_char_val(d: nat)
    requires
        d < 10,
    ensures
        is_ascii_digit(digit_char(d)),
        digit_val(digit_char(d)) == d,
{
}

/// The decimal text of `n`: most significant digit first, no sign, no
/// leading zero except for zero itself.
pub open spec fn dec_repr(n: nat) -> Seq<char>
    decreases n,
{
    if n < 10 {
        seq![digit_char(n)]
    } else {
        dec_repr(n / 10) + seq![digit_char(n % 10)]
    }
}

/// Every character of a decimal text is a digit, and there is at least one.
pub proof fn lemma_dec_repr_digits(n: nat)
    ensures
        dec_repr(n).len() >= 1,
        forall|i: int| 0 <= i < dec_repr(n).len() ==> is_ascii_digit(#[trigger] dec_repr(n)[i]),
    decreases n,
{
    if n >= 10 {
        lemma_dec_repr_digits(n / 10);
    }
}

/// Reading the decimal text of `n`, embedded in `s` at `pos`, gives back
/// `n`.
pub proof fn lemma_digits_value_of_repr(s: Seq<char>, pos: int, n: nat)
    requires
        0 <= pos,
        pos + dec_repr(n).len() <= s.len(),
        s.subrange(pos, pos + dec_repr(n).len() as int) == dec_repr(n),
    ensures
        digits_value(s, pos, pos + dec_repr(n).len() as int) == n,
    decreases n,
{
    reveal_with_fuel(digits_value, 3);
    let k = dec_repr(n).len() as int;
    if n < 10 {
        assert(s[pos] == s.subrange(pos, pos + 1)[0]);
        lemma_digit_char_val(n);
    } else {
        let hi = dec_repr(n / 10);
        let hk = hi.len() as int;
        assert(s.subrange(pos, pos + hk) =~= hi) by {
            assert forall|i: int| 0 <= i < hk implies s.subrange(pos, pos + hk)[i] == hi[i] by {
                assert(s.subrange(pos, pos + k)[i] == dec_repr(n)[i]);
            }
        }
        lemma_digits_value_of_repr(s, pos, n / 10);
        assert(s[pos + hk] == s.subrange(pos, pos + k)[hk]);
        assert(s[pos + hk] == digit_char(n % 10));
        lemma_digit_char_val(n % 10);
        assert(digits_value(s, pos, pos + k) == digits_value(s, pos, pos + hk) * 10 + digit_val(
            s[pos + hk],
        ));
        vstd::arithmetic::div_mod::lemma_fundamental_div_mod(n as int, 10);
    }
}

/// The decimal text of `x` as an owned string.
pub fn usize_to_string(x: usize) -> (res: String)
    ensures
        res@ == dec_repr(x as nat),
    decreases x,
{
    let digits = "0123456789";
    proof {
        reveal_strlit("0123456789");
    }
    let d = x % 10;
    let ds = digits.substring_char(d, d + 1);
    proof {
        assert(ds@ =~= seq![digit_char((x % 10) as nat)]);
    }
    if x < 10 {
        ds.to_owned()
    } else {
        let hi = usize_to_string(x / 10);
        hi.concat(ds)
    }
}

} // verus!
