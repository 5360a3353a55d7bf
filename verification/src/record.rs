//! What to do with a reading: store it under a fresh identifier, or store
//! nothing; and the text that reports the outcome.

use crate::extract::{all_digits, decimal_value, is_digit, ExtractError};
use crate::id::Id;
use vstd::prelude::*;

verus! {

/// The next step after an attempt to read the count.
#[derive(Clone, Copy, Debug, PartialEq, Eq)]
pub enum Step {
    /// Append one row with this identifier and this count, then report the count.
    Store { id: Id, value: u64 },
    /// Write nothing and report the failure.
    Skip,
}

/// The step that follows the attempt `count_res`, with `id` as the identifier of a new row.
pub open spec fn step_for(count_res: Result<u64, ExtractError>, id: Id) -> Step {
    match count_res {
        Ok(value) => Step::Store { id, value },
        Err(_) => Step::Skip,
    }
}

/// Decides the step for an attempt, given the identifier to store under.
pub fn plan(count_res: Result<u64, ExtractError>, id: Id) -> (step: Step)
    ensures
        step == step_for(count_res, id),
{
    match count_res {
        Ok(value) => Step::Store { id, value },
        Err(_) => Step::Skip,
    }
}

/// Decides the step for an attempt: a count is stored under a freshly minted
/// identifier, a failure stores nothing.
pub fn handler(count_res: Result<u64, ExtractError>) -> (step: Step)
    ensures
        match count_res {
            Ok(value) => exists|id: Id| step == (Step::Store { id, value }),
            Err(_) => step == Step::Skip,
        },
{
    match count_res {
        Ok(_) => plan(count_res, Id::new()),
        Err(_) => Step::Skip,
    }
}

/// The character of the decimal digit `d`.
pub open spec fn digit_char(d: nat) -> char {
    (48 + d) as u8 as char
}

/// The decimal numeral of `n`, without leading zeros.
pub open spec fn decimal_text(n: nat) -> Seq<char>
    decreases n,
{
    if n < 10 {
        seq![digit_char(n)]
    } else {
        decimal_text(n / 10).push(digit_char(n % 10))
    }
}

/// The confirmation that reports the count `n`.
pub open spec fn greeting(n: nat) -> Seq<char> {
    seq!['H', 'e', 'l', 'l', 'o', ',', ' '] + decimal_text(n) + seq!['!']
}

/// The report of a failure.
pub open spec fn failure_text() -> Seq<char> {
    seq!['e', 'r', 'r', 'o', 'r']
}

/// The text that reports a step.
pub open spec fn reply_text(step: Step) -> Seq<char> {
    match step {
        Step::Store { id, value } => greeting(value as nat),
        Step::Skip => failure_text(),
    }
}

/// The numeral of a count is a string of digits that denotes the count.
pub proof fn law_numeral_reads_back(n: nat)
    ensures
        decimal_text(n).len() > 0,
        all_digits(decimal_text(n)),
        decimal_value(decimal_text(n)) == n,
    decreases n,
{
    if n < 10 {
        let t = decimal_text(n);
        assert(is_digit(t[0]));
        assert(t.drop_last() =~= Seq::<char>::empty());
        assert(decimal_value(t.drop_last()) == 0);
    } else {
        law_numeral_reads_back(n / 10);
        let p = decimal_text(n / 10);
        let t = decimal_text(n);
        assert(t.drop_last() =~= p);
        assert(is_digit(t.last()));
        assert forall|i: int| 0 <= i < t.len() implies is_digit(#[trigger] t[i]) by {
            if i < p.len() {
                assert(t[i] == p[i]);
            }
        }
    }
}

/// `String::from_iter` over the characters of `chars`: the string that holds them.
#[verifier::external_body]
fn string_of(chars: &Vec<char>) -> (s: String)
    ensures
        s@ == chars@,
{
    String::from_iter(chars.iter())
}

/// The decimal numeral of `n`.
pub fn render_decimal(n: u64) -> (out: Vec<char>)
    ensures
        out@ == decimal_text(n as nat),
    decreases n,
{
    if n < 10 {
        let mut out: Vec<char> = Vec::new();
        out.push((48 + n) as u8 as char);
        assert(out@ =~= decimal_text(n as nat));
        out
    } else {
        let mut out = render_decimal(n / 10);
        out.push((48 + n % 10) as u8 as char);
        out
    }
}

/// The text that reports a step: a greeting with the count, or the word for a failure.
pub fn reply(step: &Step) -> (s: String)
    ensures
        s@ == reply_text(*step),
{
    let mut out: Vec<char> = Vec::new();
    match step {
        Step::Store { id, value } => {
            out.push('H');
            out.push('e');
            out.push('l');
            out.push('l');
            out.push('o');
            out.push(',');
            out.push(' ');
            let mut digits = render_decimal(*value);
            out.append(&mut digits);
            out.push('!');
            assert(out@ =~= greeting(*value as nat));
        },
        Step::Skip => {
            out.push('e');
            out.push('r');
            out.push('r');
            out.push('o');
            out.push('r');
            assert(out@ =~= failure_text());
        },
    }
    string_of(&out)
}

} // verus!
