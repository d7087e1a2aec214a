//! The grammar of operation strings, as functions on sequences of characters.
//!
//! A run is written as one or more decimal digits followed by one of the
//! letters `=`, `X`, `I`, `D`. Runs are found anywhere in a text: whatever
//! lies between them is passed over. The digits of a run are all the digits
//! that stand directly before its letter.

use vstd::prelude::*;
use crate::run::{nonnegative, Kind, RunView};

verus! {

/// Whether `c` is one of the ten decimal digits `0` to `9`.
pub open spec fn is_digit(c: char) -> bool {
    '0' <= c && c <= '9'
}

/// The number that a decimal digit stands for.
pub open spec fn digit_value(c: char) -> int {
    c as int - '0' as int
}

/// The digits at the end of `text`: its longest suffix made of decimal digits.
pub open spec fn trailing_digits(text: Seq<char>) -> Seq<char>
    decreases text.len(),
{
    if text.len() > 0 && is_digit(text.last()) {
        trailing_digits(text.drop_last()).push(text.last())
    } else {
        Seq::empty()
    }
}

/// The number that a sequence of decimal digits writes, most significant
/// digit first. The empty sequence writes zero.
pub open spec fn decimal_value(digits: Seq<char>) -> int
    decreases digits.len(),
{
    if digits.len() == 0 {
        0
    } else {
        10 * decimal_value(digits.drop_last()) + digit_value(digits.last())
    }
}

/// The run that the character `c` completes when it follows `before`: `c`
/// must be an operation letter and `before` must end in a digit.
pub open spec fn closing(before: Seq<char>, c: char) -> Option<RunView> {
    match Kind::of_letter(c) {
        Some(kind) => if trailing_digits(before).len() > 0 {
            Some(RunView { length: decimal_value(trailing_digits(before)), kind })
        } else {
            None
        },
        None => None,
    }
}

/// The runs written in `text`, from left to right.
pub open spec fn runs_of(text: Seq<char>) -> Seq<RunView>
    decreases text.len(),
{
    if text.len() == 0 {
        Seq::empty()
    } else {
        match closing(text.drop_last(), text.last()) {
            Some(run) => runs_of(text.drop_last()).push(run),
            None => runs_of(text.drop_last()),
        }
    }
}

/// Reading one more character either leaves the runs as they are or adds
/// the run that the character completes.
pub proof fn lemma_runs_of_push(text: Seq<char>, c: char)
    ensures
        runs_of(text.push(c)) == match closing(text, c) {
            Some(run) => runs_of(text).push(run),
            None => runs_of(text),
        },
{
    assert(text.push(c).drop_last() =~= text);
}

/// The runs of the first `n` characters of a text are the first runs of the
/// whole text: what follows a run never changes it.
pub proof fn lemma_runs_of_prefix(text: Seq<char>, n: int)
    requires
        0 <= n <= text.len(),
    ensures
        runs_of(text.take(n)).is_prefix_of(runs_of(text)),
    decreases text.len(),
{
    if n == text.len() {
        assert(text.take(n) =~= text);
    } else {
        assert(text.take(n) =~= text.drop_last().take(n));
        lemma_runs_of_prefix(text.drop_last(), n);
    }
}

/// A digit lengthens the number that ends the text; any other character
/// leaves no digits at the end.
pub proof fn lemma_trailing_digits_push(text: Seq<char>, c: char)
    ensures
        is_digit(c) ==> trailing_digits(text.push(c)) == trailing_digits(text).push(c),
        is_digit(c) ==> decimal_value(trailing_digits(text.push(c))) == 10 * decimal_value(
            trailing_digits(text),
        ) + digit_value(c),
        !is_digit(c) ==> trailing_digits(text.push(c)) == Seq::<char>::empty(),
{
    assert(text.push(c).drop_last() =~= text);
    assert(trailing_digits(text).push(c).drop_last() =~= trailing_digits(text));
}

/// The number that digits write is never negative.
pub proof fn lemma_decimal_value_nonnegative(digits: Seq<char>)
    requires
        forall|i: int| 0 <= i < digits.len() ==> is_digit(#[trigger] digits[i]),
    ensures
        0 <= decimal_value(digits),
    decreases digits.len(),
{
    if digits.len() > 0 {
        lemma_decimal_value_nonnegative(digits.drop_last());
    }
}

/// The digits at the end of a text are a suffix of it, are all digits, and
/// no digit stands directly before them.
pub proof fn lemma_trailing_digits_longest(text: Seq<char>)
    ensures
        trailing_digits(text).len() <= text.len(),
        trailing_digits(text) == text.skip(text.len() - trailing_digits(text).len()),
        forall|i: int|
            0 <= i < trailing_digits(text).len() ==> is_digit(#[trigger] trailing_digits(text)[i]),
        trailing_digits(text).len() < text.len() ==> !is_digit(
            text[text.len() - trailing_digits(text).len() - 1],
        ),
    decreases text.len(),
{
    if text.len() > 0 && is_digit(text.last()) {
        let rest = text.drop_last();
        lemma_trailing_digits_longest(rest);
        let n = trailing_digits(rest).len();
        assert(trailing_digits(text) =~= text.skip(text.len() - (n + 1)));
    } else {
        assert(trailing_digits(text) =~= text.skip(text.len() as int));
    }
}

/// Every run of a text has a length that is not negative.
pub proof fn lemma_runs_of_nonnegative(text: Seq<char>)
    ensures
        nonnegative(runs_of(text)),
    decreases text.len(),
{
    if text.len() > 0 {
        let before = text.drop_last();
        lemma_runs_of_nonnegative(before);
        lemma_trailing_digits_longest(before);
        lemma_decimal_value_nonnegative(trailing_digits(before));
    }
}

/// Digits written after a text lengthen the number that ends it and
/// complete no run.
pub proof fn lemma_digits_extend(text: Seq<char>, digits: Seq<char>)
    requires
        forall|i: int| 0 <= i < digits.len() ==> is_digit(#[trigger] digits[i]),
    ensures
        trailing_digits(text + digits) == trailing_digits(text) + digits,
        runs_of(text + digits) == runs_of(text),
    decreases digits.len(),
{
    if digits.len() == 0 {
        assert(text + digits =~= text);
        assert(trailing_digits(text) + digits =~= trailing_digits(text));
    } else {
        let front = digits.drop_last();
        lemma_digits_extend(text, front);
        assert(text + digits =~= (text + front).push(digits.last()));
        lemma_trailing_digits_push(text + front, digits.last());
        lemma_runs_of_push(text + front, digits.last());
        assert(trailing_digits(text) + digits =~= (trailing_digits(text) + front).push(
            digits.last(),
        ));
    }
}

/// A run is found as it was written: digits and then an operation letter,
/// written after a text that does not end in a digit, add to the runs of
/// that text the run of the letter's kind whose length the digits write.
pub proof fn lemma_runs_of_written(text: Seq<char>, digits: Seq<char>, letter: char)
    requires
        text.len() > 0 ==> !is_digit(text.last()),
        digits.len() > 0,
        forall|i: int| 0 <= i < digits.len() ==> is_digit(#[trigger] digits[i]),
        Kind::of_letter(letter) is Some,
    ensures
        runs_of(text + digits + seq![letter]) == runs_of(text).push(
            RunView { length: decimal_value(digits), kind: Kind::of_letter(letter)->0 },
        ),
{
    lemma_digits_extend(text, digits);
    assert(trailing_digits(text) + digits =~= digits);
    assert(text + digits + seq![letter] =~= (text + digits).push(letter));
    lemma_runs_of_push(text + digits, letter);
}

/// Whether each of `parts` spells a run: digits, at least one, and an
/// operation letter.
pub open spec fn spells_runs(parts: Seq<(Seq<char>, char)>) -> bool {
    forall|i: int|
        0 <= i < parts.len() ==> {
            let (digits, letter) = #[trigger] parts[i];
            &&& digits.len() > 0
            &&& forall|j: int| 0 <= j < digits.len() ==> is_digit(#[trigger] digits[j])
            &&& Kind::of_letter(letter) is Some
        }
}

/// The text in which the parts follow one another, each as its digits and
/// then its letter.
pub open spec fn spelled(parts: Seq<(Seq<char>, char)>) -> Seq<char>
    decreases parts.len(),
{
    if parts.len() == 0 {
        Seq::empty()
    } else {
        spelled(parts.drop_last()) + parts.last().0 + seq![parts.last().1]
    }
}

/// The run that digits and a letter spell.
pub open spec fn spelled_run(part: (Seq<char>, char)) -> RunView {
    RunView { length: decimal_value(part.0), kind: Kind::of_letter(part.1)->0 }
}

/// A text made of nothing but runs, written one after the other, has
/// exactly these runs, in their order.
pub proof fn lemma_runs_of_spelled(parts: Seq<(Seq<char>, char)>)
    requires
        spells_runs(parts),
    ensures
        runs_of(spelled(parts)) == parts.map_values(|part: (Seq<char>, char)| spelled_run(part)),
    decreases parts.len(),
{
    let runs = parts.map_values(|part: (Seq<char>, char)| spelled_run(part));
    if parts.len() == 0 {
        assert(runs_of(spelled(parts)) =~= runs);
    } else {
        let before = parts.drop_last();
        let (digits, letter) = parts.last();
        assert(spells_runs(before)) by {
            assert forall|i: int| 0 <= i < before.len() implies {
                let (digits, letter) = #[trigger] before[i];
                &&& digits.len() > 0
                &&& forall|j: int| 0 <= j < digits.len() ==> is_digit(#[trigger] digits[j])
                &&& Kind::of_letter(letter) is Some
            } by {
                assert(before[i] == parts[i]);
            }
        }
        lemma_runs_of_spelled(before);
        if before.len() > 0 {
            assert(spelled(before).last() == before.last().1);
        }
        lemma_runs_of_written(spelled(before), digits, letter);
        assert(runs =~= before.map_values(|part: (Seq<char>, char)| spelled_run(part)).push(
            spelled_run(parts.last()),
        ));
    }
}

/// A character that is neither a digit nor an operation letter completes
/// no run, and no digit before it counts for a later run.
pub proof fn lemma_other_character_skipped(text: Seq<char>, c: char)
    requires
        !is_digit(c),
        Kind::of_letter(c) is None,
    ensures
        runs_of(text.push(c)) == runs_of(text),
        trailing_digits(text.push(c)).len() == 0,
{
    lemma_runs_of_push(text, c);
    lemma_trailing_digits_push(text, c);
}

} // verus!
