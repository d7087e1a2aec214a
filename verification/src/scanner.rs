//! Finding the runs of a text, one character at a time.

use vstd::prelude::*;
use crate::error::CigarError;
use crate::grammar::{
    closing, decimal_value, lemma_decimal_value_nonnegative, lemma_runs_of_nonnegative,
    lemma_runs_of_prefix, lemma_runs_of_push, lemma_trailing_digits_longest,
    lemma_trailing_digits_push, runs_of, trailing_digits,
};
use crate::run::{lengths_fit, nonnegative, run_views, Kind, Run, RunView};

verus! {

broadcast use vstd::string::group_string_axioms;

/// What a scanner gives out for a character: nothing where the character
/// completes no run, the run where its length fits in a signed 64-bit
/// integer, and an error where it does not.
pub open spec fn emitted(closed: Option<RunView>) -> Option<Result<Run, CigarError>> {
    match closed {
        None => None,
        Some(run) => if run.length <= i64::MAX {
            Some(Ok(Run { length: run.length as i64, kind: run.kind }))
        } else {
            Some(Err(CigarError::Overflow))
        },
    }
}

/// A reader of operation strings that is fed one character at a time and
/// gives out each run as soon as its letter has been read.
///
/// It keeps the number written by the digits read since the last character
/// that was not a digit.
pub struct Scanner {
    value: i64,
    seen: bool,
    overflow: bool,
    text: Ghost<Seq<char>>,
}

impl Scanner {
    /// The characters fed so far.
    pub closed spec fn text(&self) -> Seq<char> {
        self.text@
    }

    /// Whether the scanner holds the number that ends the characters fed so
    /// far.
    pub closed spec fn wf(&self) -> bool {
        let pending = decimal_value(trailing_digits(self.text@));
        &&& self.seen == (trailing_digits(self.text@).len() > 0)
        &&& self.overflow == (pending > i64::MAX)
        &&& self.value == if self.overflow { 0 } else { pending }
    }

    /// A scanner that has read nothing yet.
    pub fn new() -> (scanner: Scanner)
        ensures
            scanner.wf(),
            scanner.text() == Seq::<char>::empty(),
    {
        Scanner { value: 0, seen: false, overflow: false, text: Ghost(Seq::empty()) }
    }

    /// Reads the character `c` and gives out the run that it completes, if
    /// it completes one.
    pub fn feed(&mut self, c: char) -> (out: Option<Result<Run, CigarError>>)
        requires
            old(self).wf(),
        ensures
            final(self).wf(),
            final(self).text() == old(self).text().push(c),
            out == emitted(closing(old(self).text(), c)),
            out matches Some(Ok(run)) ==> closing(old(self).text(), c) == Some(run@) && 0
                <= run.length,
    {
        proof {
            lemma_trailing_digits_push(self.text@, c);
            lemma_trailing_digits_longest(self.text@);
            lemma_decimal_value_nonnegative(trailing_digits(self.text@));
        }
        if '0' <= c && c <= '9' {
            let digit: i64 = (c as u32 - '0' as u32) as i64;
            if !self.overflow {
                let grown = match self.value.checked_mul(10) {
                    Some(tens) => tens.checked_add(digit),
                    None => None,
                };
                match grown {
                    Some(value) => {
                        self.value = value;
                    },
                    None => {
                        self.value = 0;
                        self.overflow = true;
                    },
                }
            }
            self.seen = true;
            self.text = Ghost(self.text@.push(c));
            None
        } else {
            let out = match Kind::from_letter(c) {
                Some(kind) => if !self.seen {
                    None
                } else if self.overflow {
                    Some(Err(CigarError::Overflow))
                } else {
                    Some(Ok(Run { length: self.value, kind }))
                },
                None => None,
            };
            self.value = 0;
            self.seen = false;
            self.overflow = false;
            self.text = Ghost(self.text@.push(c));
            out
        }
    }
}

/// Finds the runs of an operation string, from left to right.
///
/// Fails if a run has a length that does not fit in a signed 64-bit integer.
pub fn tokenize(text: &str) -> (result: Result<Vec<Run>, CigarError>)
    ensures
        match result {
            Ok(runs) => lengths_fit(runs_of(text@)) && run_views(runs@) == runs_of(text@),
            Err(_) => !lengths_fit(runs_of(text@)),
        },
        result matches Ok(runs) ==> nonnegative(run_views(runs@)),
{
    let mut runs: Vec<Run> = Vec::new();
    let mut scanner = Scanner::new();
    let chars = text.chars();
    proof {
        assert(text@.take(0) =~= Seq::<char>::empty());
        assert(run_views(runs@) =~= Seq::<RunView>::empty());
    }
    for c in it: chars
        invariant
            it.seq() == text@,
            scanner.wf(),
            scanner.text() == text@.take(it.index()),
            run_views(runs@) == runs_of(text@.take(it.index())),
    {
        let ghost read = text@.take(it.index());
        proof {
            assert(text@.take(it.index() + 1) =~= read.push(c));
            lemma_runs_of_push(read, c);
        }
        match scanner.feed(c) {
            Some(Ok(run)) => {
                proof {
                    assert(run_views(runs@.push(run)) =~= run_views(runs@).push(run@));
                }
                runs.push(run);
            },
            Some(Err(error)) => {
                proof {
                    lemma_runs_of_prefix(text@, it.index() + 1);
                    let found = runs_of(read.push(c));
                    assert(found.last().length > i64::MAX);
                    assert(runs_of(text@)[found.len() - 1] == found.last());
                }
                return Err(error);
            },
            None => {},
        }
    }
    proof {
        assert(text@.take(text@.len() as int) =~= text@);
        lemma_runs_of_nonnegative(text@);
        assert forall|i: int| 0 <= i < runs_of(text@).len() implies (#[trigger] runs_of(
            text@,
        )[i]).length <= i64::MAX by {
            assert(runs_of(text@)[i] == runs@[i]@);
        }
    }
    Ok(runs)
}

} // verus!
