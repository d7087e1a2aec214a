//! The statistics of an operation string, computed in one pass.

use vstd::prelude::*;
use crate::error::CigarError;
use crate::grammar::{
    closing, lemma_runs_of_nonnegative, lemma_runs_of_prefix, lemma_runs_of_push, runs_of,
};
use crate::laws::{lemma_absent_kind_is_zero, lemma_overflow_stays};
use crate::run::{absent, Kind, RunView};
use crate::scanner::Scanner;
use crate::stats::{is_fold_of, CigarStats};
use crate::summary::{
    has_kind, lemma_summary_of_empty, lemma_summary_of_push, lengths_of, summary_of, total_of,
    CigarSummary, KindSummary,
};

verus! {

broadcast use vstd::string::group_string_axioms;

/// The summary of the runs written in `text`.
pub open spec fn counts_of(text: Seq<char>) -> CigarSummary {
    summary_of(runs_of(text))
}

/// Computes the statistics of the runs written in an operation string:
/// for each kind the total length, the number of runs, and the longest and
/// the shortest run.
///
/// The text is read once, from left to right, and the runs are folded as
/// they are found. What is no run is passed over. Fails if the total length
/// or the number of the runs of some kind does not fit in a signed 64-bit
/// integer.
pub fn compute_counts(cigar_str: &str) -> (result: Result<CigarStats, CigarError>)
    ensures
        is_fold_of(result, runs_of(cigar_str@)),
        result matches Ok(stats) ==> stats@.wf(),
        result matches Ok(stats) ==> forall|kind: Kind| #[trigger]
            absent(runs_of(cigar_str@), kind) ==> stats@.of(kind) == KindSummary::empty(),
        result matches Ok(stats) ==> forall|kind: Kind|
            (#[trigger] stats@.of(kind)).total == total_of(lengths_of(runs_of(cigar_str@), kind))
                && stats@.of(kind).count == runs_of(cigar_str@).filter(has_kind(kind)).len(),
{
    let mut stats = CigarStats::new();
    let mut scanner = Scanner::new();
    let chars = cigar_str.chars();
    proof {
        assert(cigar_str@.take(0) =~= Seq::<char>::empty());
        lemma_summary_of_empty();
    }
    for c in it: chars
        invariant
            it.seq() == cigar_str@,
            scanner.wf(),
            scanner.text() == cigar_str@.take(it.index()),
            stats@ == counts_of(cigar_str@.take(it.index())),
            stats@.fits(),
            stats@.wf(),
    {
        let ghost read = cigar_str@.take(it.index());
        proof {
            assert(cigar_str@.take(it.index() + 1) =~= read.push(c));
            lemma_runs_of_push(read, c);
        }
        match scanner.feed(c) {
            Some(Ok(run)) => {
                proof {
                    lemma_summary_of_push(runs_of(read), run@);
                }
                match stats.record(run) {
                    Ok(()) => {},
                    Err(error) => {
                        proof {
                            lemma_beginning_fits(cigar_str@, it.index() + 1);
                        }
                        return Err(error);
                    },
                }
            },
            Some(Err(error)) => {
                proof {
                    let closed: RunView = closing(read, c)->0;
                    lemma_summary_of_push(runs_of(read), closed);
                    lemma_beginning_fits(cigar_str@, it.index() + 1);
                }
                return Err(error);
            },
            None => {},
        }
    }
    proof {
        assert(cigar_str@.take(cigar_str@.len() as int) =~= cigar_str@);
        assert forall|kind: Kind| #[trigger]
            absent(runs_of(cigar_str@), kind) implies stats@.of(kind) == KindSummary::empty() by {
            lemma_absent_kind_is_zero(runs_of(cigar_str@), kind);
        }
    }
    Ok(stats)
}

/// The statistics of a text depend on the text alone: computed twice, they
/// are the same.
pub proof fn lemma_counts_determined(
    text: Seq<char>,
    first: Result<CigarStats, CigarError>,
    second: Result<CigarStats, CigarError>,
)
    requires
        is_fold_of(first, runs_of(text)),
        is_fold_of(second, runs_of(text)),
    ensures
        first == second,
{
    match (first, second) {
        (Ok(a), Ok(b)) => {
            assert(a.matches@ == b.matches@);
            assert(a.mismatches@ == b.mismatches@);
            assert(a.insertions@ == b.insertions@);
            assert(a.deletions@ == b.deletions@);
        },
        (Err(a), Err(b)) => {
            assert(a == CigarError::Overflow && b == CigarError::Overflow);
        },
        _ => {},
    }
}

/// If the summary of a text fits, so does the summary of each of its
/// beginnings.
proof fn lemma_beginning_fits(text: Seq<char>, n: int)
    requires
        0 <= n <= text.len(),
    ensures
        counts_of(text).fits() ==> counts_of(text.take(n)).fits(),
{
    lemma_runs_of_prefix(text, n);
    lemma_runs_of_nonnegative(text);
    let read = runs_of(text.take(n));
    assert(read =~= runs_of(text).take(read.len() as int));
    if !counts_of(text.take(n)).fits() {
        lemma_overflow_stays(runs_of(text), read.len() as int);
    }
}

} // verus!
