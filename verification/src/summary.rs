//! What is said of the runs of one kind, as mathematical values.

use vstd::prelude::*;
use crate::run::{Kind, RunView};

verus! {

/// The four numbers kept for one kind of run.
pub struct KindSummary {
    /// The sum of the lengths of the runs.
    pub total: int,
    /// The number of runs.
    pub count: int,
    /// The length of the longest run, or zero if there is no run.
    pub longest: int,
    /// The length of the shortest run, or zero if there is no run.
    pub shortest: int,
}

impl KindSummary {
    /// The summary of no runs at all: every number is zero.
    pub open spec fn empty() -> KindSummary {
        KindSummary { total: 0, count: 0, longest: 0, shortest: 0 }
    }

    /// The summary after one more run of the given length.
    pub open spec fn with(self, length: int) -> KindSummary {
        KindSummary {
            total: self.total + length,
            count: self.count + 1,
            longest: if self.count == 0 || length > self.longest {
                length
            } else {
                self.longest
            },
            shortest: if self.count == 0 || length < self.shortest {
                length
            } else {
                self.shortest
            },
        }
    }

    /// What holds of the summary of runs whose lengths are not negative:
    /// the shortest run is no longer than the longest, which is no longer
    /// than the total, and where there is no run every number is zero.
    pub open spec fn wf(self) -> bool {
        &&& 0 <= self.count
        &&& 0 <= self.shortest <= self.longest <= self.total
        &&& self.count == 0 ==> self.total == 0
    }

    /// Whether each of the four numbers can be held in a signed 64-bit integer.
    pub open spec fn fits(self) -> bool {
        &&& i64::MIN <= self.total <= i64::MAX
        &&& i64::MIN <= self.count <= i64::MAX
        &&& i64::MIN <= self.longest <= i64::MAX
        &&& i64::MIN <= self.shortest <= i64::MAX
    }
}

/// The sum of `lengths`.
pub open spec fn total_of(lengths: Seq<int>) -> int
    decreases lengths.len(),
{
    if lengths.len() == 0 {
        0
    } else {
        total_of(lengths.drop_last()) + lengths.last()
    }
}

/// The greatest of `lengths`, or zero if there is none.
pub open spec fn longest_of(lengths: Seq<int>) -> int
    decreases lengths.len(),
{
    if lengths.len() == 0 {
        0
    } else if lengths.len() == 1 || lengths.last() > longest_of(lengths.drop_last()) {
        lengths.last()
    } else {
        longest_of(lengths.drop_last())
    }
}

/// The least of `lengths`, or zero if there is none.
pub open spec fn shortest_of(lengths: Seq<int>) -> int
    decreases lengths.len(),
{
    if lengths.len() == 0 {
        0
    } else if lengths.len() == 1 || lengths.last() < shortest_of(lengths.drop_last()) {
        lengths.last()
    } else {
        shortest_of(lengths.drop_last())
    }
}

/// The summary of runs of one kind, given their lengths.
pub open spec fn summarize(lengths: Seq<int>) -> KindSummary {
    KindSummary {
        total: total_of(lengths),
        count: lengths.len() as int,
        longest: longest_of(lengths),
        shortest: shortest_of(lengths),
    }
}

/// The test that a run is of the given kind.
pub open spec fn has_kind(kind: Kind) -> spec_fn(RunView) -> bool {
    |run: RunView| run.kind == kind
}

/// The lengths of the runs of one kind, in the order of the runs.
pub open spec fn lengths_of(runs: Seq<RunView>, kind: Kind) -> Seq<int> {
    runs.filter(has_kind(kind)).map_values(|run: RunView| run.length)
}

/// The summaries of the four kinds of run.
pub struct CigarSummary {
    pub matches: KindSummary,
    pub mismatches: KindSummary,
    pub insertions: KindSummary,
    pub deletions: KindSummary,
}

impl CigarSummary {
    /// The summary of no runs at all.
    pub open spec fn empty() -> CigarSummary {
        CigarSummary {
            matches: KindSummary::empty(),
            mismatches: KindSummary::empty(),
            insertions: KindSummary::empty(),
            deletions: KindSummary::empty(),
        }
    }

    /// The summary of one kind.
    pub open spec fn of(self, kind: Kind) -> KindSummary {
        match kind {
            Kind::Match => self.matches,
            Kind::Mismatch => self.mismatches,
            Kind::Insertion => self.insertions,
            Kind::Deletion => self.deletions,
        }
    }

    /// The summary after one more run: only the run's own kind changes.
    pub open spec fn with(self, run: RunView) -> CigarSummary {
        match run.kind {
            Kind::Match => CigarSummary { matches: self.matches.with(run.length), ..self },
            Kind::Mismatch => CigarSummary { mismatches: self.mismatches.with(run.length), ..self },
            Kind::Insertion => CigarSummary { insertions: self.insertions.with(run.length), ..self },
            Kind::Deletion => CigarSummary { deletions: self.deletions.with(run.length), ..self },
        }
    }

    /// Whether each of the four summaries is well formed.
    pub open spec fn wf(self) -> bool {
        &&& self.matches.wf()
        &&& self.mismatches.wf()
        &&& self.insertions.wf()
        &&& self.deletions.wf()
    }

    /// Whether each of the four summaries fits.
    pub open spec fn fits(self) -> bool {
        &&& self.matches.fits()
        &&& self.mismatches.fits()
        &&& self.insertions.fits()
        &&& self.deletions.fits()
    }
}

/// The summary of a sequence of runs: each kind is summarised from the
/// lengths of its own runs.
pub open spec fn summary_of(runs: Seq<RunView>) -> CigarSummary {
    CigarSummary {
        matches: summarize(lengths_of(runs, Kind::Match)),
        mismatches: summarize(lengths_of(runs, Kind::Mismatch)),
        insertions: summarize(lengths_of(runs, Kind::Insertion)),
        deletions: summarize(lengths_of(runs, Kind::Deletion)),
    }
}

/// One more length changes a summary as `with` says.
pub proof fn lemma_summarize_push(lengths: Seq<int>, length: int)
    ensures
        summarize(lengths.push(length)) == summarize(lengths).with(length),
{
    assert(lengths.push(length).drop_last() =~= lengths);
}

/// One more run adds its length to the lengths of its own kind and to no
/// other.
pub proof fn lemma_lengths_of_push(runs: Seq<RunView>, run: RunView, kind: Kind)
    ensures
        lengths_of(runs.push(run), kind) == if run.kind == kind {
            lengths_of(runs, kind).push(run.length)
        } else {
            lengths_of(runs, kind)
        },
{
    Seq::lemma_filter_push(runs, run, has_kind(kind));
    if run.kind == kind {
        assert(lengths_of(runs.push(run), kind) =~= lengths_of(runs, kind).push(run.length));
    }
}

/// One more run changes the summary of a sequence as `with` says.
pub proof fn lemma_summary_of_push(runs: Seq<RunView>, run: RunView)
    ensures
        summary_of(runs.push(run)) == summary_of(runs).with(run),
{
    lemma_lengths_of_push(runs, run, Kind::Match);
    lemma_lengths_of_push(runs, run, Kind::Mismatch);
    lemma_lengths_of_push(runs, run, Kind::Insertion);
    lemma_lengths_of_push(runs, run, Kind::Deletion);
    lemma_summarize_push(lengths_of(runs, run.kind), run.length);
}

/// No runs have the empty summary.
pub proof fn lemma_summary_of_empty()
    ensures
        summary_of(Seq::<RunView>::empty()) == CigarSummary::empty(),
{
    let none = Seq::<RunView>::empty();
    assert forall|kind: Kind| lengths_of(none, kind) =~= Seq::<int>::empty() by {
        reveal(Seq::filter);
    }
}

} // verus!
