//! The accumulators: the numbers kept for each kind of run while the runs
//! of a record are folded, and handed out when the fold is done.

use vstd::prelude::*;
use crate::error::CigarError;
use crate::run::{nonnegative, run_views, Kind, Run, RunView};
use crate::summary::{
    lemma_summary_of_empty, lemma_summary_of_push, summary_of, CigarSummary, KindSummary,
};
use crate::laws::lemma_overflow_stays;

verus! {

/// The numbers kept for one kind of run.
///
/// The fields are zero as long as no run has been recorded, so that no
/// starting value of the fold is ever given out.
#[derive(Clone, Copy, Debug, PartialEq, Eq, Structural)]
pub struct KindStats {
    /// The sum of the lengths of the runs.
    pub total: i64,
    /// The number of runs.
    pub count: i64,
    /// The length of the longest run, or zero if there is no run.
    pub longest: i64,
    /// The length of the shortest run, or zero if there is no run.
    pub shortest: i64,
}

impl View for KindStats {
    type V = KindSummary;

    open spec fn view(&self) -> KindSummary {
        KindSummary {
            total: self.total as int,
            count: self.count as int,
            longest: self.longest as int,
            shortest: self.shortest as int,
        }
    }
}

impl KindStats {
    /// The numbers of a kind of which no run has been seen.
    pub fn new() -> (stats: KindStats)
        ensures
            stats@ == KindSummary::empty(),
            stats@.wf(),
    {
        KindStats { total: 0, count: 0, longest: 0, shortest: 0 }
    }

    /// Takes one more run of the given length into account.
    ///
    /// Fails, and changes nothing, if the new total or the new count does
    /// not fit.
    pub fn record(&mut self, length: i64) -> (result: Result<(), CigarError>)
        ensures
            result is Ok <==> old(self)@.with(length as int).fits(),
            result is Ok ==> final(self)@ == old(self)@.with(length as int),
            result is Err ==> *final(self) == *old(self),
            old(self)@.wf() && length >= 0 ==> final(self)@.wf(),
    {
        let total = match self.total.checked_add(length) {
            Some(total) => total,
            None => { return Err(CigarError::Overflow); },
        };
        let count = match self.count.checked_add(1) {
            Some(count) => count,
            None => { return Err(CigarError::Overflow); },
        };
        if self.count == 0 || length > self.longest {
            self.longest = length;
        }
        if self.count == 0 || length < self.shortest {
            self.shortest = length;
        }
        self.total = total;
        self.count = count;
        Ok(())
    }
}

/// The numbers kept for a record: those of each of the four kinds.
#[derive(Clone, Copy, Debug, PartialEq, Eq, Structural)]
pub struct CigarStats {
    pub matches: KindStats,
    pub mismatches: KindStats,
    pub insertions: KindStats,
    pub deletions: KindStats,
}

impl View for CigarStats {
    type V = CigarSummary;

    open spec fn view(&self) -> CigarSummary {
        CigarSummary {
            matches: self.matches@,
            mismatches: self.mismatches@,
            insertions: self.insertions@,
            deletions: self.deletions@,
        }
    }
}

impl CigarStats {
    /// The numbers of a record of which no run has been seen.
    pub fn new() -> (stats: CigarStats)
        ensures
            stats@ == CigarSummary::empty(),
            stats@.wf(),
    {
        CigarStats {
            matches: KindStats::new(),
            mismatches: KindStats::new(),
            insertions: KindStats::new(),
            deletions: KindStats::new(),
        }
    }

    /// The numbers of one kind.
    pub fn of(&self, kind: Kind) -> (stats: KindStats)
        ensures
            stats@ == self@.of(kind),
            stats == match kind {
                Kind::Match => self.matches,
                Kind::Mismatch => self.mismatches,
                Kind::Insertion => self.insertions,
                Kind::Deletion => self.deletions,
            },
    {
        match kind {
            Kind::Match => self.matches,
            Kind::Mismatch => self.mismatches,
            Kind::Insertion => self.insertions,
            Kind::Deletion => self.deletions,
        }
    }

    /// Takes one more run into account: the numbers of its kind change, the
    /// others stay.
    ///
    /// Fails, and changes nothing, if the new total or the new count of that
    /// kind does not fit.
    pub fn record(&mut self, run: Run) -> (result: Result<(), CigarError>)
        ensures
            result is Ok <==> old(self)@.with(run@).of(run.kind).fits(),
            result is Ok ==> final(self)@ == old(self)@.with(run@),
            result is Err ==> *final(self) == *old(self),
            old(self)@.wf() && run.length >= 0 ==> final(self)@.wf(),
    {
        match run.kind {
            Kind::Match => self.matches.record(run.length),
            Kind::Mismatch => self.mismatches.record(run.length),
            Kind::Insertion => self.insertions.record(run.length),
            Kind::Deletion => self.deletions.record(run.length),
        }
    }
}

/// Whether `result` is what folding `runs` comes to: their summary where
/// it fits, and a failure where it does not.
pub open spec fn is_fold_of(result: Result<CigarStats, CigarError>, runs: Seq<RunView>) -> bool {
    match result {
        Ok(stats) => summary_of(runs).fits() && stats@ == summary_of(runs),
        Err(_) => !summary_of(runs).fits(),
    }
}

/// Folds a sequence of runs into the numbers of the four kinds.
///
/// Fails if the total length or the number of the runs of some kind does not
/// fit in a signed 64-bit integer.
pub fn aggregate(runs: &[Run]) -> (result: Result<CigarStats, CigarError>)
    requires
        nonnegative(run_views(runs@)),
    ensures
        is_fold_of(result, run_views(runs@)),
        result matches Ok(stats) ==> stats@.wf(),
{
    let mut stats = CigarStats::new();
    let mut i: usize = 0;
    proof {
        lemma_summary_of_empty();
        assert(run_views(runs@).take(0) =~= Seq::<RunView>::empty());
    }
    while i < runs.len()
        invariant
            0 <= i <= runs@.len(),
            nonnegative(run_views(runs@)),
            stats@ == summary_of(run_views(runs@).take(i as int)),
            stats@.fits(),
            stats@.wf(),
        decreases runs@.len() - i,
    {
        let run = runs[i];
        proof {
            let seen = run_views(runs@).take(i as int);
            assert(run_views(runs@)[i as int] == run@);
            assert(run_views(runs@).take(i + 1) =~= seen.push(run@));
            lemma_summary_of_push(seen, run@);
        }
        match stats.record(run) {
            Ok(()) => {},
            Err(error) => {
                proof {
                    lemma_overflow_stays(run_views(runs@), i + 1);
                }
                return Err(error);
            },
        }
        i = i + 1;
    }
    proof {
        assert(run_views(runs@).take(i as int) =~= run_views(runs@));
    }
    Ok(stats)
}

} // verus!
