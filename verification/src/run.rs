//! Runs and their kinds.

use vstd::prelude::*;

verus! {

/// The kind of operation that a run repeats.
#[derive(Clone, Copy, Debug, PartialEq, Eq, Hash, Structural)]
pub enum Kind {
    /// The two sequences agree (`=`).
    Match,
    /// The two sequences differ (`X`).
    Mismatch,
    /// Bases present in the query only (`I`).
    Insertion,
    /// Bases present in the target only (`D`).
    Deletion,
}

impl Kind {
    /// The kind that an operation letter stands for, if it stands for one.
    pub open spec fn of_letter(c: char) -> Option<Kind> {
        if c == '=' {
            Some(Kind::Match)
        } else if c == 'X' {
            Some(Kind::Mismatch)
        } else if c == 'I' {
            Some(Kind::Insertion)
        } else if c == 'D' {
            Some(Kind::Deletion)
        } else {
            None
        }
    }

    /// Reads an operation letter.
    pub fn from_letter(c: char) -> (kind: Option<Kind>)
        ensures
            kind == Kind::of_letter(c),
    {
        if c == '=' {
            Some(Kind::Match)
        } else if c == 'X' {
            Some(Kind::Mismatch)
        } else if c == 'I' {
            Some(Kind::Insertion)
        } else if c == 'D' {
            Some(Kind::Deletion)
        } else {
            None
        }
    }
}

/// A run as a mathematical value: its length is any integer.
pub struct RunView {
    pub length: int,
    pub kind: Kind,
}

/// One contiguous stretch of a single kind of operation.
#[derive(Clone, Copy, Debug, PartialEq, Eq, Structural)]
pub struct Run {
    pub length: i64,
    pub kind: Kind,
}

impl View for Run {
    type V = RunView;

    open spec fn view(&self) -> RunView {
        RunView { length: self.length as int, kind: self.kind }
    }
}

/// The mathematical values of a sequence of runs, in the same order.
pub open spec fn run_views(runs: Seq<Run>) -> Seq<RunView> {
    runs.map_values(|run: Run| run@)
}

/// Whether no run of `runs` has a negative length.
pub open spec fn nonnegative(runs: Seq<RunView>) -> bool {
    forall|i: int| 0 <= i < runs.len() ==> 0 <= (#[trigger] runs[i]).length
}

/// Whether every run of `runs` has a length that a signed 64-bit integer
/// holds.
pub open spec fn lengths_fit(runs: Seq<RunView>) -> bool {
    forall|i: int| 0 <= i < runs.len() ==> (#[trigger] runs[i]).length <= i64::MAX
}

/// Whether no run of `runs` is of the given kind.
pub open spec fn absent(runs: Seq<RunView>, kind: Kind) -> bool {
    forall|i: int| 0 <= i < runs.len() ==> (#[trigger] runs[i]).kind != kind
}

} // verus!
