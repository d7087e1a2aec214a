//! What holds of the summaries of all runs.

use vstd::prelude::*;
use crate::run::{absent, lengths_fit, nonnegative, Kind, RunView};
use crate::summary::{
    has_kind, lemma_lengths_of_push, lemma_summarize_push, lemma_summary_of_push, lengths_of,
    longest_of, shortest_of, summarize, summary_of, total_of, KindSummary,
};

verus! {

/// A kind of which there is no run has the empty summary: its total, its
/// count, its longest and its shortest run are all zero.
pub proof fn lemma_absent_kind_is_zero(runs: Seq<RunView>, kind: Kind)
    requires
        absent(runs, kind),
    ensures
        summary_of(runs).of(kind) == KindSummary::empty(),
    decreases runs.len(),
{
    if runs.len() == 0 {
        assert(lengths_of(runs, kind) =~= Seq::<int>::empty()) by {
            reveal(Seq::filter);
        }
    } else {
        let before = runs.drop_last();
        assert(runs =~= before.push(runs.last()));
        lemma_lengths_of_push(before, runs.last(), kind);
        lemma_absent_kind_is_zero(before, kind);
    }
}

/// The total of a kind is the sum of the lengths of its runs, and its
/// count is the number of its runs.
pub proof fn lemma_total_and_count(runs: Seq<RunView>, kind: Kind)
    ensures
        summary_of(runs).of(kind).total == total_of(lengths_of(runs, kind)),
        summary_of(runs).of(kind).count == runs.filter(has_kind(kind)).len(),
{
}

/// The longest length is one of the lengths, and none is greater.
pub proof fn lemma_longest_is_greatest(lengths: Seq<int>)
    requires
        lengths.len() > 0,
    ensures
        exists|i: int| 0 <= i < lengths.len() && lengths[i] == longest_of(lengths),
        forall|i: int| 0 <= i < lengths.len() ==> lengths[i] <= longest_of(lengths),
    decreases lengths.len(),
{
    let last = lengths.len() - 1;
    if lengths.len() == 1 {
        assert(lengths[last] == longest_of(lengths));
    } else {
        let before = lengths.drop_last();
        lemma_longest_is_greatest(before);
        if lengths.last() > longest_of(before) {
            assert(lengths[last] == longest_of(lengths));
        } else {
            let i = choose|i: int| 0 <= i < before.len() && before[i] == longest_of(before);
            assert(lengths[i] == longest_of(lengths));
        }
        assert forall|i: int| 0 <= i < lengths.len() implies lengths[i] <= longest_of(
            lengths,
        ) by {
            if i < last {
                assert(before[i] == lengths[i]);
            }
        }
    }
}

/// The shortest length is one of the lengths, and none is less.
pub proof fn lemma_shortest_is_least(lengths: Seq<int>)
    requires
        lengths.len() > 0,
    ensures
        exists|i: int| 0 <= i < lengths.len() && lengths[i] == shortest_of(lengths),
        forall|i: int| 0 <= i < lengths.len() ==> shortest_of(lengths) <= lengths[i],
    decreases lengths.len(),
{
    let last = lengths.len() - 1;
    if lengths.len() == 1 {
        assert(lengths[last] == shortest_of(lengths));
    } else {
        let before = lengths.drop_last();
        lemma_shortest_is_least(before);
        if lengths.last() < shortest_of(before) {
            assert(lengths[last] == shortest_of(lengths));
        } else {
            let i = choose|i: int| 0 <= i < before.len() && before[i] == shortest_of(before);
            assert(lengths[i] == shortest_of(lengths));
        }
        assert forall|i: int| 0 <= i < lengths.len() implies shortest_of(lengths)
            <= lengths[i] by {
            if i < last {
                assert(before[i] == lengths[i]);
            }
        }
    }
}

/// The average length lies between the shortest and the longest: the total
/// is at least the count times the shortest length, and at most the count
/// times the longest. With no run the total is zero.
pub proof fn lemma_average_between_extremes(lengths: Seq<int>)
    ensures
        summarize(lengths).shortest * summarize(lengths).count <= summarize(lengths).total,
        summarize(lengths).total <= summarize(lengths).longest * summarize(lengths).count,
        summarize(lengths).count == 0 ==> summarize(lengths).total == 0,
    decreases lengths.len(),
{
    if lengths.len() > 0 {
        let before = lengths.drop_last();
        let n = before.len() as int;
        let x = lengths.last();
        lemma_average_between_extremes(before);
        let low = shortest_of(lengths);
        let high = longest_of(lengths);
        if n > 0 {
            assert(low <= shortest_of(before) && low <= x);
            assert(high >= longest_of(before) && high >= x);
            assert(low * n <= shortest_of(before) * n) by (nonlinear_arith)
                requires
                    low <= shortest_of(before),
                    n > 0,
            ;
            assert(longest_of(before) * n <= high * n) by (nonlinear_arith)
                requires
                    longest_of(before) <= high,
                    n > 0,
            ;
        }
        assert(low * (n + 1) == low * n + low) by (nonlinear_arith);
        assert(high * (n + 1) == high * n + high) by (nonlinear_arith);
    }
}

/// The runs of one kind do not bear on the numbers of another: two
/// sequences in which each kind has the same runs in the same order have
/// the same summary, however the kinds are interleaved.
pub proof fn lemma_order_across_kinds(first: Seq<RunView>, second: Seq<RunView>)
    requires
        forall|kind: Kind| #[trigger] first.filter(has_kind(kind)) == second.filter(has_kind(kind)),
    ensures
        summary_of(first) == summary_of(second),
{
    assert(first.filter(has_kind(Kind::Match)) == second.filter(has_kind(Kind::Match)));
    assert(first.filter(has_kind(Kind::Mismatch)) == second.filter(has_kind(Kind::Mismatch)));
    assert(first.filter(has_kind(Kind::Insertion)) == second.filter(has_kind(Kind::Insertion)));
    assert(first.filter(has_kind(Kind::Deletion)) == second.filter(has_kind(Kind::Deletion)));
}

/// The lengths of the runs of one kind are not negative where no run's is.
pub proof fn lemma_lengths_of_nonnegative(runs: Seq<RunView>, kind: Kind)
    requires
        nonnegative(runs),
    ensures
        forall|i: int|
            0 <= i < lengths_of(runs, kind).len() ==> 0 <= #[trigger] lengths_of(runs, kind)[i],
    decreases runs.len(),
{
    if runs.len() == 0 {
        assert(lengths_of(runs, kind) =~= Seq::<int>::empty()) by {
            reveal(Seq::filter);
        }
    } else {
        let before = runs.drop_last();
        assert(runs =~= before.push(runs.last()));
        lemma_lengths_of_push(before, runs.last(), kind);
        lemma_lengths_of_nonnegative(before, kind);
    }
}

/// Where no length is negative, the summary is well formed: the shortest
/// and the longest length lie between zero and the total, and with no
/// length at all every number is zero.
pub proof fn lemma_extremes_within(lengths: Seq<int>)
    requires
        forall|i: int| 0 <= i < lengths.len() ==> 0 <= #[trigger] lengths[i],
    ensures
        summarize(lengths).wf(),
    decreases lengths.len(),
{
    if lengths.len() > 0 {
        lemma_extremes_within(lengths.drop_last());
    }
}

/// The summary of runs of which none has a negative length is well formed.
pub proof fn lemma_summary_wf(runs: Seq<RunView>)
    requires
        nonnegative(runs),
    ensures
        summary_of(runs).wf(),
{
    lemma_lengths_of_nonnegative(runs, Kind::Match);
    lemma_lengths_of_nonnegative(runs, Kind::Mismatch);
    lemma_lengths_of_nonnegative(runs, Kind::Insertion);
    lemma_lengths_of_nonnegative(runs, Kind::Deletion);
    lemma_extremes_within(lengths_of(runs, Kind::Match));
    lemma_extremes_within(lengths_of(runs, Kind::Mismatch));
    lemma_extremes_within(lengths_of(runs, Kind::Insertion));
    lemma_extremes_within(lengths_of(runs, Kind::Deletion));
}

/// The total and the count of a kind never shrink as more runs are read,
/// as long as no run has a negative length.
pub proof fn lemma_lengths_grow(runs: Seq<RunView>, n: int, kind: Kind)
    requires
        0 <= n <= runs.len(),
        nonnegative(runs),
    ensures
        total_of(lengths_of(runs.take(n), kind)) <= total_of(lengths_of(runs, kind)),
        lengths_of(runs.take(n), kind).len() <= lengths_of(runs, kind).len(),
        0 <= total_of(lengths_of(runs.take(n), kind)),
    decreases runs.len(),
{
    if runs.len() == 0 {
        assert(runs.take(n) =~= runs);
        assert(lengths_of(runs, kind) =~= Seq::<int>::empty()) by {
            reveal(Seq::filter);
        }
    } else {
        let before = runs.drop_last();
        assert(runs =~= before.push(runs.last()));
        lemma_lengths_of_push(before, runs.last(), kind);
        lemma_summarize_push(lengths_of(before, kind), runs.last().length);
        if n == runs.len() {
            assert(runs.take(n) =~= runs);
            lemma_lengths_grow(before, n - 1, kind);
            assert(before.take(n - 1) =~= before);
        } else {
            assert(runs.take(n) =~= before.take(n));
            lemma_lengths_grow(before, n, kind);
        }
    }
}

/// If the summary of one kind fits for all the runs, it fits for the runs
/// read so far.
pub proof fn lemma_kind_fits_so_far(runs: Seq<RunView>, n: int, kind: Kind)
    requires
        0 <= n <= runs.len(),
        nonnegative(runs),
    ensures
        summarize(lengths_of(runs, kind)).fits() ==> summarize(
            lengths_of(runs.take(n), kind),
        ).fits(),
{
    assert(nonnegative(runs.take(n)));
    lemma_lengths_grow(runs, n, kind);
    lemma_lengths_of_nonnegative(runs.take(n), kind);
    lemma_extremes_within(lengths_of(runs.take(n), kind));
}

/// Once the runs read so far have a total or a count that does not fit, no
/// further run can make it fit again.
pub proof fn lemma_overflow_stays(runs: Seq<RunView>, n: int)
    requires
        0 <= n <= runs.len(),
        nonnegative(runs),
        !summary_of(runs.take(n)).fits(),
    ensures
        !summary_of(runs).fits(),
{
    assert(nonnegative(runs.take(n)));
    lemma_kind_fits_so_far(runs, n, Kind::Match);
    lemma_kind_fits_so_far(runs, n, Kind::Mismatch);
    lemma_kind_fits_so_far(runs, n, Kind::Insertion);
    lemma_kind_fits_so_far(runs, n, Kind::Deletion);
}

/// A run that is too long for a signed 64-bit integer makes the summary
/// too large as well: where finding the runs fails, so does folding them.
pub proof fn lemma_long_run_does_not_fit(runs: Seq<RunView>)
    requires
        nonnegative(runs),
        !lengths_fit(runs),
    ensures
        !summary_of(runs).fits(),
{
    let i = choose|i: int| 0 <= i < runs.len() && (#[trigger] runs[i]).length > i64::MAX;
    assert(runs.take(i + 1) =~= runs.take(i).push(runs[i]));
    lemma_summary_of_push(runs.take(i), runs[i]);
    if summary_of(runs.take(i)).fits() {
        lemma_overflow_stays(runs, i + 1);
    } else {
        lemma_overflow_stays(runs, i);
    }
}

} // verus!
