use cigar_stats::{aggregate, compute_counts, tokenize, CigarError, CigarStats, Kind, KindStats, Run};

fn run(length: i64, kind: Kind) -> Run {
    Run { length, kind }
}

fn zero() -> KindStats {
    KindStats { total: 0, count: 0, longest: 0, shortest: 0 }
}

#[test]
fn new_stats_are_zero() {
    assert_eq!(KindStats::new(), zero());
    let stats = CigarStats::new();
    assert_eq!(stats.matches, zero());
    assert_eq!(stats.mismatches, zero());
    assert_eq!(stats.insertions, zero());
    assert_eq!(stats.deletions, zero());
}

#[test]
fn first_run_sets_longest_and_shortest() {
    let mut stats = KindStats::new();
    assert_eq!(stats.record(7), Ok(()));
    assert_eq!(stats, KindStats { total: 7, count: 1, longest: 7, shortest: 7 });
}

#[test]
fn later_runs_move_longest_and_shortest() {
    let mut stats = KindStats::new();
    for length in [7, 3, 9, 3, 5] {
        assert_eq!(stats.record(length), Ok(()));
    }
    assert_eq!(stats, KindStats { total: 27, count: 5, longest: 9, shortest: 3 });
}

#[test]
fn run_of_length_zero_is_the_shortest() {
    let mut stats = KindStats::new();
    assert_eq!(stats.record(4), Ok(()));
    assert_eq!(stats.record(0), Ok(()));
    assert_eq!(stats, KindStats { total: 4, count: 2, longest: 4, shortest: 0 });
}

#[test]
fn record_that_does_not_fit_changes_nothing() {
    let mut stats = KindStats::new();
    assert_eq!(stats.record(i64::MAX), Ok(()));
    let before = stats;
    assert_eq!(stats.record(1), Err(CigarError::Overflow));
    assert_eq!(stats, before);
    assert_eq!(stats.record(0), Ok(()));
    assert_eq!(stats, KindStats { total: i64::MAX, count: 2, longest: i64::MAX, shortest: 0 });
}

#[test]
fn count_that_does_not_fit_changes_nothing() {
    let mut stats = KindStats { total: 10, count: i64::MAX, longest: 1, shortest: 0 };
    let before = stats;
    assert_eq!(stats.record(1), Err(CigarError::Overflow));
    assert_eq!(stats, before);
}

#[test]
fn run_changes_its_own_kind_only() {
    let mut stats = CigarStats::new();
    assert_eq!(stats.record(run(6, Kind::Insertion)), Ok(()));
    assert_eq!(stats.insertions, KindStats { total: 6, count: 1, longest: 6, shortest: 6 });
    assert_eq!(stats.matches, zero());
    assert_eq!(stats.mismatches, zero());
    assert_eq!(stats.deletions, zero());
    assert_eq!(stats.record(run(2, Kind::Deletion)), Ok(()));
    assert_eq!(stats.insertions, KindStats { total: 6, count: 1, longest: 6, shortest: 6 });
    assert_eq!(stats.deletions, KindStats { total: 2, count: 1, longest: 2, shortest: 2 });
}

#[test]
fn kind_picks_the_numbers_of_that_kind() {
    let stats = compute_counts("1=2X3I4D").unwrap();
    assert_eq!(stats.of(Kind::Match), stats.matches);
    assert_eq!(stats.of(Kind::Mismatch), stats.mismatches);
    assert_eq!(stats.of(Kind::Insertion), stats.insertions);
    assert_eq!(stats.of(Kind::Deletion), stats.deletions);
    assert_eq!(stats.of(Kind::Deletion).total, 4);
}

#[test]
fn aggregate_folds_the_runs() {
    let runs = [
        run(10, Kind::Match),
        run(2, Kind::Mismatch),
        run(3, Kind::Insertion),
        run(5, Kind::Match),
    ];
    let stats = aggregate(&runs).unwrap();
    assert_eq!(stats.matches, KindStats { total: 15, count: 2, longest: 10, shortest: 5 });
    assert_eq!(stats.mismatches, KindStats { total: 2, count: 1, longest: 2, shortest: 2 });
    assert_eq!(stats.insertions, KindStats { total: 3, count: 1, longest: 3, shortest: 3 });
    assert_eq!(stats.deletions, zero());
}

#[test]
fn aggregate_of_no_runs_is_zero() {
    assert_eq!(aggregate(&[]), Ok(CigarStats::new()));
}

#[test]
fn aggregate_fails_where_a_total_does_not_fit() {
    let runs = [run(i64::MAX, Kind::Deletion), run(3, Kind::Match), run(1, Kind::Deletion)];
    assert_eq!(aggregate(&runs), Err(CigarError::Overflow));
}

#[test]
fn totals_of_different_kinds_do_not_add_up() {
    let runs = [run(i64::MAX, Kind::Deletion), run(i64::MAX, Kind::Match)];
    let stats = aggregate(&runs).unwrap();
    assert_eq!(stats.deletions.total, i64::MAX);
    assert_eq!(stats.matches.total, i64::MAX);
}

#[test]
fn counts_are_the_fold_of_the_runs_found() {
    for text in ["", "10=2X3I5=", "5=3N2X", "0=0=7D", "abc", "1=1=1=1X9I22D3=", "9223372036854775807="] {
        let runs = tokenize(text).unwrap();
        assert_eq!(compute_counts(text), aggregate(&runs));
    }
}

#[test]
fn greatest_length_is_kept_as_shortest() {
    let stats = compute_counts("9223372036854775807=").unwrap();
    assert_eq!(
        stats.matches,
        KindStats { total: i64::MAX, count: 1, longest: i64::MAX, shortest: i64::MAX }
    );
}

#[test]
fn total_that_does_not_fit_fails() {
    assert_eq!(compute_counts("9223372036854775807=1="), Err(CigarError::Overflow));
    assert_eq!(compute_counts("9223372036854775808X"), Err(CigarError::Overflow));
    assert_eq!(compute_counts("4611686018427387904I4611686018427387904I"), Err(CigarError::Overflow));
}

#[test]
fn total_that_just_fits_is_given() {
    let stats = compute_counts("4611686018427387904I4611686018427387903I").unwrap();
    assert_eq!(
        stats.insertions,
        KindStats {
            total: i64::MAX,
            count: 2,
            longest: 4611686018427387904,
            shortest: 4611686018427387903,
        }
    );
}
