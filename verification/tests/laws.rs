use cigar_stats::{aggregate, compute_counts, Kind, KindStats, Run};

const KINDS: [Kind; 4] = [Kind::Match, Kind::Mismatch, Kind::Insertion, Kind::Deletion];

const TEXTS: [&str; 8] = [
    "",
    "10=2X3I5=",
    "100=",
    "5=3N2X",
    "7D7D7D",
    "1X22X333X4444X",
    "0=0I",
    "3=1X2=1I1=1D6=",
];

fn zero() -> KindStats {
    KindStats { total: 0, count: 0, longest: 0, shortest: 0 }
}

fn run(length: i64, kind: Kind) -> Run {
    Run { length, kind }
}

#[test]
fn kind_without_runs_is_all_zero() {
    let stats = compute_counts("12X4X").unwrap();
    assert_eq!(stats.matches, zero());
    assert_eq!(stats.insertions, zero());
    assert_eq!(stats.deletions, zero());
    assert_eq!(stats.mismatches, KindStats { total: 16, count: 2, longest: 12, shortest: 4 });
}

#[test]
fn total_is_the_sum_and_count_the_number_of_runs() {
    let stats = compute_counts("3=1X2=1I1=1D6=").unwrap();
    assert_eq!(stats.matches.total, 3 + 2 + 1 + 6);
    assert_eq!(stats.matches.count, 4);
    assert_eq!(stats.mismatches.total, 1);
    assert_eq!(stats.mismatches.count, 1);
    assert_eq!(stats.insertions.count, 1);
    assert_eq!(stats.deletions.count, 1);
}

#[test]
fn same_text_gives_the_same_counts() {
    for text in TEXTS {
        assert_eq!(compute_counts(text), compute_counts(text));
    }
    assert_eq!(compute_counts("9223372036854775808="), compute_counts("9223372036854775808="));
}

#[test]
fn order_across_kinds_does_not_matter() {
    let first = [
        run(4, Kind::Match),
        run(1, Kind::Mismatch),
        run(9, Kind::Match),
        run(2, Kind::Deletion),
        run(3, Kind::Mismatch),
    ];
    let second = [
        run(1, Kind::Mismatch),
        run(2, Kind::Deletion),
        run(3, Kind::Mismatch),
        run(4, Kind::Match),
        run(9, Kind::Match),
    ];
    assert_eq!(aggregate(&first), aggregate(&second));
    assert_eq!(compute_counts("4=1X9=2D3X"), compute_counts("1X2D3X4=9="));
}

#[test]
fn average_lies_between_shortest_and_longest() {
    for text in TEXTS {
        let stats = compute_counts(text).unwrap();
        for kind in KINDS {
            let of_kind = stats.of(kind);
            assert!(of_kind.shortest * of_kind.count <= of_kind.total);
            assert!(of_kind.total <= of_kind.longest * of_kind.count);
            assert!(0 <= of_kind.shortest && of_kind.shortest <= of_kind.longest);
            if of_kind.count == 0 {
                assert_eq!(of_kind, zero());
            }
        }
    }
}

#[test]
fn runs_of_a_beginning_come_first() {
    let text = "12=3X45I6D78=";
    let all = cigar_stats::tokenize(text).unwrap();
    for end in 0..=text.len() {
        let some = cigar_stats::tokenize(&text[..end]).unwrap();
        assert_eq!(some[..], all[..some.len()]);
    }
}
