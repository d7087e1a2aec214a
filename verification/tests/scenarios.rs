use cigar_stats::{compute_counts, summarize_line, CigarStats, KindStats, Outcome};

fn zero() -> KindStats {
    KindStats { total: 0, count: 0, longest: 0, shortest: 0 }
}

fn average(stats: &KindStats) -> f64 {
    if stats.count > 0 {
        stats.total as f64 / stats.count as f64
    } else {
        0.0
    }
}

#[test]
fn mixed_runs_are_summarised_by_kind() {
    let stats = compute_counts("10=2X3I5=").unwrap();
    assert_eq!(stats.matches, KindStats { total: 15, count: 2, longest: 10, shortest: 5 });
    assert_eq!(stats.mismatches, KindStats { total: 2, count: 1, longest: 2, shortest: 2 });
    assert_eq!(stats.insertions, KindStats { total: 3, count: 1, longest: 3, shortest: 3 });
    assert_eq!(stats.deletions, zero());
    assert_eq!(format!("{:.2}", average(&stats.matches)), "7.50");
    assert_eq!(format!("{:.2}", average(&stats.mismatches)), "2.00");
    assert_eq!(format!("{:.2}", average(&stats.insertions)), "3.00");
    assert_eq!(format!("{:.2}", average(&stats.deletions)), "0.00");
}

#[test]
fn empty_string_gives_all_zeros() {
    let stats = compute_counts("").unwrap();
    let nothing = CigarStats {
        matches: zero(),
        mismatches: zero(),
        insertions: zero(),
        deletions: zero(),
    };
    assert_eq!(stats, nothing);
    assert_eq!(average(&stats.matches), 0.0);
    assert_eq!(average(&stats.mismatches), 0.0);
    assert_eq!(average(&stats.insertions), 0.0);
    assert_eq!(average(&stats.deletions), 0.0);
}

#[test]
fn single_run_is_longest_and_shortest() {
    let stats = compute_counts("100=").unwrap();
    assert_eq!(stats.matches, KindStats { total: 100, count: 1, longest: 100, shortest: 100 });
    assert_eq!(format!("{:.2}", average(&stats.matches)), "100.00");
    assert_eq!(stats.mismatches, zero());
    assert_eq!(stats.insertions, zero());
    assert_eq!(stats.deletions, zero());
}

#[test]
fn line_with_five_fields_gives_no_row() {
    assert_eq!(summarize_line("q1 100 0 50 +"), Outcome::Skipped);
}

#[test]
fn line_without_tagged_field_gives_no_row() {
    let line = "q1\t100\t0\t50\t+\tt1\t200\t10\t60\t50\t50\t60\ttp:A:P\tNM:i:0";
    assert_eq!(summarize_line(line), Outcome::Skipped);
}

#[test]
fn unknown_letter_is_passed_over() {
    let stats = compute_counts("5=3N2X").unwrap();
    assert_eq!(stats.matches, KindStats { total: 5, count: 1, longest: 5, shortest: 5 });
    assert_eq!(stats.mismatches, KindStats { total: 2, count: 1, longest: 2, shortest: 2 });
    assert_eq!(stats.insertions, zero());
    assert_eq!(stats.deletions, zero());
}

#[test]
fn average_is_total_over_count() {
    let stats = compute_counts("1=2=4=1D2D").unwrap();
    assert!((average(&stats.matches) - 7.0 / 3.0).abs() < 1e-9);
    assert!((average(&stats.deletions) - 1.5).abs() < 1e-9);
    assert_eq!(average(&stats.insertions), 0.0);
    assert_eq!(format!("{:.2}", average(&stats.matches)), "2.33");
}
