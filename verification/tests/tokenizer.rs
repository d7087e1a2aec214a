use cigar_stats::{tokenize, CigarError, Kind, Run, Scanner};

fn run(length: i64, kind: Kind) -> Run {
    Run { length, kind }
}

#[test]
fn letters_stand_for_kinds() {
    assert_eq!(Kind::from_letter('='), Some(Kind::Match));
    assert_eq!(Kind::from_letter('X'), Some(Kind::Mismatch));
    assert_eq!(Kind::from_letter('I'), Some(Kind::Insertion));
    assert_eq!(Kind::from_letter('D'), Some(Kind::Deletion));
}

#[test]
fn other_letters_stand_for_no_kind() {
    for c in ['M', 'N', 'S', 'H', 'P', 'x', 'i', 'd', '0', '9', ' ', '\t', ':'] {
        assert_eq!(Kind::from_letter(c), None);
    }
}

#[test]
fn runs_come_out_from_left_to_right() {
    assert_eq!(
        tokenize("10=2X3I5=7D"),
        Ok(vec![
            run(10, Kind::Match),
            run(2, Kind::Mismatch),
            run(3, Kind::Insertion),
            run(5, Kind::Match),
            run(7, Kind::Deletion),
        ])
    );
}

#[test]
fn empty_text_has_no_runs() {
    assert_eq!(tokenize(""), Ok(vec![]));
}

#[test]
fn text_without_runs_has_no_runs() {
    assert_eq!(tokenize("no runs here"), Ok(vec![]));
    assert_eq!(tokenize("=XID"), Ok(vec![]));
    assert_eq!(tokenize("12345"), Ok(vec![]));
    assert_eq!(tokenize("5M3N2S"), Ok(vec![]));
}

#[test]
fn letter_needs_a_digit_directly_before_it() {
    assert_eq!(tokenize("12N="), Ok(vec![]));
    assert_eq!(tokenize("12 ="), Ok(vec![]));
    assert_eq!(tokenize("=5"), Ok(vec![]));
    assert_eq!(tokenize("5=="), Ok(vec![run(5, Kind::Match)]));
    assert_eq!(tokenize("5=X"), Ok(vec![run(5, Kind::Match)]));
}

#[test]
fn run_takes_all_the_digits_before_its_letter() {
    assert_eq!(tokenize("a12b345X"), Ok(vec![run(345, Kind::Mismatch)]));
    assert_eq!(tokenize("1 23I"), Ok(vec![run(23, Kind::Insertion)]));
    assert_eq!(tokenize("abc10=def"), Ok(vec![run(10, Kind::Match)]));
}

#[test]
fn trailing_digits_are_no_run() {
    assert_eq!(tokenize("3=4"), Ok(vec![run(3, Kind::Match)]));
}

#[test]
fn leading_zeros_do_not_count() {
    assert_eq!(tokenize("0005="), Ok(vec![run(5, Kind::Match)]));
    assert_eq!(
        tokenize("0000000000000000000000000000000000000042D"),
        Ok(vec![run(42, Kind::Deletion)])
    );
}

#[test]
fn run_of_length_zero_is_a_run() {
    assert_eq!(tokenize("0="), Ok(vec![run(0, Kind::Match)]));
}

#[test]
fn lower_case_letters_are_no_operations() {
    assert_eq!(tokenize("5x3i2d"), Ok(vec![]));
}

#[test]
fn digits_of_other_scripts_are_no_digits() {
    assert_eq!(tokenize("\u{0663}="), Ok(vec![]));
    assert_eq!(tokenize("\u{ff15}X"), Ok(vec![]));
    assert_eq!(tokenize("5\u{0663}="), Ok(vec![]));
    assert_eq!(tokenize("\u{0663}5="), Ok(vec![run(5, Kind::Match)]));
}

#[test]
fn greatest_length_that_fits_is_read() {
    assert_eq!(tokenize("9223372036854775807="), Ok(vec![run(i64::MAX, Kind::Match)]));
}

#[test]
fn length_that_does_not_fit_fails() {
    assert_eq!(tokenize("9223372036854775808="), Err(CigarError::Overflow));
    assert_eq!(tokenize("5=99999999999999999999X3I"), Err(CigarError::Overflow));
    assert_eq!(tokenize("10000000000000000000000000000000000000000D"), Err(CigarError::Overflow));
}

#[test]
fn number_that_does_not_fit_is_passed_over_where_it_is_no_run() {
    assert_eq!(tokenize("99999999999999999999N5="), Ok(vec![run(5, Kind::Match)]));
    assert_eq!(tokenize("5=99999999999999999999"), Ok(vec![run(5, Kind::Match)]));
}

#[test]
fn scanner_gives_out_a_run_at_its_letter() {
    let mut scanner = Scanner::new();
    assert_eq!(scanner.feed('1'), None);
    assert_eq!(scanner.feed('2'), None);
    assert_eq!(scanner.feed('X'), Some(Ok(run(12, Kind::Mismatch))));
    assert_eq!(scanner.feed('X'), None);
    assert_eq!(scanner.feed('7'), None);
    assert_eq!(scanner.feed(' '), None);
    assert_eq!(scanner.feed('='), None);
    assert_eq!(scanner.feed('3'), None);
    assert_eq!(scanner.feed('D'), Some(Ok(run(3, Kind::Deletion))));
}

#[test]
fn scanner_reports_a_length_that_does_not_fit_and_goes_on() {
    let mut scanner = Scanner::new();
    for c in "9223372036854775808".chars() {
        assert_eq!(scanner.feed(c), None);
    }
    assert_eq!(scanner.feed('I'), Some(Err(CigarError::Overflow)));
    assert_eq!(scanner.feed('4'), None);
    assert_eq!(scanner.feed('I'), Some(Ok(run(4, Kind::Insertion))));
}

#[test]
fn long_text_is_read_in_one_go() {
    let mut text = String::new();
    for i in 0..200_000 {
        text.push_str(&format!("{}", i % 977 + 1));
        text.push(['=', 'X', 'I', 'D'][i % 4]);
    }
    let runs = tokenize(&text).unwrap();
    assert_eq!(runs.len(), 200_000);
    assert_eq!(runs[0], run(1, Kind::Match));
    assert_eq!(runs[199_999], run(199_999 % 977 + 1, Kind::Deletion));
}
