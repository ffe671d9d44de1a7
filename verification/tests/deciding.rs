use rank_choices::choice::{classify_trimmed, parse_choice, Choice};
use rank_choices::report::ranked_results;
use rank_choices::tally::Tally;

#[test]
fn input_one_picks_the_first_option() {
    assert_eq!(parse_choice("1"), Choice::First);
    assert_eq!(classify_trimmed("1"), Choice::First);
}

#[test]
fn input_two_picks_the_second_option() {
    assert_eq!(parse_choice("2"), Choice::Second);
    assert_eq!(classify_trimmed("2"), Choice::Second);
}

#[test]
fn input_is_trimmed_before_classification() {
    assert_eq!(parse_choice(" 1 "), Choice::First);
    assert_eq!(parse_choice("2\n"), Choice::Second);
    assert_eq!(parse_choice("\t1\r\n"), Choice::First);
}

#[test]
fn other_input_is_invalid() {
    assert_eq!(parse_choice("3"), Choice::Invalid);
    assert_eq!(parse_choice(""), Choice::Invalid);
    assert_eq!(parse_choice("x"), Choice::Invalid);
    assert_eq!(parse_choice("12"), Choice::Invalid);
    assert_eq!(parse_choice("one"), Choice::Invalid);
    assert_eq!(parse_choice(" "), Choice::Invalid);
}

#[test]
fn tally_counts_each_win() {
    // Recording wins [A, B, A, A] yields {A: 3, B: 1}.
    let mut tally = Tally::new(2);
    tally.record(0);
    tally.record(1);
    tally.record(0);
    tally.record(0);
    assert_eq!(tally.count_of(0), 3);
    assert_eq!(tally.count_of(1), 1);
    let sum: usize = tally.counts().iter().sum();
    assert_eq!(sum, 4);
}

#[test]
fn tally_starts_at_zero() {
    let tally = Tally::new(3);
    assert_eq!(tally.len(), 3);
    for i in 0..3 {
        assert_eq!(tally.count_of(i), 0);
    }
}

#[test]
fn ranking_sorts_by_count_descending_then_input_order() {
    let counts: Vec<usize> = vec![0, 2, 1, 2];
    assert_eq!(ranked_results(&counts), vec![(1, 2), (3, 2), (2, 1)]);
}

#[test]
fn ranking_omits_options_without_wins() {
    let counts: Vec<usize> = vec![0, 0, 5];
    assert_eq!(ranked_results(&counts), vec![(2, 5)]);
    let empty: Vec<usize> = vec![0, 0, 0];
    assert_eq!(ranked_results(&empty), Vec::<(usize, usize)>::new());
}

#[test]
fn ranking_keeps_input_order_on_full_tie() {
    let counts: Vec<usize> = vec![1, 1, 1];
    assert_eq!(ranked_results(&counts), vec![(0, 1), (1, 1), (2, 1)]);
}
