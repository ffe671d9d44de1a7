use rank_choices::choice::Choice;
use rank_choices::session::Session;

fn options(labels: &[&str]) -> Vec<String> {
    labels.iter().map(|l| l.to_string()).collect()
}

#[test]
fn tied_three_way_scenario() {
    // Pizza beats Sushi, Tacos beats Pizza, Sushi beats Tacos:
    // every option wins exactly once and the report shows a full tie.
    let mut session = Session::new(options(&["Pizza", "Sushi", "Tacos"]));
    assert_eq!(session.total_pairs(), 3);

    assert_eq!(session.current_pair(), Some((0, 1)));
    assert_eq!(session.submit("1"), Choice::First);
    assert_eq!(session.current_pair(), Some((0, 2)));
    assert_eq!(session.submit("2"), Choice::Second);
    assert_eq!(session.current_pair(), Some((1, 2)));
    assert_eq!(session.submit("1"), Choice::First);

    assert!(session.is_done());
    assert_eq!(session.current_pair(), None);
    assert_eq!(session.tally_counts().as_slice(), &[1, 1, 1]);
    assert_eq!(session.report(), vec![(0, 1), (1, 1), (2, 1)]);
}

#[test]
fn clear_winner_scenario() {
    // Always answering "1" lets the first-listed option win both of its
    // comparisons and top the report with count 2.
    let mut session = Session::new(options(&["A", "B", "C"]));
    while !session.is_done() {
        assert_eq!(session.submit("1"), Choice::First);
    }
    assert_eq!(session.decided_count(), 2 + 1);
    assert_eq!(session.tally_counts().as_slice(), &[2, 1, 0]);
    let report = session.report();
    assert_eq!(report[0], (0, 2));
    assert_eq!(report, vec![(0, 2), (1, 1)]);
}

#[test]
fn invalid_input_keeps_the_same_pair() {
    let mut session = Session::new(options(&["A", "B", "C"]));
    let before = session.current_pair();
    assert_eq!(session.submit("3"), Choice::Invalid);
    assert_eq!(session.submit(""), Choice::Invalid);
    assert_eq!(session.submit("x"), Choice::Invalid);
    assert_eq!(session.decided_count(), 0);
    assert_eq!(session.current_pair(), before);
    assert_eq!(session.tally_counts().as_slice(), &[0, 0, 0]);

    assert_eq!(session.submit("2"), Choice::Second);
    assert_eq!(session.decided_count(), 1);
    assert_eq!(session.current_pair(), Some((0, 2)));
}

#[test]
fn zero_options_edge_case() {
    let session = Session::new(options(&[]));
    assert_eq!(session.total_pairs(), 0);
    assert!(session.is_done());
    assert_eq!(session.current_pair(), None);
    assert_eq!(session.report(), Vec::<(usize, usize)>::new());
}

#[test]
fn one_option_edge_case() {
    let session = Session::new(options(&["only"]));
    assert_eq!(session.total_pairs(), 0);
    assert!(session.is_done());
    assert_eq!(session.current_pair(), None);
    assert_eq!(session.report(), Vec::<(usize, usize)>::new());
}

#[test]
fn decision_rows_feed_the_export_sink() {
    let mut session = Session::new(options(&["A", "B", "C"]));
    session.submit("1");
    session.submit("2");
    session.submit("2");
    assert_eq!(session.decision_row(0), ((0, 1), 1));
    assert_eq!(session.decision_row(1), ((0, 2), 2));
    assert_eq!(session.decision_row(2), ((1, 2), 2));
}

#[test]
fn labels_are_kept_in_input_order() {
    let session = Session::new(options(&["Pizza", "Sushi", "Tacos"]));
    assert_eq!(session.options_len(), 3);
    assert_eq!(session.option_at(0).as_str(), "Pizza");
    assert_eq!(session.option_at(1).as_str(), "Sushi");
    assert_eq!(session.option_at(2).as_str(), "Tacos");
}

#[test]
fn sum_of_tally_equals_decisions_recorded() {
    let mut session = Session::new(options(&["a", "b", "c", "d"]));
    let answers = ["1", "2", "1", "nope", "2", "1", "2"];
    let mut recorded = 0usize;
    for a in answers {
        if session.is_done() {
            break;
        }
        if session.submit(a) != Choice::Invalid {
            recorded += 1;
        }
        let sum: usize = session.tally_counts().iter().sum();
        assert_eq!(sum, recorded);
        assert_eq!(session.decided_count(), recorded);
    }
}
