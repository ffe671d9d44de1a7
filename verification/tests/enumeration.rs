use std::collections::HashSet;

use rank_choices::pairs::all_pairs;

#[test]
fn three_options_enumeration_order() {
    // With options ["A", "B", "C"] the pairs come as (A,B), (A,C), (B,C).
    assert_eq!(all_pairs(3), vec![(0, 1), (0, 2), (1, 2)]);
}

#[test]
fn four_options_enumeration_order() {
    assert_eq!(
        all_pairs(4),
        vec![(0, 1), (0, 2), (0, 3), (1, 2), (1, 3), (2, 3)]
    );
}

#[test]
fn zero_and_one_option_give_no_pairs() {
    assert_eq!(all_pairs(0), Vec::<(usize, usize)>::new());
    assert_eq!(all_pairs(1), Vec::<(usize, usize)>::new());
}

#[test]
fn two_options_give_one_pair() {
    assert_eq!(all_pairs(2), vec![(0, 1)]);
}

#[test]
fn enumeration_is_each_unordered_pair_exactly_once() {
    for n in 0..12usize {
        let pairs = all_pairs(n);
        assert_eq!(pairs.len(), n * n.saturating_sub(1) / 2);
        let distinct: HashSet<(usize, usize)> = pairs.iter().copied().collect();
        assert_eq!(distinct.len(), pairs.len());
        for &(i, j) in &pairs {
            assert!(i < j && j < n);
        }
        for i in 0..n {
            for j in (i + 1)..n {
                assert!(distinct.contains(&(i, j)));
            }
        }
    }
}

#[test]
fn enumeration_is_in_index_lexicographic_order() {
    let pairs = all_pairs(9);
    for w in pairs.windows(2) {
        let (a, b) = (w[0], w[1]);
        assert!(a.0 < b.0 || (a.0 == b.0 && a.1 < b.1));
    }
}
