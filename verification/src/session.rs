//! One ranking session: the fixed option labels, the full pair
//! enumeration, the decisions collected so far, and the running tally.

use vstd::prelude::*;

use crate::choice::{parse_choice, spec_classify, trim_of, Choice};
use crate::pairs::{all_pairs, lemma_pairs_properties, pairs_view, spec_pair_count, spec_pairs};
use crate::report::{ranked_results, spec_entries, spec_ranked};
use crate::tally::{spec_sum, Tally};

verus! {

/// The position that a recorded choice gives the win to: code `1` picks
/// the pair's first position, code `2` its second.
pub open spec fn winner_of(p: (int, int), code: u8) -> int {
    if code == 1 {
        p.0
    } else {
        p.1
    }
}

/// How many of the first `upto` decisions option `i` has won.
pub open spec fn spec_wins(ps: Seq<(int, int)>, cs: Seq<u8>, i: int, upto: int) -> int
    decreases upto,
{
    if upto <= 0 {
        0
    } else {
        spec_wins(ps, cs, i, upto - 1) + if winner_of(ps[upto - 1], cs[upto - 1]) == i {
            1int
        } else {
            0int
        }
    }
}

proof fn lemma_wins_bounds(ps: Seq<(int, int)>, cs: Seq<u8>, i: int, upto: int)
    ensures
        0 <= spec_wins(ps, cs, i, upto) <= if upto >= 0 {
            upto
        } else {
            0
        },
    decreases upto,
{
    if upto > 0 {
        lemma_wins_bounds(ps, cs, i, upto - 1);
    }
}

proof fn lemma_wins_push(ps: Seq<(int, int)>, cs: Seq<u8>, code: u8, i: int, upto: int)
    requires
        0 <= upto <= cs.len(),
    ensures
        spec_wins(ps, cs.push(code), i, upto) == spec_wins(ps, cs, i, upto),
    decreases upto,
{
    if upto > 0 {
        lemma_wins_push(ps, cs, code, i, upto - 1);
        assert(cs.push(code)[upto - 1] == cs[upto - 1]);
    }
}

/// A pairwise-comparison session over a fixed list of option labels.
pub struct Session {
    options: Vec<String>,
    pairs: Vec<(usize, usize)>,
    choices: Vec<u8>,
    tally: Tally,
}

impl Session {
    /// The option labels, in input order.
    pub closed spec fn options(&self) -> Seq<String> {
        self.options@
    }

    /// How many options were loaded.
    pub closed spec fn n_options(&self) -> int {
        self.options@.len() as int
    }

    /// How many pairs there are to decide in all.
    pub closed spec fn total(&self) -> int {
        self.pairs@.len() as int
    }

    /// How many pairs have been decided so far.
    pub closed spec fn decided(&self) -> int {
        self.choices@.len() as int
    }

    /// The decisions recorded so far, each `1` or `2`.
    pub closed spec fn choices(&self) -> Seq<u8> {
        self.choices@
    }

    /// The win count of each option position.
    pub closed spec fn tally(&self) -> Seq<usize> {
        self.tally@
    }

    /// Internal consistency: the pair list is the full enumeration for the
    /// loaded options, every recorded choice is `1` or `2`, each tally
    /// entry counts exactly the decisions its option has won, and the
    /// counts sum to the number of decisions made.
    pub closed spec fn wf(&self) -> bool {
        &&& pairs_view(self.pairs@) == spec_pairs(self.n_options())
        &&& self.choices@.len() <= self.pairs@.len()
        &&& self.tally@.len() == self.options@.len()
        &&& (forall|k: int|
            0 <= k < self.choices@.len() ==> self.choices@[k] == 1 || #[trigger] self.choices@[k]
                == 2)
        &&& (forall|i: int|
            0 <= i < self.tally@.len() ==> #[trigger] self.tally@[i] == spec_wins(
                spec_pairs(self.n_options()),
                self.choices@,
                i,
                self.choices@.len() as int,
            ))
        &&& spec_sum(self.tally@) == self.choices@.len()
    }

    /// What well-formedness guarantees, stated over the public view: the
    /// number of decisions never exceeds the pair total `n * (n - 1) / 2`,
    /// each tally entry counts its option's wins, and the tally sums to
    /// the decisions made.
    pub proof fn lemma_invariant(&self)
        requires
            self.wf(),
        ensures
            0 <= self.decided() <= self.total(),
            self.decided() == self.choices().len(),
            self.total() == spec_pairs(self.n_options()).len(),
            self.total() == spec_pair_count(self.n_options()),
            self.tally().len() == self.n_options(),
            forall|k: int|
                0 <= k < self.decided() ==> self.choices()[k] == 1 || #[trigger] self.choices()[k]
                    == 2,
            forall|i: int|
                0 <= i < self.n_options() ==> #[trigger] self.tally()[i] == spec_wins(
                    spec_pairs(self.n_options()),
                    self.choices(),
                    i,
                    self.decided(),
                ),
            spec_sum(self.tally()) == self.decided(),
    {
        lemma_pairs_properties(self.n_options());
    }

    /// Start a session over the given option labels: the full pair
    /// enumeration, no decisions yet, every count zero.
    pub fn new(options: Vec<String>) -> (s: Session)
        ensures
            s.wf(),
            s.options() == options@,
            s.n_options() == options@.len(),
            s.decided() == 0,
            s.tally().len() == options@.len(),
            forall|i: int| 0 <= i < options@.len() ==> #[trigger] s.tally()[i] == 0,
    {
        let n = options.len();
        let pairs = all_pairs(n);
        let tally = Tally::new(n);
        Session { options, pairs, choices: Vec::new(), tally }
    }

    /// The total number of pairs to decide.
    pub fn total_pairs(&self) -> (t: usize)
        ensures
            t == self.total(),
    {
        self.pairs.len()
    }

    /// How many pairs have been decided.
    pub fn decided_count(&self) -> (d: usize)
        ensures
            d == self.decided(),
    {
        self.choices.len()
    }

    /// How many options were loaded.
    pub fn options_len(&self) -> (n: usize)
        ensures
            n == self.n_options(),
    {
        self.options.len()
    }

    /// One option label.
    pub fn option_at(&self, i: usize) -> (label: &String)
        requires
            i < self.n_options(),
        ensures
            *label == self.options()[i as int],
    {
        &self.options[i]
    }

    /// Whether every pair has been decided.
    pub fn is_done(&self) -> (done: bool)
        ensures
            done == (self.decided() == self.total()),
    {
        self.choices.len() == self.pairs.len()
    }

    /// The next undecided pair of option positions, if any.
    pub fn current_pair(&self) -> (p: Option<(usize, usize)>)
        requires
            self.wf(),
        ensures
            match p {
                Some(q) => self.decided() < self.total() && (q.0 as int, q.1 as int) == spec_pairs(
                    self.n_options(),
                )[self.decided()] && q.0 < q.1 < self.n_options(),
                None => self.decided() == self.total(),
            },
    {
        if self.choices.len() < self.pairs.len() {
            let q = self.pairs[self.choices.len()];
            proof {
                lemma_pairs_properties(self.n_options());
                assert(pairs_view(self.pairs@)[self.decided()] == (q.0 as int, q.1 as int));
            }
            Some(q)
        } else {
            None
        }
    }

    /// The recorded decision for an already-decided pair, as the tuple the
    /// export sink takes: both positions and the winning code, `1` or `2`.
    pub fn decision_row(&self, k: usize) -> (row: ((usize, usize), u8))
        requires
            self.wf(),
            k < self.decided(),
        ensures
            (row.0.0 as int, row.0.1 as int) == spec_pairs(self.n_options())[k as int],
            row.1 == self.choices()[k as int],
    {
        proof {
            assert(pairs_view(self.pairs@)[k as int] == (
                self.pairs@[k as int].0 as int,
                self.pairs@[k as int].1 as int,
            ));
        }
        (self.pairs[k], self.choices[k])
    }

    /// The current tally row, indexed by option position.
    pub fn tally_counts(&self) -> (counts: &Vec<usize>)
        ensures
            counts@ == self.tally(),
    {
        self.tally.counts()
    }

    /// Apply one line of input to the next undecided pair. After trimming,
    /// `"1"` gives the pair's first option the win and `"2"` its second;
    /// any other line decides nothing, and the same pair stays current.
    pub fn submit(&mut self, input: &str) -> (c: Choice)
        requires
            old(self).wf(),
            old(self).decided() < old(self).total(),
        ensures
            final(self).wf(),
            c == spec_classify(trim_of(input@)),
            final(self).options() == old(self).options(),
            final(self).n_options() == old(self).n_options(),
            final(self).total() == old(self).total(),
            final(self).decided() == old(self).decided() + (if c == Choice::Invalid {
                0int
            } else {
                1int
            }),
            c == Choice::Invalid ==> final(self).choices() == old(self).choices()
                && final(self).tally() == old(self).tally(),
            c == Choice::First ==> final(self).choices() == old(self).choices().push(1u8),
            c == Choice::Second ==> final(self).choices() == old(self).choices().push(2u8),
            c != Choice::Invalid ==> ({
                let p = spec_pairs(old(self).n_options())[old(self).decided()];
                let w = winner_of(
                    p,
                    if c == Choice::First {
                        1u8
                    } else {
                        2u8
                    },
                );
                final(self).tally() == old(self).tally().update(
                    w,
                    (old(self).tally()[w] + 1) as usize,
                )
            }),
    {
        let c = parse_choice(input);
        match c {
            Choice::Invalid => c,
            _ => {
                let k = self.choices.len();
                let total = self.pairs.len();
                let pair = self.pairs[k];
                let code: u8 = if matches!(c, Choice::First) {
                    1
                } else {
                    2
                };
                let winner = if code == 1 {
                    pair.0
                } else {
                    pair.1
                };
                let ghost n = self.n_options();
                let ghost ps = spec_pairs(n);
                let ghost cs = self.choices@;
                proof {
                    lemma_pairs_properties(n);
                    assert(pairs_view(self.pairs@)[k as int] == (pair.0 as int, pair.1 as int));
                    assert(winner as int == winner_of(ps[k as int], code));
                    assert(0 <= winner < self.tally@.len());
                    lemma_wins_bounds(ps, cs, winner as int, k as int);
                    assert(k < total);
                    assert(self.tally@[winner as int] < usize::MAX);
                }
                self.tally.record(winner);
                self.choices.push(code);
                proof {
                    let d = k as int;
                    assert forall|i: int| 0 <= i < self.tally@.len() implies #[trigger] self
                        .tally@[i] == spec_wins(ps, self.choices@, i, d + 1) by {
                        lemma_wins_push(ps, cs, code, i, d);
                        assert(self.choices@[d] == code);
                        assert(spec_wins(ps, self.choices@, i, d + 1) == spec_wins(ps, cs, i, d)
                            + if winner_of(ps[d], code) == i {
                            1int
                        } else {
                            0int
                        });
                    }
                }
                c
            },
        }
    }

    /// The final ranking: every option position with at least one win,
    /// ordered by descending win count, equal counts by input order.
    pub fn report(&self) -> (r: Vec<(usize, usize)>)
        ensures
            spec_ranked(r@),
            r@.to_multiset() == spec_entries(self.tally()).to_multiset(),
    {
        ranked_results(self.tally.counts())
    }
}

} // verus!
