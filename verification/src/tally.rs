//! Win counts, one per option position, incremented once per decision.

use vstd::prelude::*;

verus! {

/// Sum of a sequence of counts.
pub open spec fn spec_sum(s: Seq<usize>) -> int
    decreases s.len(),
{
    if s.len() == 0 {
        0
    } else {
        spec_sum(s.drop_last()) + s.last()
    }
}

/// Replacing one count changes the sum by the difference.
pub proof fn lemma_sum_update(s: Seq<usize>, i: int, v: usize)
    requires
        0 <= i < s.len(),
    ensures
        spec_sum(s.update(i, v)) == spec_sum(s) - s[i] + v,
    decreases s.len(),
{
    let t = s.update(i, v);
    if i == s.len() - 1 {
        assert(t.drop_last() =~= s.drop_last());
    } else {
        assert(t.drop_last() =~= s.drop_last().update(i, v));
        lemma_sum_update(s.drop_last(), i, v);
    }
}

/// Mapping from option position to accumulated win count.
pub struct Tally {
    counts: Vec<usize>,
}

impl View for Tally {
    type V = Seq<usize>;

    closed spec fn view(&self) -> Seq<usize> {
        self.counts@
    }
}

impl Tally {
    /// A fresh tally for `n` options, every count zero.
    pub fn new(n: usize) -> (t: Tally)
        ensures
            t@.len() == n,
            forall|i: int| 0 <= i < n ==> t@[i] == 0,
            spec_sum(t@) == 0,
    {
        let mut counts: Vec<usize> = Vec::new();
        let mut i: usize = 0;
        while i < n
            invariant
                i <= n,
                counts@.len() == i,
                forall|k: int| 0 <= k < i ==> counts@[k] == 0,
                spec_sum(counts@) == 0,
            decreases n - i,
        {
            let ghost before = counts@;
            counts.push(0);
            proof {
                assert(counts@.drop_last() =~= before);
            }
            i = i + 1;
        }
        Tally { counts }
    }

    /// How many options the tally covers.
    pub fn len(&self) -> (n: usize)
        ensures
            n == self@.len(),
    {
        self.counts.len()
    }

    /// The current win count of one option.
    pub fn count_of(&self, i: usize) -> (c: usize)
        requires
            i < self@.len(),
        ensures
            c == self@[i as int],
    {
        self.counts[i]
    }

    /// The whole row of counts, indexed by option position.
    pub fn counts(&self) -> (r: &Vec<usize>)
        ensures
            r@ == self@,
    {
        &self.counts
    }

    /// Record one win: the winner's count grows by one, every other count
    /// stays, and so the sum of all counts grows by exactly one.
    pub fn record(&mut self, winner: usize)
        requires
            winner < old(self)@.len(),
            old(self)@[winner as int] < usize::MAX,
        ensures
            final(self)@ == old(self)@.update(
                winner as int,
                (old(self)@[winner as int] + 1) as usize,
            ),
            spec_sum(final(self)@) == spec_sum(old(self)@) + 1,
    {
        proof {
            lemma_sum_update(self@, winner as int, (self@[winner as int] + 1) as usize);
        }
        let c = self.counts[winner];
        self.counts.set(winner, c + 1);
    }
}

} // verus!
