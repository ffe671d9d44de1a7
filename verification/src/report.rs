//! The final ranking: every option position with at least one win, ordered
//! by descending win count, equal counts by original input order.

use vstd::prelude::*;
use vstd::seq_lib::group_to_multiset_ensures;

verus! {

/// Rank order on `(position, count)` entries: the greater count comes
/// first; equal counts keep the original input order.
pub open spec fn rank_leq(a: (usize, usize), b: (usize, usize)) -> bool {
    b.1 < a.1 || (a.1 == b.1 && a.0 <= b.0)
}

/// A sequence of entries in rank order.
pub open spec fn spec_ranked(r: Seq<(usize, usize)>) -> bool {
    forall|k1: int, k2: int| 0 <= k1 < k2 < r.len() ==> rank_leq(#[trigger] r[k1], #[trigger] r[k2])
}

/// The entries `(position, count)` of every position with a nonzero
/// count, in position order.
pub open spec fn spec_entries(s: Seq<usize>) -> Seq<(usize, usize)>
    decreases s.len(),
{
    if s.len() == 0 {
        Seq::empty()
    } else {
        let prefix = spec_entries(s.drop_last());
        if s.last() == 0 {
            prefix
        } else {
            prefix.push((((s.len() - 1) as usize), s.last()))
        }
    }
}

/// Entries carry exactly the nonzero counts, at their own positions, in
/// strictly increasing position order.
pub proof fn lemma_entries_properties(s: Seq<usize>)
    requires
        s.len() <= usize::MAX,
    ensures
        forall|k: int|
            0 <= k < spec_entries(s).len() ==> {
                let e = #[trigger] spec_entries(s)[k];
                0 <= e.0 < s.len() && s[e.0 as int] == e.1 && e.1 > 0
            },
        forall|i: int| 0 <= i < s.len() && s[i] > 0 ==> spec_entries(s).contains((i as usize, s[i])),
        forall|k1: int, k2: int|
            0 <= k1 < k2 < spec_entries(s).len() ==> (#[trigger] spec_entries(s)[k1]).0 < (
            #[trigger] spec_entries(s)[k2]).0,
    decreases s.len(),
{
    if s.len() > 0 {
        lemma_entries_properties(s.drop_last());
        let prefix = spec_entries(s.drop_last());
        let cur = spec_entries(s);
        let last_entry = (((s.len() - 1) as usize), s.last());
        assert forall|k: int| 0 <= k < cur.len() implies {
            let e = #[trigger] cur[k];
            0 <= e.0 < s.len() && s[e.0 as int] == e.1 && e.1 > 0
        } by {
            if k < prefix.len() {
                assert(cur[k] == prefix[k]);
                let e = prefix[k];
                assert(0 <= e.0 < s.drop_last().len());
                assert(s.drop_last()[e.0 as int] == s[e.0 as int]);
            } else {
                assert(cur[k] == last_entry);
            }
        }
        assert forall|i: int| 0 <= i < s.len() && s[i] > 0 implies cur.contains(
            (i as usize, s[i]),
        ) by {
            if i < s.len() - 1 {
                assert(s.drop_last()[i] == s[i]);
                assert(prefix.contains((i as usize, s[i])));
                let k = choose|k: int| 0 <= k < prefix.len() && prefix[k] == (i as usize, s[i]);
                assert(cur[k] == (i as usize, s[i]));
            } else {
                assert(s.last() == s[i]);
                assert(cur[cur.len() - 1] == (i as usize, s[i]));
            }
        }
        assert forall|k1: int, k2: int| 0 <= k1 < k2 < cur.len() implies (#[trigger] cur[k1]).0 < (
        #[trigger] cur[k2]).0 by {
            assert(cur[k1] == prefix[k1]);
            if k2 < prefix.len() {
                assert(cur[k2] == prefix[k2]);
            } else {
                assert(cur[k2] == last_entry);
                assert(0 <= prefix[k1].0 < s.drop_last().len());
            }
        }
    }
}

/// The executable rank order test.
fn rank_before(a: (usize, usize), b: (usize, usize)) -> (r: bool)
    ensures
        r == rank_leq(a, b),
{
    b.1 < a.1 || (a.1 == b.1 && a.0 <= b.0)
}

/// The entries of every position with a nonzero count, in position order.
fn entries_of(counts: &Vec<usize>) -> (es: Vec<(usize, usize)>)
    ensures
        es@ == spec_entries(counts@),
{
    let mut es: Vec<(usize, usize)> = Vec::new();
    assert(es@ =~= spec_entries(counts@.take(0)));
    let mut i: usize = 0;
    while i < counts.len()
        invariant
            i <= counts@.len(),
            es@ == spec_entries(counts@.take(i as int)),
        decreases counts@.len() - i,
    {
        proof {
            assert(counts@.take(i + 1).drop_last() =~= counts@.take(i as int));
            assert(counts@.take(i + 1).last() == counts@[i as int]);
        }
        let c = counts[i];
        if c > 0 {
            es.push((i, c));
        }
        i = i + 1;
    }
    proof {
        assert(counts@.take(counts@.len() as int) =~= counts@);
    }
    es
}

/// Insert one entry into an already ranked sequence, keeping it ranked.
fn insert_ranked(out: &mut Vec<(usize, usize)>, e: (usize, usize))
    requires
        spec_ranked(old(out)@),
    ensures
        spec_ranked(final(out)@),
        final(out)@.to_multiset() == old(out)@.to_multiset().insert(e),
{
    let mut p: usize = 0;
    while p < out.len() && rank_before(out[p], e)
        invariant
            p <= out@.len(),
            spec_ranked(out@),
            out == old(out),
            forall|k: int| 0 <= k < p ==> rank_leq(#[trigger] out@[k], e),
        decreases out@.len() - p,
    {
        p = p + 1;
    }
    let ghost before = out@;
    let ghost pos = p as int;
    out.insert(p, e);
    proof {
        broadcast use group_to_multiset_ensures;

        assert(out@ == before.insert(pos, e));
        assert forall|k1: int, k2: int| 0 <= k1 < k2 < out@.len() implies rank_leq(
            #[trigger] out@[k1],
            #[trigger] out@[k2],
        ) by {
            if k1 == pos && k2 > pos {
                assert(!rank_leq(before[pos], e));
                assert(rank_leq(e, before[k2 - 1]));
            } else if k1 < pos && k2 == pos {
                assert(rank_leq(before[k1], e));
            }
        }
    }
}

/// The ranking that the given counts determine: exactly the entries of the
/// positions with at least one win, in rank order.
pub fn ranked_results(counts: &Vec<usize>) -> (r: Vec<(usize, usize)>)
    ensures
        spec_ranked(r@),
        r@.to_multiset() == spec_entries(counts@).to_multiset(),
{
    let es = entries_of(counts);
    let mut out: Vec<(usize, usize)> = Vec::new();
    let mut k: usize = 0;
    proof {
        broadcast use group_to_multiset_ensures;

        assert(es@.take(0) =~= Seq::<(usize, usize)>::empty());
        assert(out@.to_multiset() =~= es@.take(0).to_multiset());
    }
    while k < es.len()
        invariant
            k <= es@.len(),
            spec_ranked(out@),
            out@.to_multiset() == es@.take(k as int).to_multiset(),
        decreases es@.len() - k,
    {
        let e = es[k];
        insert_ranked(&mut out, e);
        proof {
            broadcast use group_to_multiset_ensures;

            assert(es@.take(k + 1) =~= es@.take(k as int).push(e));
        }
        k = k + 1;
    }
    proof {
        assert(es@.take(es@.len() as int) =~= es@);
    }
    out
}

} // verus!
