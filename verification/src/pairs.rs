//! Enumeration of all unordered pairs of option positions, in
//! index-lexicographic order.

use vstd::prelude::*;

verus! {

/// Number of unordered pairs of distinct positions among `n` options:
/// `n * (n - 1) / 2`.
pub open spec fn spec_pair_count(n: int) -> int {
    n * (n - 1) / 2
}

/// The pairs whose first position is `i`: `(i, i+1), ..., (i, n-1)`.
pub open spec fn spec_row(i: int, n: int) -> Seq<(int, int)> {
    Seq::new((n - i - 1) as nat, |t: int| (i, i + 1 + t))
}

/// The pairs of the first `i` rows, in enumeration order.
pub open spec fn spec_rows_upto(i: int, n: int) -> Seq<(int, int)>
    decreases i,
{
    if i <= 0 {
        Seq::empty()
    } else {
        spec_rows_upto(i - 1, n) + spec_row(i - 1, n)
    }
}

/// Every unordered pair `(i, j)` of distinct positions with
/// `0 <= i < j < n`, in index-lexicographic order.
pub open spec fn spec_pairs(n: int) -> Seq<(int, int)> {
    spec_rows_upto(n, n)
}

/// Strict index-lexicographic order on pairs.
pub open spec fn lex_less(a: (int, int), b: (int, int)) -> bool {
    a.0 < b.0 || (a.0 == b.0 && a.1 < b.1)
}

/// The mathematical reading of an executable pair sequence.
pub open spec fn pairs_view(ps: Seq<(usize, usize)>) -> Seq<(int, int)> {
    ps.map_values(|p: (usize, usize)| (p.0 as int, p.1 as int))
}

proof fn lemma_rows_upto(i: int, n: int)
    requires
        0 <= i <= n,
    ensures
        2 * spec_rows_upto(i, n).len() == i * (2 * n - i - 1),
        forall|k: int|
            0 <= k < spec_rows_upto(i, n).len() ==> {
                let p = #[trigger] spec_rows_upto(i, n)[k];
                0 <= p.0 < i && p.0 < p.1 < n
            },
        forall|k1: int, k2: int|
            0 <= k1 < k2 < spec_rows_upto(i, n).len() ==> lex_less(
                #[trigger] spec_rows_upto(i, n)[k1],
                #[trigger] spec_rows_upto(i, n)[k2],
            ),
        forall|a: int, b: int|
            0 <= a < i && a < b < n ==> spec_rows_upto(i, n).contains((a, b)),
    decreases i,
{
    if i > 0 {
        lemma_rows_upto(i - 1, n);
        let prev = spec_rows_upto(i - 1, n);
        let row = spec_row(i - 1, n);
        let cur = spec_rows_upto(i, n);
        assert(cur == prev + row);
        assert(2 * cur.len() == i * (2 * n - i - 1)) by (nonlinear_arith)
            requires
                2 * prev.len() == (i - 1) * (2 * n - i) && cur.len() == prev.len() + row.len()
                    && row.len() == n - i && 1 <= i <= n,
        ;
        assert forall|a: int, b: int| 0 <= a < i && a < b < n implies cur.contains((a, b)) by {
            if a < i - 1 {
                assert(prev.contains((a, b)));
                let k = choose|k: int| 0 <= k < prev.len() && prev[k] == (a, b);
                assert(cur[k] == (a, b));
            } else {
                let t = b - a - 1;
                assert(row[t] == (a, b));
                assert(cur[prev.len() + t] == (a, b));
            }
        }
    }
}

/// The pair enumeration yields exactly `n * (n - 1) / 2` pairs, each
/// unordered pair of distinct positions exactly once, in strict
/// index-lexicographic order.
pub proof fn lemma_pairs_properties(n: int)
    requires
        0 <= n,
    ensures
        spec_pairs(n).len() == spec_pair_count(n),
        forall|k: int|
            0 <= k < spec_pairs(n).len() ==> {
                let p = #[trigger] spec_pairs(n)[k];
                0 <= p.0 < p.1 < n
            },
        forall|k1: int, k2: int|
            0 <= k1 < k2 < spec_pairs(n).len() ==> lex_less(
                #[trigger] spec_pairs(n)[k1],
                #[trigger] spec_pairs(n)[k2],
            ),
        forall|a: int, b: int| 0 <= a < b < n ==> spec_pairs(n).contains((a, b)),
{
    lemma_rows_upto(n, n);
    assert(2 * spec_pairs(n).len() == n * (n - 1)) by (nonlinear_arith)
        requires
            2 * spec_pairs(n).len() == n * (2 * n - n - 1),
    ;
}

/// Build the whole pair enumeration for `n` options.
pub fn all_pairs(n: usize) -> (pairs: Vec<(usize, usize)>)
    ensures
        pairs_view(pairs@) == spec_pairs(n as int),
{
    let mut pairs: Vec<(usize, usize)> = Vec::new();
    assert(pairs_view(pairs@) =~= spec_rows_upto(0, n as int));
    let mut i: usize = 0;
    while i < n
        invariant
            i <= n,
            pairs_view(pairs@) == spec_rows_upto(i as int, n as int),
        decreases n - i,
    {
        let mut j: usize = i + 1;
        while j < n
            invariant
                i < n,
                i + 1 <= j <= n,
                pairs_view(pairs@) == spec_rows_upto(i as int, n as int) + spec_row(
                    i as int,
                    n as int,
                ).subrange(0, j - i - 1),
            decreases n - j,
        {
            let ghost before = pairs@;
            pairs.push((i, j));
            proof {
                assert(pairs_view(pairs@) =~= pairs_view(before).push((i as int, j as int)));
                assert(pairs_view(pairs@) =~= spec_rows_upto(i as int, n as int) + spec_row(
                    i as int,
                    n as int,
                ).subrange(0, j + 1 - i - 1));
            }
            j = j + 1;
        }
        proof {
            assert(spec_row(i as int, n as int).subrange(0, n - i - 1) =~= spec_row(
                i as int,
                n as int,
            ));
            assert(pairs_view(pairs@) =~= spec_rows_upto(i as int + 1, n as int));
        }
        i = i + 1;
    }
    pairs
}

} // verus!
