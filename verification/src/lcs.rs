//! Longest Common Subsequence over token sequences.
//!
//! `lcs_len` is the classic LCS length; `spec_lcs` pins down the one common
//! subsequence that the standard dynamic-programming backtracking yields
//! under a fixed tie-break (on equal scores, step along the original axis),
//! so that diff output is reproducible for identical inputs.

use vstd::prelude::*;

verus! {

/// Length of the longest common subsequence of `a` and `b`.
pub open spec fn lcs_len(a: Seq<Seq<char>>, b: Seq<Seq<char>>) -> nat
    decreases a.len() + b.len(),
{
    if a.len() == 0 || b.len() == 0 {
        0
    } else if a.last() == b.last() {
        1 + lcs_len(a.drop_last(), b.drop_last())
    } else {
        let x = lcs_len(a.drop_last(), b);
        let y = lcs_len(a, b.drop_last());
        if x >= y {
            x
        } else {
            y
        }
    }
}

pub proof fn lemma_lcs_len_bound(a: Seq<Seq<char>>, b: Seq<Seq<char>>)
    ensures
        lcs_len(a, b) <= a.len(),
        lcs_len(a, b) <= b.len(),
    decreases a.len() + b.len(),
{
    if a.len() == 0 || b.len() == 0 {
    } else if a.last() == b.last() {
        lemma_lcs_len_bound(a.drop_last(), b.drop_last());
    } else {
        lemma_lcs_len_bound(a.drop_last(), b);
        lemma_lcs_len_bound(a, b.drop_last());
    }
}

/// The LCS length is symmetric in its arguments.
pub proof fn lemma_lcs_len_comm(a: Seq<Seq<char>>, b: Seq<Seq<char>>)
    ensures
        lcs_len(a, b) == lcs_len(b, a),
    decreases a.len() + b.len(),
{
    if a.len() == 0 || b.len() == 0 {
    } else if a.last() == b.last() {
        lemma_lcs_len_comm(a.drop_last(), b.drop_last());
    } else {
        lemma_lcs_len_comm(a.drop_last(), b);
        lemma_lcs_len_comm(a, b.drop_last());
    }
}

/// A sequence is a full-length common subsequence of itself.
pub proof fn lemma_lcs_len_self(a: Seq<Seq<char>>)
    ensures
        lcs_len(a, a) == a.len(),
    decreases a.len(),
{
    if a.len() > 0 {
        lemma_lcs_len_self(a.drop_last());
    }
}

/// The common subsequence that backtracking over the DP table yields:
/// matching last tokens are taken; otherwise the walk steps along the
/// original axis, preferring it on equal scores, so that diff output is
/// reproducible.
pub open spec fn spec_lcs(a: Seq<Seq<char>>, b: Seq<Seq<char>>) -> Seq<Seq<char>>
    decreases a.len() + b.len(),
{
    if a.len() == 0 || b.len() == 0 {
        Seq::empty()
    } else if a.last() == b.last() {
        spec_lcs(a.drop_last(), b.drop_last()).push(a.last())
    } else if lcs_len(a.drop_last(), b) >= lcs_len(a, b.drop_last()) {
        spec_lcs(a.drop_last(), b)
    } else {
        spec_lcs(a, b.drop_last())
    }
}

/// The backtracked subsequence has exactly the LCS length.
pub proof fn lemma_spec_lcs_len(a: Seq<Seq<char>>, b: Seq<Seq<char>>)
    ensures
        spec_lcs(a, b).len() == lcs_len(a, b),
    decreases a.len() + b.len(),
{
    if a.len() == 0 || b.len() == 0 {
    } else if a.last() == b.last() {
        lemma_spec_lcs_len(a.drop_last(), b.drop_last());
    } else {
        lemma_spec_lcs_len(a.drop_last(), b);
        lemma_spec_lcs_len(a, b.drop_last());
    }
}

/// `x` is a subsequence of `y`: walking `y` left to right and matching each
/// next element of `x` at its first occurrence succeeds.
pub open spec fn is_subseq_of(x: Seq<Seq<char>>, y: Seq<Seq<char>>) -> bool
    decreases y.len(),
{
    if x.len() == 0 {
        true
    } else if y.len() == 0 {
        false
    } else if x[0] == y[0] {
        is_subseq_of(x.drop_first(), y.drop_first())
    } else {
        is_subseq_of(x, y.drop_first())
    }
}

/// Appending the same element on the right preserves the subsequence
/// relation.
pub proof fn lemma_subseq_push(x: Seq<Seq<char>>, y: Seq<Seq<char>>, c: Seq<char>)
    requires
        is_subseq_of(x, y),
    ensures
        is_subseq_of(x.push(c), y.push(c)),
    decreases y.len(),
{
    if x.len() == 0 {
        lemma_subseq_singleton(y, c);
        assert(x.push(c) =~= seq![c]);
    } else {
        assert(y.len() > 0);
        assert(x.push(c)[0] == x[0]);
        assert(y.push(c)[0] == y[0]);
        if x[0] == y[0] {
            lemma_subseq_push(x.drop_first(), y.drop_first(), c);
            assert(x.push(c).drop_first() =~= x.drop_first().push(c));
            assert(y.push(c).drop_first() =~= y.drop_first().push(c));
        } else {
            lemma_subseq_push(x, y.drop_first(), c);
            assert(y.push(c).drop_first() =~= y.drop_first().push(c));
        }
    }
}

proof fn lemma_subseq_singleton(y: Seq<Seq<char>>, c: Seq<char>)
    ensures
        is_subseq_of(seq![c], y.push(c)),
    decreases y.len(),
{
    if y.len() == 0 {
        assert(y.push(c)[0] == c);
        assert(seq![c].drop_first().len() == 0);
        assert(is_subseq_of(seq![c].drop_first(), y.push(c).drop_first()));
    } else {
        assert(y.push(c)[0] == y[0]);
        if c == y[0] {
            assert(seq![c].drop_first().len() == 0);
            assert(is_subseq_of(seq![c].drop_first(), y.push(c).drop_first()));
        } else {
            lemma_subseq_singleton(y.drop_first(), c);
            assert(y.push(c).drop_first() =~= y.drop_first().push(c));
        }
    }
}

/// Appending an element to the right-hand sequence preserves the
/// subsequence relation.
pub proof fn lemma_subseq_extend(x: Seq<Seq<char>>, y: Seq<Seq<char>>, c: Seq<char>)
    requires
        is_subseq_of(x, y),
    ensures
        is_subseq_of(x, y.push(c)),
    decreases y.len(),
{
    if x.len() == 0 {
    } else {
        assert(y.len() > 0);
        assert(y.push(c)[0] == y[0]);
        if x[0] == y[0] {
            lemma_subseq_extend(x.drop_first(), y.drop_first(), c);
            assert(y.push(c).drop_first() =~= y.drop_first().push(c));
        } else {
            lemma_subseq_extend(x, y.drop_first(), c);
            assert(y.push(c).drop_first() =~= y.drop_first().push(c));
        }
    }
}

/// The backtracked LCS is a common subsequence of both inputs.
pub proof fn lemma_spec_lcs_subseq(a: Seq<Seq<char>>, b: Seq<Seq<char>>)
    ensures
        is_subseq_of(spec_lcs(a, b), a),
        is_subseq_of(spec_lcs(a, b), b),
    decreases a.len() + b.len(),
{
    if a.len() == 0 || b.len() == 0 {
    } else if a.last() == b.last() {
        lemma_spec_lcs_subseq(a.drop_last(), b.drop_last());
        lemma_subseq_push(spec_lcs(a.drop_last(), b.drop_last()), a.drop_last(), a.last());
        lemma_subseq_push(spec_lcs(a.drop_last(), b.drop_last()), b.drop_last(), b.last());
        assert(a.drop_last().push(a.last()) =~= a);
        assert(b.drop_last().push(b.last()) =~= b);
    } else if lcs_len(a.drop_last(), b) >= lcs_len(a, b.drop_last()) {
        lemma_spec_lcs_subseq(a.drop_last(), b);
        lemma_subseq_extend(spec_lcs(a.drop_last(), b), a.drop_last(), a.last());
        assert(a.drop_last().push(a.last()) =~= a);
    } else {
        lemma_spec_lcs_subseq(a, b.drop_last());
        lemma_subseq_extend(spec_lcs(a, b.drop_last()), b.drop_last(), b.last());
        assert(b.drop_last().push(b.last()) =~= b);
    }
}

/// LCS of two token sequences by O(m*n) dynamic programming over exact
/// token equality, backtracked under the fixed tie-break of `spec_lcs`.
pub fn compute_lcs(a: &Vec<String>, b: &Vec<String>) -> (l: Vec<String>)
    ensures
        l.deep_view() == spec_lcs(a.deep_view(), b.deep_view()),
{
    let ghost ga = a.deep_view();
    let ghost gb = b.deep_view();
    let m = a.len();
    let n = b.len();

    // dp[i][j] holds the LCS length of the first i tokens of a and the
    // first j tokens of b; each row is built as one initial entry plus n
    // pushed entries, so no count ever exceeds the vector lengths.
    let mut dp: Vec<Vec<usize>> = Vec::new();
    let mut row0: Vec<usize> = Vec::new();
    row0.push(0);
    let mut j: usize = 0;
    while j < n
        invariant
            n == gb.len(),
            j <= n,
            row0@.len() == j + 1,
            forall|q: int| 0 <= q <= j ==> row0@[q] == lcs_len(ga.take(0), gb.take(q)),
        decreases n - j,
    {
        row0.push(0);
        j = j + 1;
    }
    dp.push(row0);

    let mut i: usize = 0;
    while i < m
        invariant
            m == ga.len(),
            n == gb.len(),
            ga == a.deep_view(),
            gb == b.deep_view(),
            i <= m,
            dp@.len() == i + 1,
            forall|p: int| 0 <= p <= i ==> (#[trigger] dp@[p]@).len() == n + 1,
            forall|p: int, q: int|
                0 <= p <= i && 0 <= q <= n ==> #[trigger] dp@[p]@[q] == lcs_len(
                    ga.take(p),
                    gb.take(q),
                ),
        decreases m - i,
    {
        let mut row: Vec<usize> = Vec::new();
        row.push(0);
        let mut j: usize = 0;
        while j < n
            invariant
                m == ga.len(),
                n == gb.len(),
                ga == a.deep_view(),
                gb == b.deep_view(),
                i < m,
                j <= n,
                dp@.len() == i + 1,
                forall|p: int| 0 <= p <= i ==> (#[trigger] dp@[p]@).len() == n + 1,
                forall|p: int, q: int|
                    0 <= p <= i && 0 <= q <= n ==> #[trigger] dp@[p]@[q] == lcs_len(
                        ga.take(p),
                        gb.take(q),
                    ),
                row@.len() == j + 1,
                forall|q: int| 0 <= q <= j ==> row@[q] == lcs_len(ga.take(i + 1), gb.take(q)),
            decreases n - j,
        {
            let v: usize;
            if a[i] == b[j] {
                proof {
                    lemma_lcs_len_bound(ga.take(i as int), gb.take(j as int));
                    assert(ga.take(i + 1).last() == ga[i as int]);
                    assert(ga.take(i + 1).drop_last() =~= ga.take(i as int));
                    assert(gb.take(j + 1).drop_last() =~= gb.take(j as int));
                }
                v = dp[i][j] + 1;
            } else {
                let up = dp[i][j + 1];
                let left = row[j];
                v = if up >= left {
                    up
                } else {
                    left
                };
                proof {
                    assert(ga.take(i + 1).last() == ga[i as int]);
                    assert(gb.take(j + 1).last() == gb[j as int]);
                    assert(ga.take(i + 1).drop_last() =~= ga.take(i as int));
                    assert(gb.take(j + 1).drop_last() =~= gb.take(j as int));
                }
            }
            row.push(v);
            j = j + 1;
        }
        dp.push(row);
        i = i + 1;
    }

    // Backtrack, collecting the subsequence in reverse.
    let mut rev: Vec<String> = Vec::new();
    let mut bi = m;
    let mut bj = n;
    proof {
        assert(ga.take(m as int) =~= ga);
        assert(gb.take(n as int) =~= gb);
        assert(rev.deep_view().reverse().len() == 0);
        assert(spec_lcs(ga, gb) =~= spec_lcs(ga.take(m as int), gb.take(n as int))
            + rev.deep_view().reverse());
    }
    while bi > 0 && bj > 0
        invariant
            m == ga.len(),
            n == gb.len(),
            ga == a.deep_view(),
            gb == b.deep_view(),
            bi <= m,
            bj <= n,
            dp@.len() == m + 1,
            forall|p: int| 0 <= p <= m ==> (#[trigger] dp@[p]@).len() == n + 1,
            forall|p: int, q: int|
                0 <= p <= m && 0 <= q <= n ==> #[trigger] dp@[p]@[q] == lcs_len(
                    ga.take(p),
                    gb.take(q),
                ),
            spec_lcs(ga, gb) == spec_lcs(ga.take(bi as int), gb.take(bj as int))
                + rev.deep_view().reverse(),
        decreases bi + bj,
    {
        let ghost pa = ga.take(bi as int);
        let ghost pb = gb.take(bj as int);
        proof {
            assert(pa.last() == ga[bi - 1]);
            assert(pb.last() == gb[bj - 1]);
            assert(pa.drop_last() =~= ga.take(bi - 1));
            assert(pb.drop_last() =~= gb.take(bj - 1));
        }
        if a[bi - 1] == b[bj - 1] {
            let t = a[bi - 1].clone();
            proof {
                let old_rev = rev.deep_view();
                assert(spec_lcs(pa, pb) == spec_lcs(pa.drop_last(), pb.drop_last()).push(pa.last()));
                assert(old_rev.push(t@).reverse() =~= seq![t@] + old_rev.reverse());
                assert(spec_lcs(pa.drop_last(), pb.drop_last()).push(pa.last()) + old_rev.reverse()
                    =~= spec_lcs(pa.drop_last(), pb.drop_last()) + (seq![t@] + old_rev.reverse()));
            }
            rev.push(t);
            proof {
                assert(rev.deep_view() =~= rev.deep_view().subrange(0, rev.deep_view().len() - 1).push(t@));
            }
            bi = bi - 1;
            bj = bj - 1;
        } else if dp[bi - 1][bj] >= dp[bi][bj - 1] {
            proof {
                assert(spec_lcs(pa, pb) == spec_lcs(pa.drop_last(), pb));
            }
            bi = bi - 1;
        } else {
            proof {
                assert(spec_lcs(pa, pb) == spec_lcs(pa, pb.drop_last()));
            }
            bj = bj - 1;
        }
    }
    proof {
        assert(spec_lcs(ga.take(bi as int), gb.take(bj as int)) =~= Seq::<Seq<char>>::empty());
        assert(spec_lcs(ga, gb) =~= rev.deep_view().reverse());
    }

    let mut l: Vec<String> = Vec::new();
    proof {
        assert(l.deep_view() + rev.deep_view().reverse() =~= rev.deep_view().reverse());
    }
    loop
        invariant
            l.deep_view() + rev.deep_view().reverse() == spec_lcs(ga, gb),
        ensures
            rev.deep_view().len() == 0,
            l.deep_view() + rev.deep_view().reverse() == spec_lcs(ga, gb),
        decreases rev@.len(),
    {
        let ghost old_rev = rev.deep_view();
        let ghost old_l = l.deep_view();
        match rev.pop() {
            Some(t) => {
                proof {
                    assert(old_rev.last() == t@);
                    assert(rev.deep_view() =~= old_rev.drop_last());
                    assert(old_rev.reverse() =~= seq![t@] + old_rev.drop_last().reverse());
                }
                l.push(t);
                proof {
                    assert(l.deep_view() =~= old_l.push(t@));
                    assert(old_l.push(t@) + old_rev.drop_last().reverse() =~= old_l + old_rev.reverse());
                }
            },
            None => {
                break;
            },
        }
    }
    proof {
        assert(l.deep_view() =~= spec_lcs(ga, gb));
    }
    l
}

} // verus!
