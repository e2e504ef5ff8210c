use vstd::prelude::*;
use vstd::relations::{sorted_by, total_ordering};
use vstd::seq_lib::lemma_sorted_unique;

verus! {

/// A class id together with the score (0 to 255) that the model gave it.
#[derive(Clone, Copy, Debug, PartialEq, Eq, Structural)]
pub struct InferenceResult(pub usize, pub u8);

/// `a` comes before `b` in a ranking: it has the higher score, or the same
/// score and the smaller class id.
pub open spec fn ranks_before(a: InferenceResult, b: InferenceResult) -> bool {
    a.1 > b.1 || (a.1 == b.1 && a.0 < b.0)
}

/// Class `k` appears somewhere in `res`.
pub open spec fn lists(res: Seq<InferenceResult>, k: int) -> bool {
    exists|j: int| 0 <= j < res.len() && (#[trigger] res[j]).0 == k
}

/// `res` pairs every class of `scores` with its score, once each, ordered by
/// decreasing score and, among equal scores, by increasing class id.
pub open spec fn is_ranking(scores: Seq<u8>, res: Seq<InferenceResult>) -> bool {
    &&& res.len() == scores.len()
    &&& forall|j: int|
        0 <= j < res.len() ==> (#[trigger] res[j]).0 < scores.len() && res[j].1 == scores[res[j].0 as int]
    &&& forall|k: int| 0 <= k < scores.len() ==> #[trigger] lists(res, k)
    &&& forall|a: int, b: int| 0 <= a < b < res.len() ==> ranks_before(res[a], res[b])
}

/// The scores of a ranking, in ranking order.
pub open spec fn score_column(res: Seq<InferenceResult>) -> Seq<u8> {
    res.map_values(|r: InferenceResult| r.1)
}

/// `a` is no smaller than `b`.
pub open spec fn at_least(a: u8, b: u8) -> bool {
    a >= b
}

/// The scores of a ranking are the buffer's scores, as many times each as
/// they occur there, in non-increasing order.
pub proof fn lemma_score_column(scores: Seq<u8>, res: Seq<InferenceResult>)
    requires
        is_ranking(scores, res),
    ensures
        score_column(res).to_multiset() == scores.to_multiset(),
        sorted_by(score_column(res), |a: u8, b: u8| at_least(a, b)),
    decreases scores.len(),
{
    broadcast use vstd::seq_lib::group_to_multiset_ensures;
    broadcast use vstd::multiset::group_multiset_axioms;

    let col = score_column(res);
    assert forall|i: int, j: int| 0 <= i < j < col.len() implies #[trigger] at_least(col[i], col[j]) by {
        assert(ranks_before(res[i], res[j]));
    }
    let n = scores.len() as int;
    if n == 0 {
        assert(col =~= Seq::<u8>::empty());
        assert(scores =~= Seq::<u8>::empty());
    } else {
        assert(lists(res, n - 1));
        let p = choose|p: int| 0 <= p < res.len() && (#[trigger] res[p]).0 == n - 1;
        let shorter = scores.drop_last();
        let rest = res.remove(p);
        assert forall|j: int| 0 <= j < rest.len() implies (#[trigger] rest[j]).0 < shorter.len()
            && rest[j].1 == shorter[rest[j].0 as int] by {
            let k = if j < p { j } else { j + 1 };
            assert(rest[j] == res[k]);
            if res[k].0 == n - 1 {
                if k < p {
                    assert(ranks_before(res[k], res[p]));
                } else {
                    assert(ranks_before(res[p], res[k]));
                }
            }
        }
        assert forall|k: int| 0 <= k < shorter.len() implies #[trigger] lists(rest, k) by {
            assert(lists(res, k));
            let j = choose|j: int| 0 <= j < res.len() && (#[trigger] res[j]).0 == k;
            if j < p {
                assert(rest[j].0 == k);
            } else {
                assert(j != p);
                assert(rest[j - 1].0 == k);
            }
        }
        assert forall|a: int, b: int| 0 <= a < b < rest.len() implies ranks_before(rest[a], rest[b]) by {
            let a2 = if a < p { a } else { a + 1 };
            let b2 = if b < p { b } else { b + 1 };
            assert(rest[a] == res[a2] && rest[b] == res[b2]);
        }
        lemma_score_column(shorter, rest);
        assert(score_column(rest) =~= col.remove(p));
        assert(col.remove(p).to_multiset() =~= col.to_multiset().remove(col[p]));
        assert(col[p] == scores[n - 1]);
        assert(scores =~= shorter.push(scores[n - 1]));
        assert(scores.to_multiset() =~= shorter.to_multiset().insert(scores[n - 1]));
        assert(col.contains(col[p]));
        assert(col.to_multiset() =~= scores.to_multiset());
    }
}

/// Buffers that hold the same scores in any order rank to the same column of
/// scores: the column depends only on which scores occur, not on where.
pub proof fn lemma_permuted_scores_same_column(
    s1: Seq<u8>,
    s2: Seq<u8>,
    r1: Seq<InferenceResult>,
    r2: Seq<InferenceResult>,
)
    requires
        s1.to_multiset() == s2.to_multiset(),
        is_ranking(s1, r1),
        is_ranking(s2, r2),
    ensures
        score_column(r1) == score_column(r2),
{
    lemma_score_column(s1, r1);
    lemma_score_column(s2, r2);
    let leq = |a: u8, b: u8| at_least(a, b);
    assert(total_ordering(leq));
    lemma_sorted_unique(score_column(r1), score_column(r2), leq);
}

/// Class `k` has the highest score, and no class with the same score has a
/// smaller id.
pub open spec fn is_top(scores: Seq<u8>, k: int) -> bool {
    &&& 0 <= k < scores.len()
    &&& forall|m: int|
        0 <= m < scores.len() ==> #[trigger] scores[m] < scores[k] || (scores[m] == scores[k] && k <= m)
}

/// The class that is ranked first.
pub open spec fn top_class(scores: Seq<u8>) -> int {
    choose|k: int| is_top(scores, k)
}

/// Pairs each class id (the position in `buffer`) with its score and orders
/// the pairs by decreasing score; pairs with equal scores keep the order of
/// their ids.
pub fn sort_results(buffer: &[u8]) -> (results: Vec<InferenceResult>)
    ensures
        is_ranking(buffer@, results@),
{
    let n = buffer.len();
    let mut res: Vec<InferenceResult> = Vec::new();
    let mut i: usize = 0;
    while i < n
        invariant
            n == buffer@.len(),
            0 <= i <= n,
            res@.len() == i,
            forall|j: int|
                0 <= j < res@.len() ==> (#[trigger] res@[j]).0 < i && res@[j].1 == buffer@[res@[j].0 as int],
            forall|k: int| 0 <= k < i ==> #[trigger] lists(res@, k),
            forall|a: int, b: int| 0 <= a < b < res@.len() ==> ranks_before(res@[a], res@[b]),
        decreases n - i,
    {
        let score = buffer[i];
        let item = InferenceResult(i, score);
        let mut pos: usize = 0;
        while pos < res.len() && res[pos].1 >= score
            invariant
                0 <= pos <= res@.len(),
                forall|j: int| 0 <= j < pos ==> (#[trigger] res@[j]).1 >= score,
            decreases res@.len() - pos,
        {
            pos = pos + 1;
        }
        let ghost old_res = res@;
        res.insert(pos, item);
        proof {
            let new_res = res@;
            assert(new_res == old_res.insert(pos as int, item));
            assert forall|j: int| 0 <= j < new_res.len() implies (#[trigger] new_res[j]).0 < i + 1
                && new_res[j].1 == buffer@[new_res[j].0 as int] by {
                if j < pos {
                    assert(new_res[j] == old_res[j]);
                } else if j > pos {
                    assert(new_res[j] == old_res[j - 1]);
                }
            }
            assert forall|k: int| 0 <= k < i + 1 implies #[trigger] lists(new_res, k) by {
                if k == i {
                    assert(new_res[pos as int].0 == k);
                } else {
                    assert(lists(old_res, k));
                    let j = choose|j: int| 0 <= j < old_res.len() && (#[trigger] old_res[j]).0 == k;
                    if j < pos {
                        assert(new_res[j].0 == k);
                    } else {
                        assert(new_res[j + 1].0 == k);
                    }
                }
            }
            assert forall|a: int, b: int| 0 <= a < b < new_res.len() implies ranks_before(
                new_res[a],
                new_res[b],
            ) by {
                if pos < old_res.len() {
                    assert(old_res[pos as int].1 < score);
                }
                if a < pos && b < pos {
                    assert(new_res[a] == old_res[a] && new_res[b] == old_res[b]);
                } else if a < pos && b == pos {
                    assert(new_res[a] == old_res[a]);
                } else if a < pos && b > pos {
                    assert(new_res[a] == old_res[a] && new_res[b] == old_res[b - 1]);
                } else if a == pos {
                    assert(new_res[b] == old_res[b - 1]);
                    if b - 1 > pos {
                        assert(ranks_before(old_res[pos as int], old_res[b - 1]));
                    }
                } else {
                    assert(new_res[a] == old_res[a - 1] && new_res[b] == old_res[b - 1]);
                }
            }
        }
        i = i + 1;
    }
    res
}

/// The first entry of a ranking is the class with the highest score, the one
/// with the smallest id among equals.
pub proof fn lemma_ranking_starts_with_top(scores: Seq<u8>, res: Seq<InferenceResult>)
    requires
        is_ranking(scores, res),
        res.len() > 0,
    ensures
        is_top(scores, res[0].0 as int),
        top_class(scores) == res[0].0,
{
    let t = res[0].0 as int;
    assert forall|m: int| 0 <= m < scores.len() implies #[trigger] scores[m] < scores[t] || (scores[m]
        == scores[t] && t <= m) by {
        assert(lists(res, m));
        let j = choose|j: int| 0 <= j < res.len() && (#[trigger] res[j]).0 == m;
        if j > 0 {
            assert(ranks_before(res[0], res[j]));
        }
    }
    assert(is_top(scores, t));
    lemma_top_unique(scores, top_class(scores), t);
}

/// Every non-empty set of scores has a top class, and `top_class` names it.
pub proof fn lemma_top_class_exists(scores: Seq<u8>)
    requires
        scores.len() > 0,
    ensures
        is_top(scores, top_class(scores)),
{
    let k = top_of_prefix(scores, scores.len() as int);
    lemma_top_of_prefix(scores, scores.len() as int);
    assert(is_top(scores, k));
}

/// The best class among the first `n` scores.
spec fn top_of_prefix(scores: Seq<u8>, n: int) -> int
    decreases n,
{
    if n <= 1 {
        0
    } else {
        let t = top_of_prefix(scores, n - 1);
        if scores[n - 1] > scores[t] { n - 1 } else { t }
    }
}

proof fn lemma_top_of_prefix(scores: Seq<u8>, n: int)
    requires
        0 < n <= scores.len(),
    ensures
        0 <= top_of_prefix(scores, n) < n,
        forall|m: int|
            0 <= m < n ==> #[trigger] scores[m] < scores[top_of_prefix(scores, n)] || (scores[m]
                == scores[top_of_prefix(scores, n)] && top_of_prefix(scores, n) <= m),
    decreases n,
{
    if n > 1 {
        lemma_top_of_prefix(scores, n - 1);
    }
}

/// At most one class is the top class.
pub proof fn lemma_top_unique(scores: Seq<u8>, k1: int, k2: int)
    requires
        is_top(scores, k1),
        is_top(scores, k2),
    ensures
        k1 == k2,
{
    assert(scores[k1] <= scores[k2] && scores[k2] <= scores[k1]);
}

/// A set of scores has exactly one ranking: any two rankings of the same
/// scores are equal.
pub proof fn lemma_ranking_unique(scores: Seq<u8>, r1: Seq<InferenceResult>, r2: Seq<InferenceResult>)
    requires
        is_ranking(scores, r1),
        is_ranking(scores, r2),
    ensures
        r1 == r2,
{
    assert forall|j: int| 0 <= j < r1.len() implies r1[j] == r2[j] by {
        lemma_ranking_agree_upto(scores, r1, r2, j);
    }
    assert(r1 =~= r2);
}

proof fn lemma_ranking_agree_upto(scores: Seq<u8>, r1: Seq<InferenceResult>, r2: Seq<InferenceResult>, j: int)
    requires
        is_ranking(scores, r1),
        is_ranking(scores, r2),
        0 <= j < r1.len(),
    ensures
        r1[j] == r2[j],
    decreases j,
{
    assert forall|p: int| 0 <= p < j implies r1[p] == r2[p] by {
        lemma_ranking_agree_upto(scores, r1, r2, p);
    }
    let x = r1[j];
    let y = r2[j];
    if x != y {
        assert(lists(r2, x.0 as int));
        let p = choose|p: int| 0 <= p < r2.len() && (#[trigger] r2[p]).0 == x.0;
        assert(r2[p] == x);
        if p < j {
            assert(r1[p] == r2[p]);
            assert(ranks_before(r1[p], r1[j]));
        }
        assert(p != j);
        assert(ranks_before(y, x));
        assert(lists(r1, y.0 as int));
        let q = choose|q: int| 0 <= q < r1.len() && (#[trigger] r1[q]).0 == y.0;
        assert(r1[q] == y);
        if q < j {
            assert(r1[q] == r2[q]);
            assert(ranks_before(r2[q], r2[j]));
        }
        assert(q != j);
        assert(ranks_before(x, y));
    }
}

} // verus!
