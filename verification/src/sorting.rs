//! Stable sorting by a descending rank, as `sort_by(|a, b| rank(b).cmp(&rank(a)))`
//! orders a vector: higher ranks first, equal ranks in the order they came in.

use vstd::prelude::*;

verus! {

/// Values ordered by an integer rank.
pub trait Ranked: View + Sized {
    /// The rank of a value, by its view.
    spec fn rank(v: Self::V) -> int;

    /// Whether `self` ranks at least as high as `other`.
    fn rank_at_least(&self, other: &Self) -> (r: bool)
        ensures
            r == (Self::rank(self@) >= Self::rank(other@)),
    ;
}

/// The views of the elements of `s`.
pub open spec fn views<T: View>(s: Seq<T>) -> Seq<T::V> {
    s.map_values(|x: T| x@)
}

/// `s` is ordered by descending rank.
pub open spec fn sorted_desc<T: Ranked>(s: Seq<T::V>) -> bool {
    forall|i: int, j: int| 0 <= i < j < s.len() ==> T::rank(s[i]) >= T::rank(s[j])
}

/// The elements of `s` of rank `k`, in their order in `s`.
pub open spec fn rank_class<T: Ranked>(s: Seq<T::V>, k: int) -> Seq<T::V>
    decreases s.len(),
{
    if s.len() == 0 {
        seq![]
    } else if T::rank(s.last()) == k {
        rank_class::<T>(s.drop_last(), k).push(s.last())
    } else {
        rank_class::<T>(s.drop_last(), k)
    }
}

/// `r` is `s` sorted by descending rank, with the elements of equal rank in
/// their order in `s` (what a stable sort gives).
pub open spec fn stable_sorted_desc<T: Ranked>(r: Seq<T::V>, s: Seq<T::V>) -> bool {
    &&& sorted_desc::<T>(r)
    &&& forall|k: int| rank_class::<T>(r, k) == rank_class::<T>(s, k)
}

pub proof fn lemma_rank_class_push<T: Ranked>(s: Seq<T::V>, x: T::V, k: int)
    ensures
        rank_class::<T>(s.push(x), k) == if T::rank(x) == k {
            rank_class::<T>(s, k).push(x)
        } else {
            rank_class::<T>(s, k)
        },
{
    assert(s.push(x).drop_last() =~= s);
}

/// The elements of rank `k` of a concatenation are those of each part.
pub proof fn lemma_rank_class_add<T: Ranked>(a: Seq<T::V>, b: Seq<T::V>, k: int)
    ensures
        rank_class::<T>(a + b, k) == rank_class::<T>(a, k) + rank_class::<T>(b, k),
    decreases b.len(),
{
    if b.len() == 0 {
        assert(a + b =~= a);
        assert(rank_class::<T>(a, k) + rank_class::<T>(b, k) =~= rank_class::<T>(a, k));
    } else {
        lemma_rank_class_add::<T>(a, b.drop_last(), k);
        assert((a + b).drop_last() =~= a + b.drop_last());
        assert((a + b).last() == b.last());
        if T::rank(b.last()) == k {
            assert(rank_class::<T>(a, k) + rank_class::<T>(b.drop_last(), k).push(b.last())
                =~= (rank_class::<T>(a, k) + rank_class::<T>(b.drop_last(), k)).push(b.last()));
        }
    }
}

/// No element of rank `k`: nothing in the class.
pub proof fn lemma_rank_class_none<T: Ranked>(s: Seq<T::V>, k: int)
    requires
        forall|i: int| 0 <= i < s.len() ==> T::rank(#[trigger] s[i]) != k,
    ensures
        rank_class::<T>(s, k) == Seq::<T::V>::empty(),
    decreases s.len(),
{
    if s.len() > 0 {
        assert(T::rank(s[s.len() - 1]) != k);
        lemma_rank_class_none::<T>(s.drop_last(), k);
    }
}

/// Every element of the class of `k` has rank `k`, and it has no more
/// elements than `s`.
pub proof fn lemma_rank_class_members<T: Ranked>(s: Seq<T::V>, k: int)
    ensures
        rank_class::<T>(s, k).len() <= s.len(),
        forall|i: int|
            0 <= i < rank_class::<T>(s, k).len() ==> T::rank(#[trigger] rank_class::<T>(s, k)[i])
                == k,
    decreases s.len(),
{
    if s.len() > 0 {
        lemma_rank_class_members::<T>(s.drop_last(), k);
    }
}

proof fn lemma_views_insert<T: View>(s: Seq<T>, p: int, x: T)
    requires
        0 <= p <= s.len(),
    ensures
        views(s.insert(p, x)) == views(s).take(p) + seq![x@] + views(s).skip(p),
{
    assert(views(s.insert(p, x)) =~= views(s).take(p) + seq![x@] + views(s).skip(p));
}

/// Sorts `v` by descending rank, keeping equal ranks in the order they came in.
pub fn stable_sort_desc<T: Ranked>(v: Vec<T>) -> (r: Vec<T>)
    ensures
        stable_sorted_desc::<T>(views(r@), views(v@)),
        r@.len() == v@.len(),
{
    let ghost orig = views(v@);
    let mut rest = v;
    let mut out: Vec<T> = Vec::new();
    let ghost mut n: int = 0;
    assert(views(rest@) =~= orig.skip(0));
    while rest.len() > 0
        invariant
            0 <= n <= orig.len(),
            views(rest@) == orig.skip(n),
            out@.len() == n,
            sorted_desc::<T>(views(out@)),
            forall|k: int| rank_class::<T>(views(out@), k) == rank_class::<T>(orig.take(n), k),
        decreases rest@.len(),
    {
        let ghost rest_before = rest@;
        let x = rest.remove(0);
        assert(x@ == orig[n]) by {
            assert(x == rest_before[0]);
            assert(views(rest_before)[0] == rest_before[0]@);
            assert(views(rest_before).len() == orig.skip(n).len());
            assert(views(rest_before)[0] == orig.skip(n)[0]);
        }
        assert(n < orig.len()) by {
            assert(views(rest_before).len() == rest_before.len());
        }
        let ghost before = views(out@);
        let ghost out_before = out@;
        // First position whose element ranks strictly lower than `x`.
        let mut p: usize = 0;
        while p < out.len() && out[p].rank_at_least(&x)
            invariant
                p <= out@.len(),
                before == views(out@),
                forall|i: int| 0 <= i < p ==> T::rank(#[trigger] before[i]) >= T::rank(x@),
            decreases out@.len() - p,
        {
            p = p + 1;
        }
        proof {
            assert forall|i: int| p <= i < before.len() implies T::rank(#[trigger] before[i])
                < T::rank(x@) by {
                if p < before.len() {
                    assert(T::rank(before[p as int]) < T::rank(x@));
                    if i > p {
                        assert(T::rank(before[p as int]) >= T::rank(before[i]));
                    }
                }
            }
        }
        out.insert(p, x);
        proof {
            let after = views(out@);
            lemma_views_insert(out_before, p as int, x);
            assert(after =~= before.take(p as int) + seq![x@] + before.skip(p as int));
            assert forall|i: int, j: int| 0 <= i < j < after.len() implies T::rank(after[i])
                >= T::rank(after[j]) by {
                if j < p {
                    assert(after[i] == before[i] && after[j] == before[j]);
                } else if j == p {
                    assert(after[i] == before[i]);
                } else if i < p {
                    assert(after[i] == before[i] && after[j] == before[j - 1]);
                } else if i == p {
                    assert(after[j] == before[j - 1]);
                } else {
                    assert(after[i] == before[i - 1] && after[j] == before[j - 1]);
                }
            }
            assert(orig.take(n + 1) =~= orig.take(n).push(x@));
            assert forall|k: int| rank_class::<T>(after, k) == rank_class::<T>(
                orig.take(n + 1),
                k,
            ) by {
                let pre = before.take(p as int);
                let post = before.skip(p as int);
                assert(before =~= pre + post);
                lemma_rank_class_add::<T>(pre, post, k);
                lemma_rank_class_add::<T>(pre + seq![x@], post, k);
                lemma_rank_class_push::<T>(pre, x@, k);
                assert(pre.push(x@) =~= pre + seq![x@]);
                lemma_rank_class_push::<T>(orig.take(n), x@, k);
                if T::rank(x@) == k {
                    assert forall|i: int| 0 <= i < post.len() implies T::rank(#[trigger] post[i])
                        != k by {
                        assert(post[i] == before[p + i]);
                    }
                    lemma_rank_class_none::<T>(post, k);
                    assert(rank_class::<T>(pre, k).push(x@) + rank_class::<T>(post, k)
                        =~= (rank_class::<T>(pre, k) + rank_class::<T>(post, k)).push(x@));
                }
            }
            n = n + 1;
            assert(views(rest@) =~= orig.skip(n)) by {
                assert(views(rest@) =~= views(rest_before).skip(1));
            }
        }
    }
    assert(orig.take(n) =~= orig);
    out
}

} // verus!
