//! Counting, summing, filtering and first-match search over sequences.
//!
//! The analytics aggregations and the store accessors state their contracts
//! with these spec functions; the lemmas here relate them to the prefix
//! sequences that loop invariants speak about.

use vstd::prelude::*;

verus! {

/// How many elements of `s` satisfy `p`.
pub open spec fn count_where<T>(s: Seq<T>, p: spec_fn(T) -> bool) -> int
    decreases s.len(),
{
    if s.len() == 0 {
        0
    } else {
        count_where(s.drop_last(), p) + if p(s.last()) {
            1int
        } else {
            0int
        }
    }
}

/// The sum of `f` over all elements of `s`.
pub open spec fn sum_of<T>(s: Seq<T>, f: spec_fn(T) -> int) -> int
    decreases s.len(),
{
    if s.len() == 0 {
        0
    } else {
        sum_of(s.drop_last(), f) + f(s.last())
    }
}

/// The elements of `s` that satisfy `p`, in their original order.
pub open spec fn filter_where<T>(s: Seq<T>, p: spec_fn(T) -> bool) -> Seq<T>
    decreases s.len(),
{
    if s.len() == 0 {
        Seq::empty()
    } else if p(s.last()) {
        filter_where(s.drop_last(), p).push(s.last())
    } else {
        filter_where(s.drop_last(), p)
    }
}

/// The first element of `s` that satisfies `p`, if any.
pub open spec fn find_first<T>(s: Seq<T>, p: spec_fn(T) -> bool) -> Option<T>
    decreases s.len(),
{
    if s.len() == 0 {
        None
    } else if p(s[0]) {
        Some(s[0])
    } else {
        find_first(s.skip(1), p)
    }
}

pub proof fn lemma_count_where_take_step<T>(s: Seq<T>, p: spec_fn(T) -> bool, i: int)
    requires
        0 <= i < s.len(),
    ensures
        count_where(s.take(i + 1), p) == count_where(s.take(i), p) + if p(s[i]) {
            1int
        } else {
            0int
        },
{
    assert(s.take(i + 1).drop_last() =~= s.take(i));
    assert(s.take(i + 1).last() == s[i]);
}

pub proof fn lemma_sum_of_take_step<T>(s: Seq<T>, f: spec_fn(T) -> int, i: int)
    requires
        0 <= i < s.len(),
    ensures
        sum_of(s.take(i + 1), f) == sum_of(s.take(i), f) + f(s[i]),
{
    assert(s.take(i + 1).drop_last() =~= s.take(i));
    assert(s.take(i + 1).last() == s[i]);
}

pub proof fn lemma_filter_where_take_step<T>(s: Seq<T>, p: spec_fn(T) -> bool, i: int)
    requires
        0 <= i < s.len(),
    ensures
        filter_where(s.take(i + 1), p) == if p(s[i]) {
            filter_where(s.take(i), p).push(s[i])
        } else {
            filter_where(s.take(i), p)
        },
{
    assert(s.take(i + 1).drop_last() =~= s.take(i));
    assert(s.take(i + 1).last() == s[i]);
}

/// A full-length prefix is the sequence itself, so the `take`-based loop
/// invariants close back onto the whole-sequence spec functions.
pub proof fn lemma_take_all<T>(s: Seq<T>)
    ensures
        s.take(s.len() as int) == s,
{
    assert(s.take(s.len() as int) =~= s);
}

/// Counts lie between zero and the length of the sequence.
pub proof fn lemma_count_where_bounds<T>(s: Seq<T>, p: spec_fn(T) -> bool)
    ensures
        0 <= count_where(s, p) <= s.len(),
    decreases s.len(),
{
    if s.len() > 0 {
        lemma_count_where_bounds(s.drop_last(), p);
    }
}

/// A zero count means no element satisfies the predicate.
pub proof fn lemma_count_where_zero<T>(s: Seq<T>, p: spec_fn(T) -> bool)
    requires
        count_where(s, p) == 0,
    ensures
        forall|i: int| 0 <= i < s.len() ==> !p(#[trigger] s[i]),
    decreases s.len(),
{
    if s.len() > 0 {
        let t = s.drop_last();
        lemma_count_where_bounds(t, p);
        assert(!p(s.last()));
        lemma_count_where_zero(t, p);
        assert forall|i: int| 0 <= i < s.len() implies !p(#[trigger] s[i]) by {
            if i < t.len() {
                assert(t[i] == s[i]);
            } else {
                assert(s[i] == s.last());
            }
        }
    }
}

/// A sum of pointwise non-negative terms is non-negative.
pub proof fn lemma_sum_of_nonneg<T>(s: Seq<T>, f: spec_fn(T) -> int)
    requires
        forall|i: int| 0 <= i < s.len() ==> #[trigger] f(s[i]) >= 0,
    ensures
        sum_of(s, f) >= 0,
    decreases s.len(),
{
    if s.len() > 0 {
        lemma_sum_of_nonneg(s.drop_last(), f);
    }
}

/// With non-negative terms, a prefix sum never exceeds the full sum.
pub proof fn lemma_sum_of_take_le<T>(s: Seq<T>, f: spec_fn(T) -> int, i: int)
    requires
        0 <= i <= s.len(),
        forall|k: int| 0 <= k < s.len() ==> #[trigger] f(s[k]) >= 0,
    ensures
        sum_of(s.take(i), f) <= sum_of(s, f),
    decreases s.len() - i,
{
    if i == s.len() {
        lemma_take_all(s);
    } else {
        lemma_sum_of_take_step(s, f, i);
        lemma_sum_of_take_le(s, f, i + 1);
    }
}

/// With non-negative terms, every single term is at most the full sum.
pub proof fn lemma_sum_of_elem_le<T>(s: Seq<T>, f: spec_fn(T) -> int, i: int)
    requires
        0 <= i < s.len(),
        forall|k: int| 0 <= k < s.len() ==> #[trigger] f(s[k]) >= 0,
    ensures
        f(s[i]) <= sum_of(s, f),
{
    lemma_sum_of_take_step(s, f, i);
    lemma_sum_of_take_le(s, f, i + 1);
    lemma_sum_of_nonneg_prefix(s, f, i);
}

proof fn lemma_sum_of_nonneg_prefix<T>(s: Seq<T>, f: spec_fn(T) -> int, i: int)
    requires
        0 <= i <= s.len(),
        forall|k: int| 0 <= k < s.len() ==> #[trigger] f(s[k]) >= 0,
    ensures
        sum_of(s.take(i), f) >= 0,
{
    assert(forall|k: int| 0 <= k < s.take(i).len() ==> #[trigger] f(s.take(i)[k]) >= 0);
    lemma_sum_of_nonneg(s.take(i), f);
}

/// Sums respect a pointwise bound on their terms.
pub proof fn lemma_sum_of_pointwise_le<T>(s: Seq<T>, f: spec_fn(T) -> int, g: spec_fn(T) -> int)
    requires
        forall|i: int| 0 <= i < s.len() ==> #[trigger] f(s[i]) <= #[trigger] g(s[i]),
    ensures
        sum_of(s, f) <= sum_of(s, g),
    decreases s.len(),
{
    if s.len() > 0 {
        let t = s.drop_last();
        assert forall|i: int| 0 <= i < t.len() implies #[trigger] f(t[i]) <= #[trigger] g(t[i]) by {
            assert(t[i] == s[i]);
        }
        lemma_sum_of_pointwise_le(t, f, g);
        assert(f(s.last()) <= g(s.last()));
    }
}

/// Everything the filter keeps satisfies the predicate and any property
/// that holds of every element of the source.
pub proof fn lemma_filter_where_preserves<T>(s: Seq<T>, p: spec_fn(T) -> bool, q: spec_fn(T) -> bool)
    requires
        forall|i: int| 0 <= i < s.len() ==> #[trigger] q(s[i]),
    ensures
        forall|j: int|
            0 <= j < filter_where(s, p).len() ==> p(#[trigger] filter_where(s, p)[j]) && q(
                filter_where(s, p)[j],
            ),
    decreases s.len(),
{
    if s.len() > 0 {
        let t = s.drop_last();
        assert forall|i: int| 0 <= i < t.len() implies #[trigger] q(t[i]) by {
            assert(t[i] == s[i]);
        }
        lemma_filter_where_preserves(t, p, q);
        let f = filter_where(s, p);
        assert forall|j: int| 0 <= j < f.len() implies p(#[trigger] f[j]) && q(f[j]) by {
            if p(s.last()) {
                assert(f == filter_where(t, p).push(s.last()));
                if j < filter_where(t, p).len() {
                    assert(f[j] == filter_where(t, p)[j]);
                } else {
                    assert(f[j] == s.last());
                    assert(q(s[s.len() - 1]));
                }
            } else {
                assert(f == filter_where(t, p));
            }
        }
    }
}

/// With non-negative terms, a sum over a filtered sequence neither drops
/// below zero nor exceeds the sum over the source.
pub proof fn lemma_sum_of_filter_le<T>(s: Seq<T>, p: spec_fn(T) -> bool, f: spec_fn(T) -> int)
    requires
        forall|i: int| 0 <= i < s.len() ==> #[trigger] f(s[i]) >= 0,
    ensures
        0 <= sum_of(filter_where(s, p), f) <= sum_of(s, f),
    decreases s.len(),
{
    if s.len() == 0 {
    } else {
        let t = s.drop_last();
        assert forall|i: int| 0 <= i < t.len() implies #[trigger] f(t[i]) >= 0 by {
            assert(t[i] == s[i]);
        }
        lemma_sum_of_filter_le(t, p, f);
        assert(f(s.last()) >= 0);
        if p(s.last()) {
            let ft = filter_where(t, p);
            assert(filter_where(s, p) == ft.push(s.last()));
            assert(ft.push(s.last()).drop_last() =~= ft);
            assert(ft.push(s.last()).last() == s.last());
        }
    }
}

/// Everything the filter keeps satisfies the filter's predicate.
pub proof fn lemma_filter_where_sat<T>(s: Seq<T>, p: spec_fn(T) -> bool)
    ensures
        forall|j: int| 0 <= j < filter_where(s, p).len() ==> p(#[trigger] filter_where(s, p)[j]),
    decreases s.len(),
{
    if s.len() > 0 {
        let t = s.drop_last();
        lemma_filter_where_sat(t, p);
        let f = filter_where(s, p);
        assert forall|j: int| 0 <= j < f.len() implies p(#[trigger] f[j]) by {
            if p(s.last()) && j == filter_where(t, p).len() {
                assert(f[j] == s.last());
            } else {
                assert(f[j] == filter_where(t, p)[j]);
            }
        }
    }
}

/// Every element the filter keeps occurs in the source sequence.
pub proof fn lemma_filter_where_contains<T>(s: Seq<T>, p: spec_fn(T) -> bool)
    ensures
        forall|j: int|
            0 <= j < filter_where(s, p).len() ==> s.contains(#[trigger] filter_where(s, p)[j]),
    decreases s.len(),
{
    if s.len() > 0 {
        let t = s.drop_last();
        lemma_filter_where_contains(t, p);
        let f = filter_where(s, p);
        assert forall|j: int| 0 <= j < f.len() implies s.contains(#[trigger] f[j]) by {
            if p(s.last()) && j == filter_where(t, p).len() {
                assert(f[j] == s.last());
                assert(s[s.len() - 1] == s.last());
            } else {
                assert(f[j] == filter_where(t, p)[j]);
                assert(t.contains(f[j]));
                let k = choose|k: int| 0 <= k < t.len() && t[k] == f[j];
                assert(s[k] == t[k]);
            }
        }
    }
}

/// A pairwise relation that holds across the source holds across the
/// filtered sequence: the filter keeps elements in order, without
/// duplication.
pub proof fn lemma_filter_where_pairwise<T>(
    s: Seq<T>,
    p: spec_fn(T) -> bool,
    r: spec_fn(T, T) -> bool,
)
    requires
        forall|i: int, j: int| 0 <= i < j < s.len() ==> #[trigger] r(s[i], s[j]),
    ensures
        forall|i: int, j: int|
            0 <= i < j < filter_where(s, p).len() ==> #[trigger] r(
                filter_where(s, p)[i],
                filter_where(s, p)[j],
            ),
    decreases s.len(),
{
    if s.len() > 0 {
        let t = s.drop_last();
        assert forall|i: int, j: int| 0 <= i < j < t.len() implies #[trigger] r(t[i], t[j]) by {
            assert(t[i] == s[i] && t[j] == s[j]);
        }
        lemma_filter_where_pairwise(t, p, r);
        lemma_filter_where_contains(t, p);
        let f = filter_where(s, p);
        let ft = filter_where(t, p);
        assert forall|i: int, j: int| 0 <= i < j < f.len() implies #[trigger] r(f[i], f[j]) by {
            if p(s.last()) && j == ft.len() {
                assert(f[i] == ft[i] && f[j] == s.last());
                assert(t.contains(ft[i]));
                let k = choose|k: int| 0 <= k < t.len() && t[k] == ft[i];
                assert(s[k] == t[k]);
                assert(r(s[k], s[s.len() - 1]));
                assert(s[s.len() - 1] == s.last());
            } else {
                assert(f[i] == ft[i] && f[j] == ft[j]);
            }
        }
    }
}

/// The filter keeps exactly as many elements as satisfy the predicate.
pub proof fn lemma_filter_where_len<T>(s: Seq<T>, p: spec_fn(T) -> bool)
    ensures
        filter_where(s, p).len() == count_where(s, p),
    decreases s.len(),
{
    if s.len() > 0 {
        lemma_filter_where_len(s.drop_last(), p);
    }
}

/// A found element satisfies the predicate and occurs in the sequence.
pub proof fn lemma_find_first_some<T>(s: Seq<T>, p: spec_fn(T) -> bool)
    requires
        find_first(s, p) is Some,
    ensures
        p(find_first(s, p)->Some_0),
        s.contains(find_first(s, p)->Some_0),
    decreases s.len(),
{
    if s.len() > 0 && !p(s[0]) {
        lemma_find_first_some(s.skip(1), p);
        assert(s.skip(1).contains(find_first(s, p)->Some_0));
        let j = choose|j: int|
            0 <= j < s.skip(1).len() && s.skip(1)[j] == find_first(s, p)->Some_0;
        assert(s[j + 1] == s.skip(1)[j]);
    }
}

/// The search misses exactly when no element satisfies the predicate.
pub proof fn lemma_find_first_none<T>(s: Seq<T>, p: spec_fn(T) -> bool)
    ensures
        (find_first(s, p) is None) <==> (forall|i: int| 0 <= i < s.len() ==> !p(#[trigger] s[i])),
    decreases s.len(),
{
    if s.len() > 0 {
        lemma_find_first_none(s.skip(1), p);
        if find_first(s, p) is None {
            assert forall|i: int| 0 <= i < s.len() implies !p(#[trigger] s[i]) by {
                if i > 0 {
                    assert(s.skip(1)[i - 1] == s[i]);
                    assert(!p(s.skip(1)[i - 1]));
                }
            }
        } else {
            if !p(s[0]) && (forall|i: int| 0 <= i < s.len() ==> !p(#[trigger] s[i])) {
                assert forall|i: int| 0 <= i < s.skip(1).len() implies !p(
                    #[trigger] s.skip(1)[i],
                ) by {
                    assert(s.skip(1)[i] == s[i + 1]);
                }
            }
        }
    }
}

/// Skipping a match-free prefix does not change the first match.
pub proof fn lemma_find_first_skip<T>(s: Seq<T>, p: spec_fn(T) -> bool, i: int)
    requires
        0 <= i <= s.len(),
        forall|k: int| 0 <= k < i ==> !p(#[trigger] s[k]),
    ensures
        find_first(s, p) == find_first(s.skip(i), p),
    decreases i,
{
    if i == 0 {
        assert(s.skip(0) =~= s);
    } else {
        assert(!p(s[0]));
        assert forall|k: int| 0 <= k < i - 1 implies !p(#[trigger] s.skip(1)[k]) by {
            assert(s.skip(1)[k] == s[k + 1]);
        }
        lemma_find_first_skip(s.skip(1), p, i - 1);
        assert(s.skip(1).skip(i - 1) =~= s.skip(i));
        assert(find_first(s, p) == find_first(s.skip(1), p));
    }
}

/// When the scan stands at a match after a match-free prefix, that element
/// is the first match.
pub proof fn lemma_find_first_at<T>(s: Seq<T>, p: spec_fn(T) -> bool, i: int)
    requires
        0 <= i < s.len(),
        forall|k: int| 0 <= k < i ==> !p(#[trigger] s[k]),
        p(s[i]),
    ensures
        find_first(s, p) == Some(s[i]),
{
    lemma_find_first_skip(s, p, i);
    assert(s.skip(i)[0] == s[i]);
    assert(s.skip(i).len() > 0);
}

/// Removing one element adjusts the count by that element's match.
pub proof fn lemma_count_where_remove<T>(s: Seq<T>, p: spec_fn(T) -> bool, i: int)
    requires
        0 <= i < s.len(),
    ensures
        count_where(s.remove(i), p) == count_where(s, p) - (if p(s[i]) {
            1int
        } else {
            0int
        }),
    decreases s.len(),
{
    if i == s.len() - 1 {
        assert(s.remove(i) =~= s.drop_last());
    } else {
        assert(s.remove(i).drop_last() =~= s.drop_last().remove(i));
        assert(s.remove(i).last() == s.last());
        lemma_count_where_remove(s.drop_last(), p, i);
        assert(s.drop_last()[i] == s[i]);
    }
}

/// Removing one element adjusts the sum by that element's term.
pub proof fn lemma_sum_of_remove<T>(s: Seq<T>, f: spec_fn(T) -> int, i: int)
    requires
        0 <= i < s.len(),
    ensures
        sum_of(s.remove(i), f) == sum_of(s, f) - f(s[i]),
    decreases s.len(),
{
    if i == s.len() - 1 {
        assert(s.remove(i) =~= s.drop_last());
    } else {
        assert(s.remove(i).drop_last() =~= s.drop_last().remove(i));
        assert(s.remove(i).last() == s.last());
        lemma_sum_of_remove(s.drop_last(), f, i);
        assert(s.drop_last()[i] == s[i]);
    }
}

/// Sequences with the same multiset have the same counts: counting does
/// not depend on the order of the rows.
pub proof fn lemma_count_where_multiset<T>(s1: Seq<T>, s2: Seq<T>, p: spec_fn(T) -> bool)
    requires
        s1.to_multiset() == s2.to_multiset(),
    ensures
        count_where(s1, p) == count_where(s2, p),
    decreases s1.len(),
{
    broadcast use vstd::seq_lib::group_to_multiset_ensures;

    if s1.len() == 0 {
        assert(s2.to_multiset().len() == 0);
        assert(s2.len() == 0);
    } else {
        let e = s1.last();
        assert(s1[s1.len() - 1] == e);
        assert(s1.contains(e));
        assert(s2.to_multiset().count(e) > 0);
        assert(s2.contains(e));
        let j = choose|j: int| 0 <= j < s2.len() && s2[j] == e;
        lemma_count_where_remove(s2, p, j);
        assert(s1.drop_last().push(e) =~= s1);
        assert(s1.drop_last().to_multiset() =~= s2.remove(j).to_multiset());
        lemma_count_where_multiset(s1.drop_last(), s2.remove(j), p);
    }
}

/// Sequences with the same multiset have the same sums.
pub proof fn lemma_sum_of_multiset<T>(s1: Seq<T>, s2: Seq<T>, f: spec_fn(T) -> int)
    requires
        s1.to_multiset() == s2.to_multiset(),
    ensures
        sum_of(s1, f) == sum_of(s2, f),
    decreases s1.len(),
{
    broadcast use vstd::seq_lib::group_to_multiset_ensures;

    if s1.len() == 0 {
        assert(s2.to_multiset().len() == 0);
        assert(s2.len() == 0);
    } else {
        let e = s1.last();
        assert(s1[s1.len() - 1] == e);
        assert(s1.contains(e));
        assert(s2.to_multiset().count(e) > 0);
        assert(s2.contains(e));
        let j = choose|j: int| 0 <= j < s2.len() && s2[j] == e;
        lemma_sum_of_remove(s2, f, j);
        assert(s1.drop_last().push(e) =~= s1);
        assert(s1.drop_last().to_multiset() =~= s2.remove(j).to_multiset());
        lemma_sum_of_multiset(s1.drop_last(), s2.remove(j), f);
    }
}

/// A unary property carries over between sequences with the same
/// multiset: every element of one occurs in the other.
pub proof fn lemma_multiset_pointwise<T>(s1: Seq<T>, s2: Seq<T>, q: spec_fn(T) -> bool)
    requires
        s1.to_multiset() == s2.to_multiset(),
        forall|i: int| 0 <= i < s1.len() ==> #[trigger] q(s1[i]),
    ensures
        forall|j: int| 0 <= j < s2.len() ==> #[trigger] q(s2[j]),
{
    broadcast use vstd::seq_lib::group_to_multiset_ensures;

    assert forall|j: int| 0 <= j < s2.len() implies #[trigger] q(s2[j]) by {
        assert(s2.contains(s2[j]));
        assert(s1.to_multiset().count(s2[j]) > 0);
        assert(s1.contains(s2[j]));
        let i = choose|i: int| 0 <= i < s1.len() && s1[i] == s2[j];
        assert(q(s1[i]));
    }
}

/// When the predicate holds exactly on the index range `[lo, hi)`, the
/// count is the width of that range.
pub proof fn lemma_count_where_range<T>(s: Seq<T>, p: spec_fn(T) -> bool, lo: int, hi: int)
    requires
        0 <= lo <= hi <= s.len(),
        forall|k: int| 0 <= k < s.len() ==> (p(#[trigger] s[k]) <==> lo <= k < hi),
    ensures
        count_where(s, p) == hi - lo,
    decreases s.len(),
{
    if s.len() == 0 {
    } else {
        let t = s.drop_last();
        let n = s.len() - 1;
        assert forall|k: int| 0 <= k < t.len() implies (p(#[trigger] t[k]) <==> (if p(s[n]) {
            lo
        } else {
            if hi <= n {
                lo
            } else {
                0
            }
        }) <= k < (if p(s[n]) {
            n
        } else {
            if hi <= n {
                hi
            } else {
                0
            }
        })) by {
            assert(t[k] == s[k]);
        }
        if p(s[n]) {
            assert(hi == n + 1);
            lemma_count_where_range(t, p, lo, n);
        } else {
            if hi <= n {
                lemma_count_where_range(t, p, lo, hi);
            } else {
                assert(lo == hi);
                lemma_count_where_range(t, p, 0, 0);
            }
        }
    }
}

/// Terms that vanish from index `i` on contribute nothing: the sum equals
/// the prefix sum.
pub proof fn lemma_sum_of_take_rest_zero<T>(s: Seq<T>, f: spec_fn(T) -> int, i: int)
    requires
        0 <= i <= s.len(),
        forall|k: int| i <= k < s.len() ==> f(#[trigger] s[k]) == 0,
    ensures
        sum_of(s, f) == sum_of(s.take(i), f),
    decreases s.len() - i,
{
    if i == s.len() {
        lemma_take_all(s);
    } else {
        lemma_sum_of_take_step(s, f, i);
        lemma_sum_of_take_rest_zero(s, f, i + 1);
    }
}

/// A sum of vanishing terms is zero.
pub proof fn lemma_sum_of_zero<T>(s: Seq<T>, f: spec_fn(T) -> int)
    requires
        forall|k: int| 0 <= k < s.len() ==> f(#[trigger] s[k]) == 0,
    ensures
        sum_of(s, f) == 0,
    decreases s.len(),
{
    if s.len() > 0 {
        let t = s.drop_last();
        assert forall|k: int| 0 <= k < t.len() implies f(#[trigger] t[k]) == 0 by {
            assert(t[k] == s[k]);
        }
        lemma_sum_of_zero(t, f);
        assert(f(s[s.len() - 1]) == 0);
    }
}

} // verus!
