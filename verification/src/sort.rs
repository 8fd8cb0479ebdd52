//! Stable sorting by an integer key (as `sort_by_key` does): elements with equal keys keep
//! their relative order.
use vstd::prelude::*;

use crate::rows::DucklakeColumn;

verus! {

/// Index of the first element of `t` whose key exceeds `k` (the length if there is none).
pub open spec fn first_after<T>(t: Seq<T>, k: i64, key: spec_fn(T) -> i64) -> int
    decreases t.len(),
{
    if t.len() == 0 {
        0
    } else if key(t[0]) > k {
        0
    } else {
        1 + first_after(t.drop_first(), k, key)
    }
}

/// `t` with `x` inserted after every leading element whose key is at most `x`'s.
pub open spec fn stable_insert<T>(t: Seq<T>, x: T, key: spec_fn(T) -> i64) -> Seq<T> {
    t.insert(first_after(t, key(x), key), x)
}

/// `s` sorted by `key`, elements with equal keys in their original order.
pub open spec fn stable_sort<T>(s: Seq<T>, key: spec_fn(T) -> i64) -> Seq<T>
    decreases s.len(),
{
    if s.len() == 0 {
        Seq::empty()
    } else {
        stable_insert(stable_sort(s.drop_last(), key), s.last(), key)
    }
}

/// The sort key of a column row: its `column_order`.
pub open spec fn column_order_key() -> spec_fn(DucklakeColumn) -> i64 {
    |c: DucklakeColumn| c.column_order
}

/// The sort key of an (order, position) pair: the order.
pub open spec fn pair_key() -> spec_fn((i64, usize)) -> i64 {
    |p: (i64, usize)| p.0
}

/// The first position whose key exceeds `k` is `p` when the keys before `p` are at most `k`
/// and the key at `p` (if any) exceeds it.
pub proof fn lemma_first_after<T>(t: Seq<T>, k: i64, key: spec_fn(T) -> i64, p: int)
    requires
        0 <= p <= t.len(),
        forall|q: int| 0 <= q < p ==> key(#[trigger] t[q]) <= k,
        p == t.len() || key(t[p]) > k,
    ensures
        first_after(t, k, key) == p,
    decreases p,
{
    if p > 0 {
        assert forall|q: int| 0 <= q < p - 1 implies key(#[trigger] t.drop_first()[q]) <= k by {
            assert(t.drop_first()[q] == t[q + 1]);
        }
        if p < t.len() {
            assert(t.drop_first()[p - 1] == t[p]);
        }
        lemma_first_after(t.drop_first(), k, key, p - 1);
    }
}

/// The first position whose key exceeds `k` lies within the sequence (or just past it).
pub proof fn lemma_first_after_bounds<T>(t: Seq<T>, k: i64, key: spec_fn(T) -> i64)
    ensures
        0 <= first_after(t, k, key) <= t.len(),
    decreases t.len(),
{
    if t.len() > 0 && key(t[0]) <= k {
        lemma_first_after_bounds(t.drop_first(), k, key);
    }
}

/// Sorting keeps the elements: the same length, and the same elements.
pub proof fn lemma_stable_sort_elements<T>(s: Seq<T>, key: spec_fn(T) -> i64)
    ensures
        stable_sort(s, key).len() == s.len(),
        forall|x: T| #[trigger] stable_sort(s, key).contains(x) <==> s.contains(x),
    decreases s.len(),
{
    if s.len() > 0 {
        let prev = stable_sort(s.drop_last(), key);
        lemma_stable_sort_elements(s.drop_last(), key);
        lemma_first_after_bounds(prev, key(s.last()), key);
        let p = first_after(prev, key(s.last()), key);
        let t = prev.insert(p, s.last());
        prev.insert_ensures(p, s.last());
        assert forall|x: T| #[trigger] t.contains(x) <==> s.contains(x) by {
            if t.contains(x) {
                let i = choose|i: int| 0 <= i < t.len() && t[i] == x;
                if i < p {
                    assert(prev[i] == x);
                    assert(prev.contains(x));
                    let j = choose|j: int| 0 <= j < s.drop_last().len() && s.drop_last()[j] == x;
                    assert(s[j] == x);
                } else if i == p {
                    assert(s[s.len() - 1] == x);
                } else {
                    assert(prev[i - 1] == x);
                    assert(prev.contains(x));
                    let j = choose|j: int| 0 <= j < s.drop_last().len() && s.drop_last()[j] == x;
                    assert(s[j] == x);
                }
            }
            if s.contains(x) {
                let i = choose|i: int| 0 <= i < s.len() && s[i] == x;
                if i == s.len() - 1 {
                    assert(t[p] == x);
                } else {
                    assert(s.drop_last()[i] == x);
                    assert(s.drop_last().contains(x));
                    assert(prev.contains(x));
                    let j = choose|j: int| 0 <= j < prev.len() && prev[j] == x;
                    if j < p {
                        assert(t[j] == x);
                    } else {
                        assert(t[j + 1] == x);
                    }
                }
            }
        }
    }
}

/// Every element before the first position whose key exceeds `k` has a key of at most `k`,
/// and the element at that position (if any) has a key above `k`.
pub proof fn lemma_first_after_props<T>(t: Seq<T>, k: i64, key: spec_fn(T) -> i64)
    ensures
        0 <= first_after(t, k, key) <= t.len(),
        forall|q: int| 0 <= q < first_after(t, k, key) ==> key(#[trigger] t[q]) <= k,
        first_after(t, k, key) < t.len() ==> key(t[first_after(t, k, key)]) > k,
    decreases t.len(),
{
    if t.len() > 0 && key(t[0]) <= k {
        let r = t.drop_first();
        lemma_first_after_props(r, k, key);
        assert forall|q: int| 0 <= q < first_after(t, k, key) implies key(#[trigger] t[q]) <= k by {
            if q > 0 {
                assert(t[q] == r[q - 1]);
            }
        }
        if first_after(t, k, key) < t.len() {
            assert(t[first_after(t, k, key)] == r[first_after(r, k, key)]);
        }
    }
}

/// The sorted sequence is ordered by key.
pub proof fn lemma_stable_sort_sorted<T>(s: Seq<T>, key: spec_fn(T) -> i64)
    ensures
        forall|i: int, j: int|
            0 <= i <= j < stable_sort(s, key).len() ==> key(#[trigger] stable_sort(s, key)[i]) <= key(
                #[trigger] stable_sort(s, key)[j],
            ),
    decreases s.len(),
{
    if s.len() > 0 {
        let prev = stable_sort(s.drop_last(), key);
        lemma_stable_sort_sorted(s.drop_last(), key);
        let x = s.last();
        lemma_first_after_props(prev, key(x), key);
        let p = first_after(prev, key(x), key);
        let t = prev.insert(p, x);
        prev.insert_ensures(p, x);
        assert(t == stable_sort(s, key));
        assert forall|i: int, j: int| 0 <= i <= j < t.len() implies key(#[trigger] t[i]) <= key(#[trigger] t[j]) by {
            if i < p && j < p {
                assert(t[i] == prev[i] && t[j] == prev[j]);
            } else if i < p && j == p {
                assert(t[i] == prev[i]);
            } else if i < p {
                assert(t[i] == prev[i] && t[j] == prev[j - 1]);
            } else if i == p && j > p {
                assert(t[j] == prev[j - 1]);
                assert(key(prev[p]) > key(x));
                assert(key(prev[p]) <= key(prev[j - 1]));
            } else if i > p {
                assert(t[i] == prev[i - 1] && t[j] == prev[j - 1]);
            }
        }
    }
}

/// Sorting is stable: the elements of any one key come out in the order they came in.
pub proof fn lemma_stable_sort_stable<T>(s: Seq<T>, key: spec_fn(T) -> i64, k: i64)
    ensures
        stable_sort(s, key).filter(|x: T| key(x) == k) == s.filter(|x: T| key(x) == k),
    decreases s.len(),
{
    let pred = |x: T| key(x) == k;
    if s.len() == 0 {
        reveal(Seq::filter);
    } else {
        let prev = stable_sort(s.drop_last(), key);
        lemma_stable_sort_stable(s.drop_last(), key, k);
        lemma_stable_sort_sorted(s.drop_last(), key);
        let x = s.last();
        lemma_first_after_props(prev, key(x), key);
        let p = first_after(prev, key(x), key);
        let head = prev.take(p);
        let tail = prev.skip(p);
        assert(prev == head + tail);
        assert(stable_sort(s, key) == head + seq![x] + tail);
        Seq::filter_distributes_over_add(head, tail, pred);
        Seq::filter_distributes_over_add(head + seq![x], tail, pred);
        Seq::filter_distributes_over_add(head, seq![x], pred);
        assert(seq![x] == Seq::<T>::empty().push(x));
        Seq::<T>::empty().lemma_filter_push(x, pred);
        assert(Seq::<T>::empty().filter(pred) == Seq::<T>::empty()) by {
            reveal(Seq::filter);
        }
        assert(s == s.drop_last().push(x));
        s.drop_last().lemma_filter_push(x, pred);
        if key(x) == k {
            assert forall|q: int| 0 <= q < tail.len() implies !pred(#[trigger] tail[q]) by {
                assert(tail[q] == prev[p + q]);
                assert(key(prev[p]) <= key(prev[p + q]));
            }
            tail.lemma_all_neg_filter_empty(pred);
            assert(tail.filter(pred) == Seq::<T>::empty());
        } else {
            assert(head.filter(pred) + tail.filter(pred) == prev.filter(pred));
        }
    }
}

/// No two rows have the same column ID.
pub open spec fn distinct_ids(s: Seq<DucklakeColumn>) -> bool {
    forall|i: int, j: int| 0 <= i < s.len() && 0 <= j < s.len() && i != j ==> #[trigger] s[i].column_id != #[trigger] s[j].column_id
}

/// Sorting rows with distinct column IDs leaves the IDs distinct.
pub proof fn lemma_stable_sort_distinct(s: Seq<DucklakeColumn>)
    requires
        distinct_ids(s),
    ensures
        distinct_ids(stable_sort(s, column_order_key())),
    decreases s.len(),
{
    if s.len() > 0 {
        let key = column_order_key();
        let prev = stable_sort(s.drop_last(), key);
        assert(distinct_ids(s.drop_last())) by {
            assert forall|i: int, j: int|
                0 <= i < s.drop_last().len() && 0 <= j < s.drop_last().len() && i != j implies #[trigger] s.drop_last()[i].column_id
                != #[trigger] s.drop_last()[j].column_id by {
                assert(s.drop_last()[i] == s[i]);
                assert(s.drop_last()[j] == s[j]);
            }
        }
        lemma_stable_sort_distinct(s.drop_last());
        lemma_stable_sort_elements(s.drop_last(), key);
        lemma_first_after_bounds(prev, key(s.last()), key);
        let p = first_after(prev, key(s.last()), key);
        let x = s.last();
        let t = prev.insert(p, x);
        prev.insert_ensures(p, x);
        assert forall|i: int| 0 <= i < prev.len() implies #[trigger] prev[i].column_id != x.column_id by {
            assert(prev.contains(prev[i]));
            let j = choose|j: int| 0 <= j < s.drop_last().len() && s.drop_last()[j] == prev[i];
            assert(s[j] == prev[i]);
            assert(s[s.len() - 1] == x);
        }
        assert forall|i: int, j: int| 0 <= i < t.len() && 0 <= j < t.len() && i != j implies #[trigger] t[i].column_id
            != #[trigger] t[j].column_id by {
            let pi = if i < p { i } else if i == p { -1 } else { i - 1 };
            let pj = if j < p { j } else if j == p { -1 } else { j - 1 };
            if pi >= 0 {
                assert(t[i] == prev[pi]);
            }
            if pj >= 0 {
                assert(t[j] == prev[pj]);
            }
            if pi >= 0 && pj >= 0 {
                assert(prev[pi].column_id != prev[pj].column_id);
            }
        }
    }
}

/// Sorts column rows by `column_order`, stably.
pub fn sort_columns(columns: Vec<DucklakeColumn>) -> (r: Vec<DucklakeColumn>)
    ensures
        r@ == stable_sort(columns@, column_order_key()),
{
    let ghost s = columns@;
    let ghost key = column_order_key();
    let n = columns.len();
    let mut rest = columns;
    let mut out: Vec<DucklakeColumn> = Vec::new();
    let mut i: usize = 0;
    while i < n
        invariant
            n == s.len(),
            i <= n,
            key == column_order_key(),
            rest@ == s.subrange(i as int, n as int),
            out@ == stable_sort(s.take(i as int), key),
        decreases n - i,
    {
        let x = rest.remove(0);
        assert(x == s[i as int]);
        let k = x.column_order;
        let mut p: usize = 0;
        while p < out.len() && out[p].column_order <= k
            invariant
                p <= out@.len(),
                key == column_order_key(),
                forall|q: int| 0 <= q < p ==> key(#[trigger] out@[q]) <= k,
            decreases out@.len() - p,
        {
            p = p + 1;
        }
        proof {
            lemma_first_after(out@, k, key, p as int);
            assert(s.take(i + 1).drop_last() =~= s.take(i as int));
            assert(s.take(i + 1).last() == x);
        }
        out.insert(p, x);
        i = i + 1;
        assert(rest@ =~= s.subrange(i as int, n as int));
    }
    assert(s.take(n as int) =~= s);
    out
}

/// Sorts (order, position) pairs by order, stably.
pub fn sort_pairs(pairs: Vec<(i64, usize)>) -> (r: Vec<(i64, usize)>)
    ensures
        r@ == stable_sort(pairs@, pair_key()),
{
    let ghost s = pairs@;
    let ghost key = pair_key();
    let n = pairs.len();
    let mut out: Vec<(i64, usize)> = Vec::new();
    let mut i: usize = 0;
    while i < n
        invariant
            n == s.len(),
            pairs@ == s,
            i <= n,
            key == pair_key(),
            out@ == stable_sort(s.take(i as int), key),
        decreases n - i,
    {
        let x = pairs[i];
        let k = x.0;
        let mut p: usize = 0;
        while p < out.len() && out[p].0 <= k
            invariant
                p <= out@.len(),
                key == pair_key(),
                forall|q: int| 0 <= q < p ==> key(#[trigger] out@[q]) <= k,
            decreases out@.len() - p,
        {
            p = p + 1;
        }
        proof {
            lemma_first_after(out@, k, key, p as int);
            assert(s.take(i + 1).drop_last() =~= s.take(i as int));
            assert(s.take(i + 1).last() == x);
        }
        out.insert(p, x);
        i = i + 1;
    }
    assert(s.take(n as int) =~= s);
    out
}

} // verus!
