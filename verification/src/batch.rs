//! Splitting bulk statements into batches that respect the database's limit on bind
//! parameters per statement.
use vstd::prelude::*;

use crate::dialect::Dialect;
use crate::error::{DucklakeError, DucklakeResult};

verus! {

/// Some call of `query` on the items `a .. a + c` gave a statement with more than `limit`
/// bind parameters.
pub open spec fn tried_over<T, B, F: Fn(&[T]) -> (B, usize)>(query: F, items: Seq<T>, a: int, c: int, limit: usize) -> bool {
    exists|s: &[T], r: (B, usize)| #[trigger] call_ensures(query, (s,), r) && s@ == items.subrange(a, a + c) && r.1 > limit
}

/// Some call of `query` on the items `a .. b` gave the statement `b_out` with at most `limit`
/// bind parameters.
pub open spec fn built_within<T, B, F: Fn(&[T]) -> (B, usize)>(query: F, items: Seq<T>, a: int, b: int, out: B, limit: usize) -> bool {
    exists|s: &[T], n: usize| #[trigger] call_ensures(query, (s,), (out, n)) && s@ == items.subrange(a, b) && n <= limit
}

/// How many items a batch starting at `a` tries first: all that are left, at most `max_items`.
pub open spec fn first_try(len: int, a: int, max_items: usize) -> int {
    if len - a < max_items { len - a } else { max_items as int }
}

/// The halving search from item `a` reaches a try of `c` items: the first try, or half (rounded
/// down) of a reached try that had too many parameters.
pub open spec fn reached<T, B, F: Fn(&[T]) -> (B, usize)>(query: F, items: Seq<T>, a: int, first: int, c: int, limit: usize) -> bool
    decreases first - c,
{
    if c >= first {
        c == first
    } else if c <= 0 {
        false
    } else {
        ||| (2 * c <= first && reached(query, items, a, first, 2 * c, limit) && tried_over(query, items, a, 2 * c, limit))
        ||| (2 * c + 1 <= first && reached(query, items, a, first, 2 * c + 1, limit) && tried_over(query, items, a, 2 * c + 1, limit))
    }
}

/// The batch of items `a .. b` is what the halving search settles on: a try it reaches.
pub open spec fn settled<T, B, F: Fn(&[T]) -> (B, usize)>(query: F, items: Seq<T>, a: int, b: int, max_items: usize, limit: usize) -> bool {
    reached(query, items, a, first_try(items.len() as int, a, max_items), b - a, limit)
}

/// `query` may be called on every non-empty run of consecutive items.
pub open spec fn callable_on_runs<T, B, F: Fn(&[T]) -> (B, usize)>(query: F, items: Seq<T>) -> bool {
    forall|s: &[T], a: int, b: int|
        #![trigger call_requires(query, (s,)), items.subrange(a, b)]
        0 <= a < b <= items.len() && s@ == items.subrange(a, b) ==> call_requires(query, (s,))
}

/// The outcome `out` of batching `items` with cut points `cuts`: each `Ok` batch covers the
/// items between two cuts, in order, and fits the limit; only the last outcome may be an
/// error, which stops the batching at an item whose statement alone exceeds the limit.
pub open spec fn batching<T, B, F: Fn(&[T]) -> (B, usize)>(
    query: F,
    items: Seq<T>,
    max_items: usize,
    limit: usize,
    cuts: Seq<int>,
    out: Seq<DucklakeResult<B>>,
) -> bool {
    &&& cuts.len() == out.len() + 1
    &&& cuts[0] == 0
    &&& forall|k: int| 0 <= k < out.len() ==> cuts[k] < #[trigger] cuts[k + 1] <= items.len()
    &&& forall|k: int|
        0 <= k < out.len() ==> match #[trigger] out[k] {
            Ok(b) => built_within(query, items, cuts[k], cuts[k + 1], b, limit) && settled(
                query,
                items,
                cuts[k],
                cuts[k + 1],
                max_items,
                limit,
            ),
            Err(e) => k == out.len() - 1 && cuts[k + 1] == cuts[k] + 1 && tried_over(query, items, cuts[k], 1, limit) && (e matches DucklakeError::Database {
                code,
                ..
            } && code is None),
        }
    &&& (out.len() == 0 || out.last() is Ok) ==> cuts.last() == items.len()
}

/// The next batch from item `start`: tries all remaining items (at most `max_items`), halving
/// the count while the statement has more than `limit` bind parameters. Returns where the
/// batch ends and its statement, or an error when even one item is too many.
fn next_batch<T, B, F: Fn(&[T]) -> (B, usize)>(items: &[T], start: usize, max_items: usize, limit: usize, query: &F) -> (r: (usize, DucklakeResult<B>))
    requires
        start < items@.len(),
        max_items >= 1,
        callable_on_runs(*query, items@),
    ensures
        start < r.0 <= items@.len(),
        match r.1 {
            Ok(b) => built_within(*query, items@, start as int, r.0 as int, b, limit) && settled(
                *query,
                items@,
                start as int,
                r.0 as int,
                max_items,
                limit,
            ),
            Err(e) => r.0 == start + 1 && tried_over(*query, items@, start as int, 1, limit) && (e matches DucklakeError::Database {
                code,
                ..
            } && code is None),
        },
{
    let rem = items.len() - start;
    let first = if rem < max_items { rem } else { max_items };
    let mut count = first;
    loop
        invariant
            start < items@.len(),
            rem == items@.len() - start,
            first == first_try(items@.len() as int, start as int, max_items),
            first <= rem,
            items@.len() <= usize::MAX,
            callable_on_runs(*query, items@),
            1 <= count <= first,
            reached(*query, items@, start as int, first as int, count as int, limit),
        decreases count,
    {
        let s = &items[start..start + count];
        assert(s@ == items@.subrange(start as int, start + count));
        let (b, n) = query(s);
        if n <= limit {
            assert(call_ensures(*query, (s,), (b, n)));
            return (start + count, Ok(b));
        }
        assert(call_ensures(*query, (s,), (b, n)));
        assert(tried_over(*query, items@, start as int, count as int, limit));
        if count == 1 {
            return (
                start + 1,
                Err(
                    DucklakeError::Database {
                        code: None,
                        message: "a single batch item exceeds the database bind parameter limit".to_owned(),
                    },
                ),
            );
        }
        count = count / 2;
    }
}

/// Splits `items` into batches whose statements (built by `query`, which also reports the
/// statement's number of bind parameters) fit the dialect's parameter limit, each of at most
/// `max_items` items. For each batch, all remaining items (at most `max_items`) are tried
/// first, then half as many, and so on. When a single item is already too many, the batching
/// ends with an error. Empty input builds no statement.
pub fn batch_queries<T, B, F: Fn(&[T]) -> (B, usize)>(dialect: Dialect, items: &[T], max_items: usize, query: F) -> (r: Vec<DucklakeResult<B>>)
    requires
        max_items >= 1,
        callable_on_runs(query, items@),
    ensures
        exists|cuts: Seq<int>|
            #[trigger] batching(query, items@, max_items, dialect.max_bind_params_spec(), cuts, r@),
{
    let limit = dialect.max_bind_params();
    let mut out: Vec<DucklakeResult<B>> = Vec::new();
    let mut start: usize = 0;
    let ghost mut cuts: Seq<int> = seq![0int];
    let mut stopped = false;
    while start < items.len() && !stopped
        invariant
            limit == dialect.max_bind_params_spec(),
            max_items >= 1,
            callable_on_runs(query, items@),
            start <= items@.len(),
            cuts.len() == out@.len() + 1,
            cuts[0] == 0,
            cuts.last() == start,
            forall|k: int| 0 <= k < out@.len() ==> cuts[k] < #[trigger] cuts[k + 1] <= items@.len(),
            forall|k: int|
                0 <= k < out@.len() ==> match #[trigger] out@[k] {
                    Ok(b) => built_within(query, items@, cuts[k], cuts[k + 1], b, limit) && settled(
                        query,
                        items@,
                        cuts[k],
                        cuts[k + 1],
                        max_items,
                        limit,
                    ),
                    Err(e) => k == out@.len() - 1 && cuts[k + 1] == cuts[k] + 1 && tried_over(query, items@, cuts[k], 1, limit) && (e matches DucklakeError::Database {
                        code,
                        ..
                    } && code is None),
                },
            stopped <==> (out@.len() > 0 && out@.last() is Err),
        decreases items@.len() - start, if stopped { 0int } else { 1int },
    {
        let (end, res) = next_batch(items, start, max_items, limit, &query);
        if res.is_err() {
            stopped = true;
        }
        out.push(res);
        proof {
            cuts = cuts.push(end as int);
        }
        start = end;
    }
    assert(batching(query, items@, max_items, limit, cuts, out@));
    out
}

impl Dialect {
    pub open spec fn max_bind_params_spec(&self) -> usize {
        match *self {
            Dialect::Sqlite => 32766usize,
            _ => 65535usize,
        }
    }
}

/// Splits rows of `columns` values each into chunks of as many rows as the dialect's
/// parameter limit allows (the last chunk may be smaller). When a single row has more values
/// than the limit, no chunk is made.
pub fn insert_chunks<V>(dialect: Dialect, columns: usize, rows: Vec<V>) -> (r: Vec<Vec<V>>)
    requires
        columns > 0,
    ensures
        ({
            let size = dialect.max_bind_params_spec() / columns;
            &&& size == 0 ==> r@.len() == 0
            &&& size > 0 ==> {
                &&& r@.len() == (rows@.len() + size - 1) / size as int
                &&& forall|k: int|
                    0 <= k < r@.len() ==> (#[trigger] r@[k])@ == rows@.subrange(
                        k * size,
                        if (k + 1) * size <= rows@.len() {
                            (k + 1) * size
                        } else {
                            rows@.len() as int
                        },
                    )
            }
        }),
{
    let size = dialect.max_bind_params() / columns;
    let mut out: Vec<Vec<V>> = Vec::new();
    if size == 0 {
        return out;
    }
    let ghost all = rows@;
    let n = rows.len();
    let mut rest = rows;
    let mut done: usize = 0;
    while rest.len() > 0
        invariant
            size > 0,
            size == dialect.max_bind_params_spec() / columns,
            n == all.len(),
            done <= n,
            rest@ == all.subrange(done as int, n as int),
            done < n ==> done == out@.len() * size,
            out@.len() == 0 ==> done == 0,
            out@.len() > 0 ==> (out@.len() - 1) * size < done <= out@.len() * size,
            forall|k: int|
                0 <= k < out@.len() ==> (#[trigger] out@[k])@ == all.subrange(
                    k * size,
                    if (k + 1) * size <= all.len() {
                        (k + 1) * size
                    } else {
                        all.len() as int
                    },
                ),
        decreases rest@.len(),
    {
        let take = if rest.len() < size { rest.len() } else { size };
        let tail = rest.split_off(take);
        let ghost k = out@.len() as int;
        assert(done == k * size);
        assert(rest@ =~= all.subrange(k * size, done + take));
        proof {
            if (k + 1) * size <= all.len() {
                assert(k * size + size == (k + 1) * size) by (nonlinear_arith);
                assert(take == size);
            } else {
                assert(k * size + size == (k + 1) * size) by (nonlinear_arith);
                assert(take == n - done);
            }
            assert((k + 1) * size == k * size + size) by (nonlinear_arith);
        }
        out.push(rest);
        rest = tail;
        done = done + take;
        assert(rest@ =~= all.subrange(done as int, n as int));
    }
    proof {
        let l = out@.len() as int;
        if l > 0 {
            assert((n + size - 1) / size as int == l) by (nonlinear_arith)
                requires
                    (l - 1) * size < n <= l * size,
                    size > 0,
                    l > 0,
            ;
        } else {
            assert(n == 0);
            assert((size - 1) / size as int == 0) by (nonlinear_arith)
                requires
                    size > 0,
            ;
        }
    }
    out
}

/// The items of the first `k` batches, one batch after the other.
pub open spec fn cut_pieces<T>(items: Seq<T>, cuts: Seq<int>, k: int) -> Seq<T>
    decreases k,
{
    if k <= 0 {
        Seq::empty()
    } else {
        cut_pieces(items, cuts, k - 1) + items.subrange(cuts[k - 1], cuts[k])
    }
}

proof fn lemma_cut_pieces<T>(items: Seq<T>, cuts: Seq<int>, k: int)
    requires
        0 <= k < cuts.len(),
        cuts[0] == 0,
        forall|j: int| 0 <= j < k ==> cuts[j] < #[trigger] cuts[j + 1] <= items.len(),
    ensures
        cut_pieces(items, cuts, k) == items.subrange(0, cuts[k]),
        0 <= cuts[k] <= items.len(),
    decreases k,
{
    if k > 0 {
        lemma_cut_pieces(items, cuts, k - 1);
        let j = k - 1;
        assert(cuts[j] < cuts[j + 1] <= items.len());
        assert(items.subrange(0, cuts[k - 1]) + items.subrange(cuts[k - 1], cuts[k]) =~= items.subrange(0, cuts[k]));
    } else {
        assert(items.subrange(0, 0) =~= Seq::<T>::empty());
    }
}

/// When every batch is built, the batches hand each item to exactly one statement, in order,
/// and no statement gets more than `max_items` items.
pub proof fn lemma_batches_cover_items<T, B, F: Fn(&[T]) -> (B, usize)>(
    query: F,
    items: Seq<T>,
    max_items: usize,
    limit: usize,
    cuts: Seq<int>,
    out: Seq<DucklakeResult<B>>,
)
    requires
        batching(query, items, max_items, limit, cuts, out),
        forall|k: int| 0 <= k < out.len() ==> (#[trigger] out[k]) is Ok,
    ensures
        cut_pieces(items, cuts, out.len() as int) == items,
        forall|k: int| 0 <= k < out.len() ==> #[trigger] cuts[k + 1] - cuts[k] <= max_items,
{
    if out.len() > 0 {
        assert(out.last() is Ok);
    }
    lemma_cut_pieces(items, cuts, out.len() as int);
    assert(items.subrange(0, items.len() as int) =~= items);
    assert forall|k: int| 0 <= k < out.len() implies #[trigger] cuts[k + 1] - cuts[k] <= max_items by {
        assert(out[k] is Ok);
        assert(cuts[k] < cuts[k + 1]);
    }
}

} // verus!
