//! Steps over sequences that stop at the first failure.

use vstd::prelude::*;

verus! {

/// What the steps over all items make of a start, or the failure of the first step
/// that fails.
pub open spec fn try_fold<A, B, E>(
    items: Seq<A>,
    start: B,
    step: spec_fn(B, A) -> Result<B, E>,
) -> Result<B, E>
    decreases items.len(),
{
    if items.len() == 0 {
        Ok(start)
    } else {
        match try_fold(items.drop_last(), start, step) {
            Ok(state) => step(state, items.last()),
            Err(fault) => Err(fault),
        }
    }
}

/// One more step in front of the items that are left.
pub proof fn try_fold_step<A, B, E>(
    items: Seq<A>,
    start: B,
    step: spec_fn(B, A) -> Result<B, E>,
    i: int,
)
    requires
        0 <= i < items.len(),
    ensures
        try_fold(items.take(i + 1), start, step) == (match try_fold(items.take(i), start, step) {
            Ok(state) => step(state, items[i]),
            Err(fault) => Err(fault),
        }),
{
    let next = items.take(i + 1);
    assert(next.drop_last() =~= items.take(i));
    assert(next.last() == items[i]);
}

/// A failure stays whatever items come behind it.
pub proof fn try_fold_fails<A, B, E>(
    items: Seq<A>,
    start: B,
    step: spec_fn(B, A) -> Result<B, E>,
    n: int,
    fault: E,
)
    requires
        0 <= n <= items.len(),
        try_fold(items.take(n), start, step) == Err::<B, E>(fault),
    ensures
        try_fold(items, start, step) == Err::<B, E>(fault),
    decreases items.len(),
{
    if n == items.len() {
        assert(items.take(n) =~= items);
    } else {
        assert(items.drop_last().take(n) =~= items.take(n));
        try_fold_fails(items.drop_last(), start, step, n, fault);
    }
}

/// All items have been taken.
pub proof fn try_fold_end<A, B, E>(
    items: Seq<A>,
    start: B,
    step: spec_fn(B, A) -> Result<B, E>,
)
    ensures
        try_fold(items.take(items.len() as int), start, step) == try_fold(items, start, step),
{
    assert(items.take(items.len() as int) =~= items);
}

/// What the steps over all items make of a start.
pub open spec fn fold<A, B>(items: Seq<A>, start: B, step: spec_fn(B, A) -> B) -> B
    decreases items.len(),
{
    if items.len() == 0 {
        start
    } else {
        step(fold(items.drop_last(), start, step), items.last())
    }
}

/// One more step in front of the items that are left.
pub proof fn fold_step<A, B>(items: Seq<A>, start: B, step: spec_fn(B, A) -> B, i: int)
    requires
        0 <= i < items.len(),
    ensures
        fold(items.take(i + 1), start, step) == step(fold(items.take(i), start, step), items[i]),
{
    let next = items.take(i + 1);
    assert(next.drop_last() =~= items.take(i));
    assert(next.last() == items[i]);
}

/// All items have been taken.
pub proof fn fold_end<A, B>(items: Seq<A>, start: B, step: spec_fn(B, A) -> B)
    ensures
        fold(items.take(items.len() as int), start, step) == fold(items, start, step),
{
    assert(items.take(items.len() as int) =~= items);
}

} // verus!
