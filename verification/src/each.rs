//! One step for each item of a sequence, up to the first item that fails.

use vstd::prelude::*;

verus! {

/// A result as what it holds, whether it is the value or the error.
pub open spec fn model<T: DeepView, E: DeepView>(r: Result<T, E>) -> Result<T::V, E::V> {
    match r {
        Ok(value) => Ok(value.deep_view()),
        Err(e) => Err(e.deep_view()),
    }
}

/// What `step` makes of the items of `items`, in their order: an item that
/// gives `Ok(Some(..))` adds to the result, one that gives `Ok(None)` is
/// passed over, and the first that gives `Err(..)` ends it all with that
/// error.
pub open spec fn collect<A, B, E>(items: Seq<A>, step: spec_fn(A) -> Result<Option<B>, E>) -> Result<
    Seq<B>,
    E,
>
    decreases items.len(),
{
    if items.len() == 0 {
        Ok(Seq::empty())
    } else {
        match collect(items.drop_last(), step) {
            Err(e) => Err(e),
            Ok(found) => match step(items.last()) {
                Err(e) => Err(e),
                Ok(Some(b)) => Ok(found.push(b)),
                Ok(None) => Ok(found),
            },
        }
    }
}

/// One item more.
pub proof fn lemma_collect_next<A, B, E>(
    items: Seq<A>,
    step: spec_fn(A) -> Result<Option<B>, E>,
    i: int,
)
    requires
        0 <= i < items.len(),
    ensures
        collect(items.take(i + 1), step) == match collect(items.take(i), step) {
            Err(e) => Err(e),
            Ok(found) => match step(items[i]) {
                Err(e) => Err(e),
                Ok(Some(b)) => Ok(found.push(b)),
                Ok(None) => Ok(found),
            },
        },
{
    let next = items.take(i + 1);
    assert(next.drop_last() =~= items.take(i));
    assert(next.last() == items[i]);
}

/// An error met on the way is the error of the whole.
pub proof fn lemma_collect_fails<A, B, E>(
    items: Seq<A>,
    step: spec_fn(A) -> Result<Option<B>, E>,
    i: int,
)
    requires
        0 <= i <= items.len(),
        collect(items.take(i), step) is Err,
    ensures
        collect(items, step) == collect(items.take(i), step),
    decreases items.len() - i,
{
    if i < items.len() {
        lemma_collect_next(items, step, i);
        lemma_collect_fails(items, step, i + 1);
    } else {
        assert(items.take(i) =~= items);
    }
}

/// What `step` makes of the items of `items`, one row behind the other; the
/// first item for which `step` fails ends it all with that error.
pub open spec fn gather<A, B, E>(items: Seq<A>, step: spec_fn(A) -> Result<Seq<B>, E>) -> Result<
    Seq<B>,
    E,
>
    decreases items.len(),
{
    if items.len() == 0 {
        Ok(Seq::empty())
    } else {
        match gather(items.drop_last(), step) {
            Err(e) => Err(e),
            Ok(found) => match step(items.last()) {
                Err(e) => Err(e),
                Ok(row) => Ok(found + row),
            },
        }
    }
}

/// One item more.
pub proof fn lemma_gather_next<A, B, E>(
    items: Seq<A>,
    step: spec_fn(A) -> Result<Seq<B>, E>,
    i: int,
)
    requires
        0 <= i < items.len(),
    ensures
        gather(items.take(i + 1), step) == match gather(items.take(i), step) {
            Err(e) => Err(e),
            Ok(found) => match step(items[i]) {
                Err(e) => Err(e),
                Ok(row) => Ok(found + row),
            },
        },
{
    let next = items.take(i + 1);
    assert(next.drop_last() =~= items.take(i));
    assert(next.last() == items[i]);
}

/// An error met on the way is the error of the whole.
pub proof fn lemma_gather_fails<A, B, E>(
    items: Seq<A>,
    step: spec_fn(A) -> Result<Seq<B>, E>,
    i: int,
)
    requires
        0 <= i <= items.len(),
        gather(items.take(i), step) is Err,
    ensures
        gather(items, step) == gather(items.take(i), step),
    decreases items.len() - i,
{
    if i < items.len() {
        lemma_gather_next(items, step, i);
        lemma_gather_fails(items, step, i + 1);
    } else {
        assert(items.take(i) =~= items);
    }
}

} // verus!
