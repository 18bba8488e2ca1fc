//! Passes over a list that stop at the first failure.
use vstd::prelude::*;

verus! {

/// What a pass over `items` makes of the state `init`: each item is handed to `step`
/// together with the state so far, until one fails.
pub open spec fn fold<S, T, E>(
    init: S,
    items: Seq<T>,
    step: spec_fn(S, T) -> Result<S, E>,
) -> Result<S, E>
    decreases items.len(),
{
    if items.len() == 0 {
        Ok(init)
    } else {
        match fold(init, items.drop_last(), step) {
            Ok(state) => step(state, items.last()),
            Err(e) => Err(e),
        }
    }
}

/// A pass over one item more.
pub proof fn lemma_fold_step<S, T, E>(
    init: S,
    items: Seq<T>,
    i: int,
    step: spec_fn(S, T) -> Result<S, E>,
)
    requires
        0 <= i < items.len(),
    ensures
        fold(init, items.take(i + 1), step) == match fold(init, items.take(i), step) {
            Ok(state) => step(state, items[i]),
            Err(e) => Err::<S, E>(e),
        },
{
    assert(items.take(i + 1).drop_last() =~= items.take(i));
}

/// A pass that has failed stays failed.
pub proof fn lemma_fold_err<S, T, E>(
    init: S,
    items: Seq<T>,
    i: int,
    step: spec_fn(S, T) -> Result<S, E>,
)
    requires
        0 <= i <= items.len(),
        fold(init, items.take(i), step) is Err,
    ensures
        fold(init, items, step) == fold(init, items.take(i), step),
    decreases items.len() - i,
{
    if i == items.len() {
        assert(items.take(i) =~= items);
    } else {
        lemma_fold_step(init, items, i, step);
        lemma_fold_err(init, items, i + 1, step);
    }
}

/// A step that fails decides the whole pass.
pub proof fn lemma_fold_stop<S, T, E>(
    init: S,
    items: Seq<T>,
    i: int,
    step: spec_fn(S, T) -> Result<S, E>,
)
    requires
        0 <= i < items.len(),
        fold(init, items.take(i), step) is Ok,
        step(fold(init, items.take(i), step)->Ok_0, items[i]) is Err,
    ensures
        fold(init, items, step) == step(fold(init, items.take(i), step)->Ok_0, items[i]),
{
    lemma_fold_step(init, items, i, step);
    lemma_fold_err(init, items, i + 1, step);
}

} // verus!
