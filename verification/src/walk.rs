//! Going through a list of JSON values until one of them is refused.

use crate::error::ErrorView;
use crate::json::JsonView;
use vstd::prelude::*;

verus! {

/// What is left of `start` once `step` has taken in each item in turn, or the error of the first
/// item that it refuses.
pub open spec fn folded<S>(
    items: Seq<JsonView>,
    start: S,
    step: spec_fn(S, JsonView) -> Result<S, ErrorView>,
) -> Result<S, ErrorView>
    decreases items.len(),
{
    if items.len() == 0 {
        Ok(start)
    } else {
        match folded(items.drop_last(), start, step) {
            Ok(state) => step(state, items.last()),
            Err(error) => Err(error),
        }
    }
}

/// One more item, and that an error among the first items is the error of the whole list.
pub proof fn lemma_folded_next<S>(
    items: Seq<JsonView>,
    i: int,
    start: S,
    step: spec_fn(S, JsonView) -> Result<S, ErrorView>,
)
    requires
        0 <= i < items.len(),
    ensures
        folded(items.take(i + 1), start, step) == match folded(items.take(i), start, step) {
            Ok(state) => step(state, items[i]),
            Err(error) => Err(error),
        },
        folded(items.take(i + 1), start, step) is Err ==> folded(items, start, step) == folded(
            items.take(i + 1),
            start,
            step,
        ),
{
    assert(items.take(i + 1).drop_last() =~= items.take(i));
    lemma_folded_concat(items.take(i + 1), items.skip(i + 1), start, step);
    assert(items.take(i + 1) + items.skip(i + 1) =~= items);
}

/// A list is gone through by going through its first part and then through the rest.
pub proof fn lemma_folded_concat<S>(
    first: Seq<JsonView>,
    rest: Seq<JsonView>,
    start: S,
    step: spec_fn(S, JsonView) -> Result<S, ErrorView>,
)
    ensures
        folded(first + rest, start, step) == match folded(first, start, step) {
            Ok(state) => folded(rest, state, step),
            Err(error) => Err(error),
        },
    decreases rest.len(),
{
    if rest.len() == 0 {
        assert(first + rest =~= first);
    } else {
        assert((first + rest).drop_last() =~= first + rest.drop_last());
        lemma_folded_concat(first, rest.drop_last(), start, step);
    }
}

/// An error of the list is the error of one of its items.
pub proof fn lemma_folded_error<S>(
    items: Seq<JsonView>,
    start: S,
    step: spec_fn(S, JsonView) -> Result<S, ErrorView>,
) -> (found: (S, JsonView))
    requires
        folded(items, start, step) is Err,
    ensures
        step(found.0, found.1) == folded(items, start, step),
    decreases items.len(),
{
    match folded(items.drop_last(), start, step) {
        Ok(state) => (state, items.last()),
        Err(_) => lemma_folded_error(items.drop_last(), start, step),
    }
}

}
