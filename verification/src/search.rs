//! The first item of a sequence that has a wanted property.

use vstd::prelude::*;

verus! {

/// Whether `i` is the first position in `items` at which `wanted` holds.
pub open spec fn is_first_where<T>(items: Seq<T>, wanted: spec_fn(T) -> bool, i: int) -> bool {
    &&& 0 <= i < items.len()
    &&& wanted(items[i])
    &&& forall|j: int| 0 <= j < i ==> !wanted(#[trigger] items[j])
}

/// The first position in `items` at which `wanted` holds.
pub open spec fn first_where<T>(items: Seq<T>, wanted: spec_fn(T) -> bool) -> Option<int> {
    if exists|i: int| is_first_where(items, wanted, i) {
        Some(choose|i: int| is_first_where(items, wanted, i))
    } else {
        None
    }
}

/// A position that is first is the one that `first_where` names.
pub proof fn lemma_first_where_found<T>(items: Seq<T>, wanted: spec_fn(T) -> bool, i: int)
    requires
        is_first_where(items, wanted, i),
    ensures
        first_where(items, wanted) == Some(i),
{
    let k = choose|k: int| is_first_where(items, wanted, k);
    assert(is_first_where(items, wanted, k));
    if k < i {
        assert(!wanted(items[k]));
    }
    if i < k {
        assert(!wanted(items[i]));
    }
}

/// Where `wanted` holds nowhere, `first_where` names nothing.
pub proof fn lemma_first_where_missing<T>(items: Seq<T>, wanted: spec_fn(T) -> bool)
    requires
        forall|j: int| 0 <= j < items.len() ==> !wanted(#[trigger] items[j]),
    ensures
        first_where(items, wanted) is None,
{
    if exists|i: int| is_first_where(items, wanted, i) {
        let k = choose|k: int| is_first_where(items, wanted, k);
        assert(!wanted(items[k]));
    }
}

/// What `first_where` names is a position at which `wanted` holds, and the first one.
pub proof fn lemma_first_where_is_first<T>(items: Seq<T>, wanted: spec_fn(T) -> bool)
    ensures
        first_where(items, wanted) matches Some(i) ==> is_first_where(items, wanted, i),
        first_where(items, wanted) is None ==> forall|j: int|
            0 <= j < items.len() ==> !wanted(#[trigger] items[j]),
{
    if first_where(items, wanted) is None {
        assert forall|j: int| 0 <= j < items.len() implies !wanted(#[trigger] items[j]) by {
            if wanted(items[j]) {
                lemma_some_first(items, wanted, j);
            }
        }
    }
}

/// Where `wanted` holds at `at`, some position is the first at which it holds.
proof fn lemma_some_first<T>(items: Seq<T>, wanted: spec_fn(T) -> bool, at: int)
    requires
        0 <= at < items.len(),
        wanted(items[at]),
    ensures
        exists|i: int| is_first_where(items, wanted, i),
    decreases at,
{
    if exists|j: int| 0 <= j < at && wanted(#[trigger] items[j]) {
        let j = choose|j: int| 0 <= j < at && wanted(#[trigger] items[j]);
        lemma_some_first(items, wanted, j);
    } else {
        assert(is_first_where(items, wanted, at));
    }
}

} // verus!
