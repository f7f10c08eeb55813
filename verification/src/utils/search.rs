//! The first item of a sequence that meets a condition.

use vstd::prelude::*;

verus! {

/// Whether `items[i]` meets `wanted` and nothing before it does.
pub open spec fn is_first_where<A>(items: Seq<A>, wanted: spec_fn(A) -> bool, i: int) -> bool {
    &&& 0 <= i < items.len()
    &&& wanted(items[i])
    &&& forall|j: int| 0 <= j < i ==> !wanted(#[trigger] items[j])
}

/// The index of the first item that meets `wanted`, if any does.
pub open spec fn first_where<A>(items: Seq<A>, wanted: spec_fn(A) -> bool) -> Option<int> {
    if exists|i: int| is_first_where(items, wanted, i) {
        Some(choose|i: int| is_first_where(items, wanted, i))
    } else {
        None
    }
}

/// Whether some item meets `wanted`.
pub open spec fn any_where<A>(items: Seq<A>, wanted: spec_fn(A) -> bool) -> bool {
    exists|i: int| 0 <= i < items.len() && wanted(#[trigger] items[i])
}

/// Whether no item meets `wanted`.
pub open spec fn none_where<A>(items: Seq<A>, wanted: spec_fn(A) -> bool) -> bool {
    forall|i: int| 0 <= i < items.len() ==> !wanted(#[trigger] items[i])
}

/// The first item that meets `wanted`, if any does.
pub open spec fn first_item_where<A>(items: Seq<A>, wanted: spec_fn(A) -> bool) -> Option<A> {
    match first_where(items, wanted) {
        Some(i) => Some(items[i]),
        None => None,
    }
}

proof fn lemma_least_where<A>(items: Seq<A>, wanted: spec_fn(A) -> bool, k: int) -> (i: int)
    requires
        0 <= k < items.len(),
        wanted(items[k]),
    ensures
        is_first_where(items, wanted, i),
        i <= k,
    decreases k,
{
    if exists|j: int| 0 <= j < k && wanted(#[trigger] items[j]) {
        let j = choose|j: int| 0 <= j < k && wanted(#[trigger] items[j]);
        lemma_least_where(items, wanted, j)
    } else {
        k
    }
}

/// `first_where` finds the first item that meets the condition, and finds
/// none only where none meets it.
pub proof fn lemma_first_where<A>(items: Seq<A>, wanted: spec_fn(A) -> bool)
    ensures
        match first_where(items, wanted) {
            Some(i) => is_first_where(items, wanted, i),
            None => none_where(items, wanted),
        },
        first_where(items, wanted) is Some <==> any_where(items, wanted),
{
    if first_where(items, wanted) is None {
        assert forall|k: int| 0 <= k < items.len() implies !wanted(#[trigger] items[k]) by {
            if wanted(items[k]) {
                let i = lemma_least_where(items, wanted, k);
            }
        }
    }
}

/// The first item that meets the condition is what `first_where` finds.
pub proof fn lemma_first_where_is<A>(items: Seq<A>, wanted: spec_fn(A) -> bool, i: int)
    requires
        is_first_where(items, wanted, i),
    ensures
        first_where(items, wanted) == Some(i),
{
    let found = choose|k: int| is_first_where(items, wanted, k);
    assert(is_first_where(items, wanted, found));
    if found < i {
        assert(!wanted(items[found]));
    }
    if i < found {
        assert(!wanted(items[i]));
    }
}

/// Where no item meets the condition, `first_where` finds none.
pub proof fn lemma_first_where_none<A>(items: Seq<A>, wanted: spec_fn(A) -> bool)
    requires
        none_where(items, wanted),
    ensures
        first_where(items, wanted) is None,
{
    lemma_first_where(items, wanted);
}

/// Where two sequences of one length agree on which items meet the condition,
/// the first that meets it stands at the same index in both.
pub proof fn lemma_first_where_same<A>(before: Seq<A>, after: Seq<A>, wanted: spec_fn(A) -> bool)
    requires
        before.len() == after.len(),
        forall|i: int|
            0 <= i < before.len() ==> wanted(#[trigger] before[i]) == wanted(#[trigger] after[i]),
    ensures
        first_where(after, wanted) == first_where(before, wanted),
{
    lemma_first_where(before, wanted);
    match first_where(before, wanted) {
        Some(i) => {
            assert forall|j: int| 0 <= j < i implies !wanted(#[trigger] after[j]) by {
                assert(!wanted(before[j]));
            }
            lemma_first_where_is(after, wanted, i);
        },
        None => {
            assert forall|j: int| 0 <= j < after.len() implies !wanted(#[trigger] after[j]) by {
                assert(!wanted(before[j]));
            }
            lemma_first_where_none(after, wanted);
        },
    }
}

/// An item pushed at the end is the first to meet the condition exactly where
/// it meets it and nothing before did.
pub proof fn lemma_first_where_push<A>(items: Seq<A>, item: A, wanted: spec_fn(A) -> bool)
    ensures
        first_where(items.push(item), wanted) == match first_where(items, wanted) {
            Some(i) => Some(i),
            None => if wanted(item) {
                Some(items.len() as int)
            } else {
                None
            },
        },
{
    let after = items.push(item);
    lemma_first_where(items, wanted);
    match first_where(items, wanted) {
        Some(i) => {
            assert(after[i] == items[i]);
            assert forall|j: int| 0 <= j < i implies !wanted(#[trigger] after[j]) by {
                assert(after[j] == items[j]);
            }
            lemma_first_where_is(after, wanted, i);
        },
        None => {
            if wanted(item) {
                assert forall|j: int| 0 <= j < items.len() implies !wanted(#[trigger] after[j]) by {
                    assert(after[j] == items[j]);
                }
                assert(after[items.len() as int] == item);
                lemma_first_where_is(after, wanted, items.len() as int);
            } else {
                assert forall|j: int| 0 <= j < after.len() implies !wanted(#[trigger] after[j]) by {
                    if j < items.len() {
                        assert(after[j] == items[j]);
                    }
                }
                lemma_first_where_none(after, wanted);
            }
        },
    }
}

/// Removing an item that does not meet the condition leaves the first item
/// that meets it what it was.
pub proof fn lemma_first_where_remove_other<A>(items: Seq<A>, i: int, wanted: spec_fn(A) -> bool)
    requires
        0 <= i < items.len(),
        !wanted(items[i]),
    ensures
        first_item_where(items.remove(i), wanted) == first_item_where(items, wanted),
        first_where(items.remove(i), wanted) == match first_where(items, wanted) {
            Some(k) => Some(if k < i { k } else { k - 1 }),
            None => None,
        },
{
    let after = items.remove(i);
    lemma_first_where(items, wanted);
    match first_where(items, wanted) {
        Some(k) => {
            let moved = if k < i { k } else { k - 1 };
            assert(after[moved] == items[k]);
            assert forall|j: int| 0 <= j < moved implies !wanted(#[trigger] after[j]) by {
                if j < i {
                    assert(after[j] == items[j]);
                } else {
                    assert(after[j] == items[j + 1]);
                }
            }
            lemma_first_where_is(after, wanted, moved);
        },
        None => {
            assert forall|j: int| 0 <= j < after.len() implies !wanted(#[trigger] after[j]) by {
                if j < i {
                    assert(after[j] == items[j]);
                } else {
                    assert(after[j] == items[j + 1]);
                }
            }
            lemma_first_where_none(after, wanted);
        },
    }
}

/// Removing the only item that meets the condition leaves none that does.
pub proof fn lemma_first_where_remove_only<A>(items: Seq<A>, i: int, wanted: spec_fn(A) -> bool)
    requires
        0 <= i < items.len(),
        forall|j: int| 0 <= j < items.len() && j != i ==> !wanted(#[trigger] items[j]),
    ensures
        first_where(items.remove(i), wanted) is None,
{
    let after = items.remove(i);
    assert forall|j: int| 0 <= j < after.len() implies !wanted(#[trigger] after[j]) by {
        if j < i {
            assert(after[j] == items[j]);
        } else {
            assert(after[j] == items[j + 1]);
        }
    }
    lemma_first_where_none(after, wanted);
}

} // verus!
