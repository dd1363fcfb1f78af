//! Finding the first item of a sequence that has a property, and where the
//! items that a filter keeps come to stand.

use vstd::prelude::*;

verus! {

/// The index of the first item that is wanted, or the length of the sequence
/// if none is.
pub open spec fn first_index<T>(items: Seq<T>, wanted: spec_fn(T) -> bool) -> int
    decreases items.len(),
{
    if items.len() == 0 {
        0
    } else if wanted(items[0]) {
        0
    } else {
        1 + first_index(items.skip(1), wanted)
    }
}

/// The first index is that of a wanted item before which none is wanted; or
/// it is the length, and no item is wanted.
pub proof fn lemma_first_index<T>(items: Seq<T>, wanted: spec_fn(T) -> bool)
    ensures
        0 <= first_index(items, wanted) <= items.len(),
        first_index(items, wanted) < items.len() ==> wanted(items[first_index(items, wanted)]),
        forall|j: int| 0 <= j < first_index(items, wanted) ==> !wanted(#[trigger] items[j]),
    decreases items.len(),
{
    if items.len() > 0 && !wanted(items[0]) {
        lemma_first_index(items.skip(1), wanted);
        assert forall|j: int| 0 <= j < first_index(items, wanted) implies !wanted(
            #[trigger] items[j],
        ) by {
            if j > 0 {
                assert(items[j] == items.skip(1)[j - 1]);
            }
        }
    }
}

/// Where no item before `index` is wanted, the first wanted item is the first
/// from `index` on.
pub proof fn lemma_first_index_from<T>(items: Seq<T>, wanted: spec_fn(T) -> bool, index: int)
    requires
        0 <= index <= items.len(),
        forall|j: int| 0 <= j < index ==> !wanted(#[trigger] items[j]),
    ensures
        first_index(items, wanted) == index + first_index(items.skip(index), wanted),
    decreases index,
{
    if index > 0 {
        assert(!wanted(items[0]));
        assert forall|j: int| 0 <= j < index - 1 implies !wanted(#[trigger] items.skip(1)[j]) by {
            assert(items.skip(1)[j] == items[j + 1]);
        }
        lemma_first_index_from(items.skip(1), wanted, index - 1);
        assert(items.skip(1).skip(index - 1) == items.skip(index));
    } else {
        assert(items.skip(0) == items);
    }
}

/// An index is the first index exactly if its item is wanted, or it is the
/// length, and no item before it is wanted.
pub proof fn lemma_first_index_is<T>(items: Seq<T>, wanted: spec_fn(T) -> bool, index: int)
    requires
        0 <= index <= items.len(),
        forall|j: int| 0 <= j < index ==> !wanted(#[trigger] items[j]),
        index < items.len() ==> wanted(items[index]),
    ensures
        first_index(items, wanted) == index,
{
    lemma_first_index_from(items, wanted, index);
    if index < items.len() {
        assert(items.skip(index)[0] == items[index]);
    }
}

/// Where in the filtered sequence the item at `index` comes to stand, if it is
/// kept: behind the kept items that stand before it.
pub open spec fn place_after_filter<T>(items: Seq<T>, kept: spec_fn(T) -> bool, index: int) -> int {
    items.take(index).filter(kept).len() as int
}

/// A kept item stands in the filtered sequence, at its place.
pub proof fn lemma_filter_place<T>(items: Seq<T>, kept: spec_fn(T) -> bool, index: int)
    requires
        0 <= index < items.len(),
        kept(items[index]),
    ensures
        0 <= place_after_filter(items, kept, index) < items.filter(kept).len(),
        items.filter(kept)[place_after_filter(items, kept, index)] == items[index],
        place_after_filter(items, kept, index + 1) == place_after_filter(items, kept, index) + 1,
{
    let head = items.take(index);
    let tail = items.skip(index + 1);
    assert(items.take(index + 1) == head.push(items[index]));
    head.lemma_filter_push(items[index], kept);
    assert(items == items.take(index + 1) + tail);
    Seq::filter_distributes_over_add(items.take(index + 1), tail, kept);
}

/// The place of an item is not before the place of an earlier one.
pub proof fn lemma_filter_place_grows<T>(
    items: Seq<T>,
    kept: spec_fn(T) -> bool,
    first: int,
    second: int,
)
    requires
        0 <= first <= second <= items.len(),
    ensures
        place_after_filter(items, kept, first) <= place_after_filter(items, kept, second),
{
    let head = items.take(first);
    let middle = items.subrange(first, second);
    assert(items.take(second) == head + middle);
    Seq::filter_distributes_over_add(head, middle, kept);
}

/// A filter keeps the order of what it keeps: of two kept items, the earlier
/// stands before the later in the filtered sequence.
pub proof fn lemma_filter_keeps_order<T>(
    items: Seq<T>,
    kept: spec_fn(T) -> bool,
    first: int,
    second: int,
)
    requires
        0 <= first < second < items.len(),
        kept(items[first]),
        kept(items[second]),
    ensures
        0 <= place_after_filter(items, kept, first) < place_after_filter(items, kept, second)
            < items.filter(kept).len(),
        items.filter(kept)[place_after_filter(items, kept, first)] == items[first],
        items.filter(kept)[place_after_filter(items, kept, second)] == items[second],
{
    lemma_filter_place(items, kept, first);
    lemma_filter_place(items, kept, second);
    lemma_filter_place_grows(items, kept, first + 1, second);
}

/// Every item is either kept or dropped: the two filtered sequences have
/// together as many items as the sequence.
pub proof fn lemma_filter_partition<T>(
    items: Seq<T>,
    kept: spec_fn(T) -> bool,
    dropped: spec_fn(T) -> bool,
)
    requires
        forall|item: T| #[trigger] kept(item) == !dropped(item),
    ensures
        items.filter(kept).len() + items.filter(dropped).len() == items.len(),
    decreases items.len(),
{
    reveal(Seq::filter);
    if items.len() > 0 {
        lemma_filter_partition(items.drop_last(), kept, dropped);
    }
}

} // verus!
