//! Sums over sequences, and how they change when the sequence is edited.

use vstd::prelude::*;

verus! {

/// The sum of `weight` over the items of a sequence.
pub open spec fn sum_by<T>(items: Seq<T>, weight: spec_fn(T) -> nat) -> nat
    decreases items.len(),
{
    if items.len() == 0 {
        0
    } else {
        sum_by(items.drop_last(), weight) + weight(items.last())
    }
}

/// The sum over a concatenation is the sum of the sums.
pub proof fn lemma_sum_concat<T>(front: Seq<T>, back: Seq<T>, weight: spec_fn(T) -> nat)
    ensures
        sum_by(front + back, weight) == sum_by(front, weight) + sum_by(back, weight),
    decreases back.len(),
{
    if back.len() == 0 {
        assert(front + back =~= front);
    } else {
        lemma_sum_concat(front, back.drop_last(), weight);
        assert((front + back).drop_last() =~= front + back.drop_last());
        assert((front + back).last() == back.last());
    }
}

/// The sum over a single item is its weight.
pub proof fn lemma_sum_single<T>(item: T, weight: spec_fn(T) -> nat)
    ensures
        sum_by(seq![item], weight) == weight(item),
{
    assert(seq![item].drop_last() =~= Seq::<T>::empty());
    assert(sum_by(seq![item].drop_last(), weight) == 0);
}

/// Replacing one item changes the sum by the difference of the two weights.
pub proof fn lemma_sum_update<T>(items: Seq<T>, at: int, item: T, weight: spec_fn(T) -> nat)
    requires
        0 <= at < items.len(),
    ensures
        sum_by(items.update(at, item), weight) + weight(items[at]) == sum_by(items, weight) + weight(
            item,
        ),
{
    let front = items.take(at);
    let back = items.skip(at + 1);
    assert(items =~= front + (seq![items[at]] + back));
    assert(items.update(at, item) =~= front + (seq![item] + back));
    lemma_sum_concat(front, seq![items[at]] + back, weight);
    lemma_sum_concat(seq![items[at]], back, weight);
    lemma_sum_concat(front, seq![item] + back, weight);
    lemma_sum_concat(seq![item], back, weight);
    lemma_sum_single(items[at], weight);
    lemma_sum_single(item, weight);
}

/// Inserting an item adds its weight to the sum.
pub proof fn lemma_sum_insert<T>(items: Seq<T>, at: int, item: T, weight: spec_fn(T) -> nat)
    requires
        0 <= at <= items.len(),
    ensures
        sum_by(items.insert(at, item), weight) == sum_by(items, weight) + weight(item),
{
    let front = items.take(at);
    let back = items.skip(at);
    assert(items =~= front + back);
    assert(items.insert(at, item) =~= front + (seq![item] + back));
    lemma_sum_concat(front, back, weight);
    lemma_sum_concat(front, seq![item] + back, weight);
    lemma_sum_concat(seq![item], back, weight);
    lemma_sum_single(item, weight);
}

/// Removing an item takes its weight off the sum.
pub proof fn lemma_sum_remove<T>(items: Seq<T>, at: int, weight: spec_fn(T) -> nat)
    requires
        0 <= at < items.len(),
    ensures
        sum_by(items.remove(at), weight) + weight(items[at]) == sum_by(items, weight),
{
    let front = items.take(at);
    let back = items.skip(at + 1);
    assert(items =~= front + (seq![items[at]] + back));
    assert(items.remove(at) =~= front + back);
    lemma_sum_concat(front, seq![items[at]] + back, weight);
    lemma_sum_concat(seq![items[at]], back, weight);
    lemma_sum_concat(front, back, weight);
    lemma_sum_single(items[at], weight);
}

/// Where every item weighs nothing, so does the whole.
pub proof fn lemma_sum_zero<T>(items: Seq<T>, weight: spec_fn(T) -> nat)
    requires
        forall|i: int| 0 <= i < items.len() ==> weight(#[trigger] items[i]) == 0,
    ensures
        sum_by(items, weight) == 0,
    decreases items.len(),
{
    if items.len() > 0 {
        lemma_sum_zero(items.drop_last(), weight);
    }
}

/// Filtering keeps a sequence as it is where every item passes.
pub proof fn lemma_filter_keeps_all<T>(items: Seq<T>, keep: spec_fn(T) -> bool)
    requires
        forall|i: int| 0 <= i < items.len() ==> keep(#[trigger] items[i]),
    ensures
        items.filter(keep) == items,
    decreases items.len(),
{
    reveal(Seq::filter);
    if items.len() > 0 {
        lemma_filter_keeps_all(items.drop_last(), keep);
        assert(items.drop_last().push(items.last()) =~= items);
    }
}

/// Filtering removes the one item that does not pass.
pub proof fn lemma_filter_drops_one<T>(items: Seq<T>, keep: spec_fn(T) -> bool, at: int)
    requires
        0 <= at < items.len(),
        !keep(items[at]),
        forall|i: int| 0 <= i < items.len() && i != at ==> keep(#[trigger] items[i]),
    ensures
        items.filter(keep) == items.remove(at),
    decreases items.len(),
{
    reveal(Seq::filter);
    let front = items.drop_last();
    if at == items.len() - 1 {
        lemma_filter_keeps_all(front, keep);
        assert(items.remove(at) =~= front);
    } else {
        lemma_filter_drops_one(front, keep, at);
        assert(front.remove(at).push(items.last()) =~= items.remove(at));
    }
}

} // verus!
