//! Sums of counts over sequences of entries.

use crate::hash_counter::Entry;
use crate::key::CounterKey;
use vstd::prelude::*;

verus! {

/// The sum of the weights of the entries.
pub open spec fn sum_by<T>(entries: Seq<Entry<T>>, weight: spec_fn(Entry<T>) -> int) -> int
    decreases entries.len(),
{
    if entries.len() == 0 {
        0
    } else {
        sum_by(entries.drop_last(), weight) + weight(entries.last())
    }
}

/// What an entry contributes to the count of `key`.
pub open spec fn share<T: CounterKey>(entry: Entry<T>, key: T) -> int {
    if entry.item.same(&key) {
        entry.count as int
    } else {
        0
    }
}

/// What an entry contributes to the count of `key` where only positive counts
/// are taken into account.
pub open spec fn positive_share<T: CounterKey>(entry: Entry<T>, key: T) -> int {
    if entry.count > 0 {
        share(entry, key)
    } else {
        0
    }
}

/// The count of `key`, over all entries.
pub open spec fn total<T: CounterKey>(entries: Seq<Entry<T>>, key: T) -> int {
    sum_by(entries, |entry: Entry<T>| share(entry, key))
}

/// The count of `key`, over the entries with a positive count.
pub open spec fn positive_total<T: CounterKey>(entries: Seq<Entry<T>>, key: T) -> int {
    sum_by(entries, |entry: Entry<T>| positive_share(entry, key))
}

/// A sum over two sequences is the sum of the two sums.
pub proof fn lemma_sum_concat<T>(
    a: Seq<Entry<T>>,
    b: Seq<Entry<T>>,
    weight: spec_fn(Entry<T>) -> int,
)
    ensures
        sum_by(a + b, weight) == sum_by(a, weight) + sum_by(b, weight),
    decreases b.len(),
{
    if b.len() == 0 {
        assert(a + b =~= a);
    } else {
        assert((a + b).drop_last() =~= a + b.drop_last());
        lemma_sum_concat(a, b.drop_last(), weight);
    }
}

/// One more entry adds its weight.
pub proof fn lemma_sum_push<T>(
    entries: Seq<Entry<T>>,
    entry: Entry<T>,
    weight: spec_fn(Entry<T>) -> int,
)
    ensures
        sum_by(entries.push(entry), weight) == sum_by(entries, weight) + weight(entry),
{
    assert(entries.push(entry).drop_last() =~= entries);
}

/// An entry that takes the place of another changes the sum by the difference
/// of the weights.
pub proof fn lemma_sum_update<T>(
    entries: Seq<Entry<T>>,
    i: int,
    entry: Entry<T>,
    weight: spec_fn(Entry<T>) -> int,
)
    requires
        0 <= i < entries.len(),
    ensures
        sum_by(entries.update(i, entry), weight) == sum_by(entries, weight) - weight(entries[i])
            + weight(entry),
    decreases entries.len(),
{
    let updated = entries.update(i, entry);
    if i == entries.len() - 1 {
        assert(updated.drop_last() =~= entries.drop_last());
    } else {
        assert(updated.drop_last() =~= entries.drop_last().update(i, entry));
        lemma_sum_update(entries.drop_last(), i, entry, weight);
    }
}

/// Without a weight other than zero, the sum is zero.
pub proof fn lemma_sum_zero<T>(entries: Seq<Entry<T>>, weight: spec_fn(Entry<T>) -> int)
    requires
        forall|i: int| 0 <= i < entries.len() ==> weight(#[trigger] entries[i]) == 0,
    ensures
        sum_by(entries, weight) == 0,
    decreases entries.len(),
{
    if entries.len() > 0 {
        assert(weight(entries[entries.len() - 1]) == 0);
        assert forall|i: int| 0 <= i < entries.drop_last().len() implies weight(
            #[trigger] entries.drop_last()[i],
        ) == 0 by {
            assert(entries.drop_last()[i] == entries[i]);
        }
        lemma_sum_zero(entries.drop_last(), weight);
    }
}

/// Weights that agree on every entry give the same sum.
pub proof fn lemma_sum_same_weights<T>(
    entries: Seq<Entry<T>>,
    weight1: spec_fn(Entry<T>) -> int,
    weight2: spec_fn(Entry<T>) -> int,
)
    requires
        forall|i: int|
            0 <= i < entries.len() ==> weight1(#[trigger] entries[i]) == weight2(entries[i]),
    ensures
        sum_by(entries, weight1) == sum_by(entries, weight2),
    decreases entries.len(),
{
    if entries.len() > 0 {
        assert(weight1(entries[entries.len() - 1]) == weight2(entries[entries.len() - 1]));
        assert forall|i: int| 0 <= i < entries.drop_last().len() implies weight1(
            #[trigger] entries.drop_last()[i],
        ) == weight2(entries.drop_last()[i]) by {
            assert(entries.drop_last()[i] == entries[i]);
        }
        lemma_sum_same_weights(entries.drop_last(), weight1, weight2);
    }
}

/// Where no weight is negative, the sum over the first entries is at most the
/// sum over all.
pub proof fn lemma_sum_monotone<T>(
    entries: Seq<Entry<T>>,
    n: int,
    weight: spec_fn(Entry<T>) -> int,
)
    requires
        0 <= n <= entries.len(),
        forall|entry: Entry<T>| #[trigger] weight(entry) >= 0,
    ensures
        0 <= sum_by(entries.take(n), weight) <= sum_by(entries, weight),
    decreases entries.len(),
{
    if n == entries.len() {
        assert(entries.take(n) =~= entries);
        if n > 0 {
            lemma_sum_monotone(entries.drop_last(), n - 1, weight);
            assert(entries.drop_last().take(n - 1) =~= entries.drop_last());
        }
    } else {
        lemma_sum_monotone(entries.drop_last(), n, weight);
        assert(entries.drop_last().take(n) =~= entries.take(n));
    }
}

/// A sum is what comes of going through the entries and adding the weight of each.
pub proof fn lemma_sum_is_fold<T>(
    entries: Seq<Entry<T>>,
    weight: spec_fn(Entry<T>) -> int,
    step: spec_fn(int, Entry<T>) -> int,
)
    requires
        forall|sum: int, entry: Entry<T>| #[trigger] step(sum, entry) == sum + weight(entry),
    ensures
        sum_by(entries, weight) == entries.fold_left(0int, step),
    decreases entries.len(),
{
    if entries.len() > 0 {
        lemma_sum_is_fold(entries.drop_last(), weight, step);
    }
}

/// Keys that are the same have the same count.
pub proof fn lemma_total_same_key<T: CounterKey>(entries: Seq<Entry<T>>, key: T, other: T)
    requires
        key.same(&other),
    ensures
        total(entries, key) == total(entries, other),
        positive_total(entries, key) == positive_total(entries, other),
{
    assert forall|entry: Entry<T>| #[trigger] share(entry, key) == share(entry, other) by {
        lemma_same_class(entry.item, key, other);
    }
    assert forall|entry: Entry<T>| #[trigger] positive_share(entry, key) == positive_share(
        entry,
        other,
    ) by {
        assert(share(entry, key) == share(entry, other));
    }
    lemma_sum_same_weights(
        entries,
        |entry: Entry<T>| share(entry, key),
        |entry: Entry<T>| share(entry, other),
    );
    lemma_sum_same_weights(
        entries,
        |entry: Entry<T>| positive_share(entry, key),
        |entry: Entry<T>| positive_share(entry, other),
    );
}

/// Of two keys that are the same, a third is the same as both or as neither.
pub proof fn lemma_same_class<T: CounterKey>(third: T, key: T, other: T)
    requires
        key.same(&other),
    ensures
        third.same(&key) == third.same(&other),
        key.same(&third) == other.same(&third),
{
    key.law_same_symmetric(&other);
    if third.same(&key) {
        third.law_same_transitive(&key, &other);
    }
    if third.same(&other) {
        third.law_same_transitive(&other, &key);
    }
    if key.same(&third) {
        other.law_same_transitive(&key, &third);
    }
    if other.same(&third) {
        key.law_same_transitive(&other, &third);
    }
}

} // verus!
