//! What counting does, in terms of what was counted and of what is read back. The
//! laws in this file rest on the contracts of the functions: a premise
//! `call_ensures(f, arguments, result)` says that `result` is what a call of `f` with
//! `arguments` may return.

use crate::collector::Collector;
use crate::counting_up::{law_fits_below_the_limits, nonnegative};
use crate::counts::{
    first_positions, is_counted_at, law_tally, lemma_copy_is_same, lemma_first_is_first,
    lemma_first_positions, lemma_total_without_slot, tallied, tally, FrameCounts,
};
use crate::frames::{law_equal_samples_are_counted_together, UnresolvedFrames};
use crate::hash_counter::{
    bucket_of, has_slot, is_slot_of, lemma_flatten_empty, lemma_total_of_slot, Bucket, Entry,
    HashCounter,
};
use crate::key::CounterKey;
use crate::tally::{
    lemma_same_class, lemma_sum_concat, lemma_sum_is_fold, positive_share, positive_total, share,
};
use crate::temp_fd_array::{buffer_length, TempFdArray};
use vstd::prelude::*;
use vstd::seq_lib::lemma_flatten_concat;

verus! {

/// `sum`, which adds up the positive counts of the entries of the same stack, is the
/// sum that a tally states.
pub proof fn lemma_sum_is_positive_total(
    entries: Seq<Entry<UnresolvedFrames>>,
    sum: spec_fn(UnresolvedFrames) -> int,
)
    requires
        forall|key: UnresolvedFrames| #[trigger]
            sum(key) == entries.fold_left(
                0int,
                |sum: int, e: Entry<UnresolvedFrames>|
                    if {
                        &&& e.count > 0
                        &&& e.item.thread_id == key.thread_id
                        &&& e.item.frames@.len() == key.frames@.len()
                        &&& forall|d: int|
                            0 <= d < key.frames@.len() ==> (#[trigger] e.item.frames@[d]).address
                                == key.frames@[d].address
                    } {
                        sum + e.count
                    } else {
                        sum
                    },
            ),
    ensures
        forall|key: UnresolvedFrames| #[trigger] sum(key) == positive_total(entries, key),
{
    assert forall|key: UnresolvedFrames| #[trigger] sum(key) == positive_total(entries, key) by {
        let step = |sum: int, e: Entry<UnresolvedFrames>|
            if {
                &&& e.count > 0
                &&& e.item.thread_id == key.thread_id
                &&& e.item.frames@.len() == key.frames@.len()
                &&& forall|d: int|
                    0 <= d < key.frames@.len() ==> (#[trigger] e.item.frames@[d]).address
                        == key.frames@[d].address
            } {
                sum + e.count
            } else {
                sum
            };
        let weight = |e: Entry<UnresolvedFrames>| positive_share(e, key);
        assert forall|sum: int, e: Entry<UnresolvedFrames>| #[trigger]
            step(sum, e) == sum + weight(e) by {
            law_equal_samples_are_counted_together(e.item, key);
        }
        lemma_sum_is_fold(entries, weight, step);
    }
}

/// A tally states, for every stack, the sum of the positive counts of its entries,
/// and does not know the stacks without any. It fails if and only if such a sum is no
/// count. Its entries are of different stacks, and each holds the sample of the first
/// entry of its stack with a positive count.
pub proof fn law_tally_sums_up(
    entries: Vec<&Entry<UnresolvedFrames>>,
    sum: spec_fn(UnresolvedFrames) -> int,
    result: Option<FrameCounts>,
)
    requires
        forall|key: UnresolvedFrames| #[trigger]
            sum(key) == entries@.unref().fold_left(
                0int,
                |sum: int, e: Entry<UnresolvedFrames>|
                    if {
                        &&& e.count > 0
                        &&& e.item.thread_id == key.thread_id
                        &&& e.item.frames@.len() == key.frames@.len()
                        &&& forall|d: int|
                            0 <= d < key.frames@.len() ==> (#[trigger] e.item.frames@[d]).address
                                == key.frames@[d].address
                    } {
                        sum + e.count
                    } else {
                        sum
                    },
            ),
        call_ensures(tally, (&entries,), result),
    ensures
        result is Some <==> forall|key: UnresolvedFrames| #[trigger] sum(key) <= isize::MAX,
        result matches Some(counts) ==> {
            &&& forall|key: UnresolvedFrames, count: Option<isize>| #[trigger]
                call_ensures(FrameCounts::get, (&counts, &key), count) ==> count == if sum(key)
                    > 0 {
                    Some(sum(key) as isize)
                } else {
                    None
                }
            &&& forall|i: usize, entry: &Entry<UnresolvedFrames>| #[trigger]
                call_ensures(FrameCounts::entry, (&counts, i), entry) && i < counts@.len() ==> {
                    &&& entry.count == sum(entry.item)
                    &&& entry.count > 0
                    &&& exists|p: int| #[trigger]
                        is_first_of(entries@.unref(), entry.item, p)
                }
            &&& forall|
                i: usize,
                j: usize,
                one: &Entry<UnresolvedFrames>,
                other: &Entry<UnresolvedFrames>,
            |
                {
                    &&& #[trigger] call_ensures(FrameCounts::entry, (&counts, i), one)
                    &&& #[trigger] call_ensures(FrameCounts::entry, (&counts, j), other)
                    &&& i < counts@.len()
                    &&& j < counts@.len()
                    &&& i != j
                } ==> !{
                    &&& one.item.thread_id == other.item.thread_id
                    &&& one.item.frames@.len() == other.item.frames@.len()
                    &&& forall|d: int|
                        0 <= d < one.item.frames@.len() ==> (
                        #[trigger] one.item.frames@[d]).address == other.item.frames@[d].address
                }
        },
{
    let all = entries@.unref();
    lemma_sum_is_positive_total(all, sum);
    if result is Some {
        let counts = result->Some_0;
        lemma_tally_is_read_back(all, counts);
        assert forall|i: usize, entry: &Entry<UnresolvedFrames>| #[trigger]
            call_ensures(FrameCounts::entry, (&counts, i), entry) && i < counts@.len() implies {
            &&& entry.count == sum(entry.item)
            &&& entry.count > 0
            &&& exists|p: int| #[trigger] is_first_of(all, entry.item, p)
        } by {
            lemma_tallied_entry(all, counts@, i as int);
        }
        assert forall|
            i: usize,
            j: usize,
            one: &Entry<UnresolvedFrames>,
            other: &Entry<UnresolvedFrames>,
        |
            {
                &&& #[trigger] call_ensures(FrameCounts::entry, (&counts, i), one)
                &&& #[trigger] call_ensures(FrameCounts::entry, (&counts, j), other)
                &&& i < counts@.len()
                &&& j < counts@.len()
                &&& i != j
            } implies !{
            &&& one.item.thread_id == other.item.thread_id
            &&& one.item.frames@.len() == other.item.frames@.len()
            &&& forall|d: int|
                0 <= d < one.item.frames@.len() ==> (#[trigger] one.item.frames@[d]).address
                    == other.item.frames@[d].address
        } by {
            law_tally(all, counts@, one.item);
            law_equal_samples_are_counted_together(one.item, other.item);
            assert(!counts@[i as int].item.same(&counts@[j as int].item));
        }
    } else {
        let key = choose|key: UnresolvedFrames| positive_total(all, key) > isize::MAX;
        assert(sum(key) > isize::MAX);
    }
}

/// Whether the entry at position `p` is the first with a positive count of the stack of
/// `sample`, and `sample` holds all that the sample of that entry holds.
pub open spec fn is_first_of(
    entries: Seq<Entry<UnresolvedFrames>>,
    sample: UnresolvedFrames,
    p: int,
) -> bool {
    &&& 0 <= p < entries.len()
    &&& entries[p].count > 0
    &&& entries[p].item.frames@ == sample.frames@
    &&& entries[p].item.thread_name == sample.thread_name
    &&& entries[p].item.thread_name_length == sample.thread_name_length
    &&& entries[p].item.thread_id == sample.thread_id
    &&& entries[p].item.sample_timestamp == sample.sample_timestamp
    &&& forall|q: int|
        0 <= q < p && (#[trigger] entries[q]).count > 0 ==> !{
            &&& entries[q].item.thread_id == sample.thread_id
            &&& entries[q].item.frames@.len() == sample.frames@.len()
            &&& forall|d: int|
                0 <= d < sample.frames@.len() ==> (#[trigger] entries[q].item.frames@[d]).address
                    == sample.frames@[d].address
        }
}

/// An entry of a tally holds the sample of the first entry of its stack with a
/// positive count, and the sum of those counts.
proof fn lemma_tallied_entry(
    entries: Seq<Entry<UnresolvedFrames>>,
    counts: Seq<Entry<UnresolvedFrames>>,
    i: int,
)
    requires
        tallied(entries, counts),
        0 <= i < counts.len(),
    ensures
        counts[i].count == positive_total(entries, counts[i].item),
        counts[i].count > 0,
        is_first_of(entries, counts[i].item, first_positions(entries)[i]),
{
    let p = first_positions(entries)[i];
    let first = entries[p].item;
    let sample = counts[i].item;
    law_tally(entries, counts, sample);
    lemma_first_positions(entries);
    lemma_copy_is_same(sample, first);
    sample.law_same_reflexive();
    assert(is_slot_of(counts, sample, i));
    lemma_total_of_slot(counts, sample, i);
    assert forall|q: int| 0 <= q < p && (#[trigger] entries[q]).count > 0 implies !{
        &&& entries[q].item.thread_id == sample.thread_id
        &&& entries[q].item.frames@.len() == sample.frames@.len()
        &&& forall|d: int|
            0 <= d < sample.frames@.len() ==> (#[trigger] entries[q].item.frames@[d]).address
                == sample.frames@[d].address
    } by {
        lemma_first_is_first(entries, i, q);
        lemma_same_class(entries[q].item, sample, first);
        law_equal_samples_are_counted_together(entries[q].item, sample);
        assert(!is_counted_at(entries, first, q));
    }
}

/// Asked for a stack, a tally gives the sum of its positive counts.
pub proof fn lemma_tally_is_read_back(
    entries: Seq<Entry<UnresolvedFrames>>,
    counts: FrameCounts,
)
    requires
        tallied(entries, counts@),
    ensures
        forall|key: UnresolvedFrames, count: Option<isize>| #[trigger]
            call_ensures(FrameCounts::get, (&counts, &key), count) ==> count == if positive_total(
                entries,
                key,
            ) > 0 {
                Some(positive_total(entries, key) as isize)
            } else {
                None
            },
{
    assert forall|key: UnresolvedFrames, count: Option<isize>| #[trigger]
        call_ensures(FrameCounts::get, (&counts, &key), count) implies count
        == if positive_total(entries, key) > 0 {
        Some(positive_total(entries, key) as isize)
    } else {
        None
    } by {
        law_tally(entries, counts@, key);
        if has_slot(counts@, key) {
            let i = choose|i: int| is_slot_of(counts@, key, i);
            lemma_total_of_slot(counts@, key, i);
        } else {
            lemma_total_without_slot(counts@, key);
        }
    }
}

/// Recording adds to the count of the stack and of no other: asked for a stack that the
/// recorded one is equal to, the counts give the sum, or the count alone if the stack
/// was not known; asked for any other, they give what they gave before. If the sum is
/// no count, nothing changes.
pub proof fn law_record_adds_to_one_stack(
    before: FrameCounts,
    key: UnresolvedFrames,
    count: isize,
    after: FrameCounts,
    recorded: bool,
    asked: UnresolvedFrames,
    answer_before: Option<isize>,
    answer_after: Option<isize>,
)
    requires
        before.wf(),
        exists|counts: &mut FrameCounts|
            {
                &&& *counts == before
                &&& *final(counts) == after
                &&& #[trigger] call_ensures(FrameCounts::record, (counts, &key, count), recorded)
            },
        call_ensures(FrameCounts::get, (&before, &asked), answer_before),
        call_ensures(FrameCounts::get, (&after, &asked), answer_after),
    ensures
        ({
            let of_the_stack = {
                &&& key.thread_id == asked.thread_id
                &&& key.frames@.len() == asked.frames@.len()
                &&& forall|d: int|
                    0 <= d < key.frames@.len() ==> (#[trigger] key.frames@[d]).address
                        == asked.frames@[d].address
            };
            if !of_the_stack {
                answer_after == answer_before
            } else {
                match answer_before {
                    None => recorded && answer_after == Some(count),
                    Some(sum) => if isize::MIN <= sum + count <= isize::MAX {
                        recorded && answer_after == Some((sum + count) as isize)
                    } else {
                        !recorded && answer_after == answer_before
                    },
                }
            }
        }),
{
    law_equal_samples_are_counted_together(key, asked);
    before.lemma_distinct();
    after.lemma_distinct();
    let old_entries = before@;
    let new_entries = after@;
    if has_slot(old_entries, key) {
        let i = choose|i: int|
            {
                &&& #[trigger] is_slot_of(old_entries, key, i)
                &&& recorded == (isize::MIN <= old_entries[i].count + count <= isize::MAX)
                &&& new_entries == if recorded {
                    old_entries.update(
                        i,
                        (Entry {
                            item: old_entries[i].item,
                            count: (old_entries[i].count + count) as isize,
                        }),
                    )
                } else {
                    old_entries
                }
            };
        assert(new_entries[i].item == old_entries[i].item);
        assert forall|j: int| is_slot_of(old_entries, asked, j) == is_slot_of(
            new_entries,
            asked,
            j,
        ) by {
        }
        assert(has_slot(old_entries, asked) == has_slot(new_entries, asked)) by {
            if has_slot(old_entries, asked) {
                let j = choose|j: int| is_slot_of(old_entries, asked, j);
                assert(is_slot_of(new_entries, asked, j));
            }
            if has_slot(new_entries, asked) {
                let j = choose|j: int| is_slot_of(new_entries, asked, j);
                assert(is_slot_of(old_entries, asked, j));
            }
        }
        if key.same(&asked) {
            old_entries[i].item.law_same_transitive(&key, &asked);
            assert(is_slot_of(old_entries, asked, i));
            assert(is_slot_of(new_entries, asked, i));
            lemma_total_of_slot(old_entries, asked, i);
            lemma_total_of_slot(new_entries, asked, i);
        } else if has_slot(old_entries, asked) {
            let j = choose|j: int| is_slot_of(old_entries, asked, j);
            if j == i {
                key.law_same_reflexive();
                old_entries[i].item.law_same_symmetric(&key);
                key.law_same_transitive(&old_entries[i].item, &asked);
            }
            assert(is_slot_of(new_entries, asked, j));
            lemma_total_of_slot(old_entries, asked, j);
            lemma_total_of_slot(new_entries, asked, j);
        }
    } else {
        let last = new_entries.len() - 1;
        lemma_copy_is_same(new_entries[last].item, key);
        lemma_same_class(asked, new_entries[last].item, key);
        assert forall|j: int| 0 <= j < last implies new_entries[j] == old_entries[j] by {
            assert(new_entries.drop_last()[j] == old_entries[j]);
        }
        if key.same(&asked) {
            new_entries[last].item.law_same_transitive(&key, &asked);
            assert(is_slot_of(new_entries, asked, last));
            lemma_total_of_slot(new_entries, asked, last);
            if has_slot(old_entries, asked) {
                let j = choose|j: int| is_slot_of(old_entries, asked, j);
                key.law_same_symmetric(&asked);
                old_entries[j].item.law_same_transitive(&asked, &key);
                assert(is_slot_of(old_entries, key, j));
            }
        } else {
            if has_slot(old_entries, asked) {
                let j = choose|j: int| is_slot_of(old_entries, asked, j);
                assert(is_slot_of(new_entries, asked, j));
                lemma_total_of_slot(old_entries, asked, j);
                lemma_total_of_slot(new_entries, asked, j);
            } else if has_slot(new_entries, asked) {
                let j = choose|j: int| is_slot_of(new_entries, asked, j);
                if j < last {
                    assert(is_slot_of(old_entries, asked, j));
                }
            }
        }
    }
}

/// Counts of no stacks give none, whichever they are asked for.
pub proof fn law_new_counts_know_no_stack(
    counts: FrameCounts,
    len: usize,
    asked: UnresolvedFrames,
    answer: Option<isize>,
)
    requires
        call_ensures(FrameCounts::new, (), counts),
        call_ensures(FrameCounts::len, (&counts,), len),
        call_ensures(FrameCounts::get, (&counts, &asked), answer),
    ensures
        len == 0,
        answer is None,
{
}

/// A buffer holds as many items as fit in 2^18 bytes, and one at the least.
pub proof fn law_buffer_is_filled<T>(length: usize)
    requires
        call_ensures(buffer_length::<T>, (), length),
    ensures
        0 < vstd::layout::size_of::<T>() <= 262144 ==> length == 262144nat
            / vstd::layout::size_of::<T>(),
        !(0 < vstd::layout::size_of::<T>() <= 262144) ==> length == 1,
{
}

/// An array that is new, or was cleared, has nothing in its buffer, has handed out no
/// block, and consists of nothing.
pub proof fn law_new_and_cleared_arrays_are_empty<T>(
    array: TempFdArray<T>,
    index: usize,
    blocks: usize,
    file: &[T],
    items: Option<Vec<&T>>,
)
    requires
        call_ensures(TempFdArray::<T>::new, (), array) || exists|cleared: &mut TempFdArray<T>|
            {
                &&& *final(cleared) == array
                &&& #[trigger] call_ensures(TempFdArray::<T>::clear, (cleared,), ())
            },
        call_ensures(TempFdArray::<T>::buffer_index, (&array,), index),
        call_ensures(TempFdArray::<T>::flush_n, (&array,), blocks),
        file@.len() == 0,
        call_ensures(TempFdArray::<T>::try_iter, (&array, file), items),
    ensures
        index == 0,
        blocks == 0,
        items matches Some(items) && items@.len() == 0,
{
    assert(0 * TempFdArray::<T>::block_length() == 0);
    if items is Some {
        assert(items->Some_0@.unref().len() == items->Some_0@.len());
    }
}

/// Pushing appends one item and loses none: if no block is handed out, the item stands
/// behind those in the buffer. If one is, it is all that was in the buffer, a full one,
/// and once it is appended to the file the item is alone before what the file holds.
pub proof fn law_push_appends_one_item<T>(
    before: TempFdArray<T>,
    item: T,
    after: TempFdArray<T>,
    block: Option<Vec<T>>,
    index: usize,
    blocks: usize,
    blocks_after: usize,
    length: usize,
    file: &[T],
    items: Vec<&T>,
    file_after: &[T],
    items_after: Option<Vec<&T>>,
)
    requires
        before.wf(),
        exists|array: &mut TempFdArray<T>|
            {
                &&& *array == before
                &&& *final(array) == after
                &&& #[trigger] call_ensures(TempFdArray::<T>::push, (array, item), block)
            },
        call_ensures(TempFdArray::<T>::buffer_index, (&before,), index),
        call_ensures(TempFdArray::<T>::flush_n, (&before,), blocks),
        call_ensures(TempFdArray::<T>::flush_n, (&after,), blocks_after),
        call_ensures(buffer_length::<T>, (), length),
        call_ensures(TempFdArray::<T>::try_iter, (&before, file), Some(items)),
        file_after@ == file@ + match block {
            Some(block) => block@,
            None => Seq::empty(),
        },
        call_ensures(TempFdArray::<T>::try_iter, (&after, file_after), items_after),
    ensures
        index <= length,
        items_after is Some,
        block is None <==> index < length,
        match block {
            None => {
                &&& blocks_after == blocks
                &&& items_after->Some_0@.unref() == items@.unref().insert(index as int, item)
            },
            Some(block) => {
                &&& blocks_after == blocks + 1
                &&& block@.len() == length
                &&& block@ == items@.unref().take(index as int)
                &&& items_after->Some_0@.unref() == seq![item] + file@ + block@
            },
        },
{
    let n = before.blocks() as int;
    let full = TempFdArray::<T>::block_length() as int;
    assert((n + 1) * full == n * full + full) by (nonlinear_arith);
    assert(file_after@.len() == after.blocks() * TempFdArray::<T>::block_length());
    assert(items@.unref() =~= before.buffered() + file@);
    match block {
        None => {
            assert(file_after@ =~= file@);
            assert(items@.unref().insert(index as int, item) =~= before.buffered().push(item)
                + file@);
        },
        Some(block) => {
            assert(items@.unref().take(index as int) =~= before.buffered());
            assert(seq![item] + (file@ + block@) =~= seq![item] + file@ + block@);
        },
    }
}

/// A table that is new, or was cleared, has no entries. The first key that is counted
/// is then alone in it, with its count, and nothing had to leave.
pub proof fn law_new_and_cleared_tables_are_empty<T: CounterKey>(
    table: HashCounter<T>,
    entries: Vec<&Entry<T>>,
    key: T,
    count: isize,
    after: HashCounter<T>,
    evicted: Option<Entry<T>>,
    entries_after: Vec<&Entry<T>>,
)
    requires
        call_ensures(<HashCounter<T> as Default>::default, (), table) || exists|
            cleared: &mut HashCounter<T>,
        |
            {
                &&& *final(cleared) == table
                &&& #[trigger] call_ensures(HashCounter::<T>::clear, (cleared,), ())
            },
        call_ensures(HashCounter::<T>::iter, (&table,), entries),
        exists|counter: &mut HashCounter<T>|
            {
                &&& *counter == table
                &&& *final(counter) == after
                &&& #[trigger] call_ensures(HashCounter::<T>::add, (counter, key, count), evicted)
            },
        call_ensures(HashCounter::<T>::iter, (&after,), entries_after),
    ensures
        entries@.len() == 0,
        evicted is None,
        entries_after@.len() == 1,
        *entries_after@[0] == (Entry { item: key, count }),
{
    assert(entries@.unref().len() == entries@.len());
    let b = bucket_of(key);
    assert(table@[b] == Seq::<Entry<T>>::empty());
    assert(!has_slot(table@[b], key)) by {
        assert forall|i: int| !is_slot_of(table@[b], key, i) by {
        }
    }
    let one = seq![(Entry { item: key, count })];
    assert(Seq::<Entry<T>>::empty().push((Entry { item: key, count })) =~= one);
    assert(after@[b] == one);
    let buckets = after@;
    let front = buckets.take(b);
    let back = buckets.skip(b + 1);
    assert(buckets =~= front.push(one) + back);
    lemma_flatten_concat(front.push(one), back);
    front.lemma_flatten_push(one);
    lemma_flatten_empty(front);
    lemma_flatten_empty(back);
    assert(buckets.flatten() =~= one);
    assert(entries_after@.unref() == one);
    assert(entries_after@.unref()[0] == *entries_after@[0]);
}

/// An entry only has to leave a bucket with four of them, none of which is of the key;
/// it is one with the least count.
pub proof fn law_least_entry_leaves_a_full_bucket<T: CounterKey>(
    before: Bucket<T>,
    key: T,
    count: isize,
    after: Bucket<T>,
    left: Entry<T>,
)
    requires
        before.wf(),
        exists|bucket: &mut Bucket<T>|
            {
                &&& *bucket == before
                &&& *final(bucket) == after
                &&& #[trigger] call_ensures(Bucket::<T>::add, (bucket, key, count), Some(left))
            },
    ensures
        before@.len() == 4,
        before@.contains(left),
        forall|i: int|
            0 <= i < before@.len() ==> {
                &&& !(#[trigger] before@[i]).item.same(&key)
                &&& left.count <= before@[i].count
            },
{
    assert forall|i: int| 0 <= i < before@.len() implies !(#[trigger] before@[i]).item.same(
        &key,
    ) by {
        assert(!is_slot_of(before@, key, i));
    }
}

/// A collector that is new, or was cleared, has no entries, in memory or in the file.
pub proof fn law_new_and_cleared_collectors_are_empty<T: CounterKey>(
    collector: Collector<T>,
    blocks: usize,
    file: &[Entry<T>],
    entries: Option<Vec<&Entry<T>>>,
)
    requires
        call_ensures(Collector::<T>::new, (), collector) || exists|cleared: &mut Collector<T>|
            {
                &&& *final(cleared) == collector
                &&& #[trigger] call_ensures(Collector::<T>::clear, (cleared,), ())
            },
        call_ensures(Collector::<T>::file_blocks, (&collector,), blocks),
        file@.len() == 0,
        call_ensures(Collector::<T>::try_iter, (&collector, file), entries),
    ensures
        blocks == 0,
        entries matches Some(entries) && entries@.len() == 0,
{
    lemma_empty_collector_is_read_back(collector);
}

/// A collector without counts has no blocks in its file, and no entries.
pub proof fn lemma_empty_collector_is_read_back<T: CounterKey>(collector: Collector<T>)
    requires
        collector.is_empty(),
    ensures
        forall|blocks: usize| #[trigger]
            call_ensures(Collector::<T>::file_blocks, (&collector,), blocks) ==> blocks == 0,
        forall|file: &[Entry<T>], entries: Option<Vec<&Entry<T>>>|
            file@.len() == 0 && #[trigger] call_ensures(
                Collector::<T>::try_iter,
                (&collector, file),
                entries,
            ) ==> (entries matches Some(entries) && entries@.len() == 0),
{
    lemma_flatten_empty(collector.table()@);
    assert(0 * TempFdArray::<Entry<T>>::block_length() == 0);
    assert forall|file: &[Entry<T>], entries: Option<Vec<&Entry<T>>>|
        file@.len() == 0 && #[trigger] call_ensures(
            Collector::<T>::try_iter,
            (&collector, file),
            entries,
        ) implies (entries matches Some(entries) && entries@.len() == 0) by {
        if entries is Some {
            assert(entries->Some_0@.unref().len() == entries->Some_0@.len());
        }
    }
}

/// Counting adds to the sum of one key and of no other, over all that reading the collector
/// gives before and after, if the block that is handed out is appended to the file.
pub proof fn law_add_adds_to_one_key<T: CounterKey>(
    before: Collector<T>,
    key: T,
    count: isize,
    after: Collector<T>,
    block: Option<Vec<Entry<T>>>,
    file: &[Entry<T>],
    entries: Vec<&Entry<T>>,
    file_after: &[Entry<T>],
    entries_after: Option<Vec<&Entry<T>>>,
    asked: T,
)
    requires
        before.wf(),
        exists|collector: &mut Collector<T>|
            {
                &&& *collector == before
                &&& *final(collector) == after
                &&& #[trigger] call_ensures(Collector::<T>::add, (collector, key, count), block)
            },
        call_ensures(Collector::<T>::try_iter, (&before, file), Some(entries)),
        file_after@ == file@ + match block {
            Some(block) => block@,
            None => Seq::empty(),
        },
        call_ensures(Collector::<T>::try_iter, (&after, file_after), entries_after),
    ensures
        entries_after matches Some(entries_after) && entries_after@.unref().fold_left(
            0int,
            |sum: int, e: Entry<T>|
                if e.item.same(&asked) {
                    sum + e.count
                } else {
                    sum
                },
        ) == entries@.unref().fold_left(
            0int,
            |sum: int, e: Entry<T>|
                if e.item.same(&asked) {
                    sum + e.count
                } else {
                    sum
                },
        ) + if key.same(&asked) {
            count as int
        } else {
            0
        },
{
    let step = |sum: int, e: Entry<T>|
        if e.item.same(&asked) {
            sum + e.count
        } else {
            sum
        };
    let weight = |e: Entry<T>| share(e, asked);
    let handed_out = match block {
        Some(block) => block@,
        None => Seq::empty(),
    };
    let n = before.overflow().blocks() as int;
    let full = TempFdArray::<Entry<T>>::block_length() as int;
    assert((n + 1) * full == n * full + full) by (nonlinear_arith);
    assert(after.overflow().spilled() =~= before.overflow().spilled() + handed_out);
    assert(after.is_file_length(file_after@.len()));
    lemma_sum_is_fold(entries@.unref(), weight, step);
    lemma_sum_is_fold(entries_after->Some_0@.unref(), weight, step);
    lemma_sum_concat(before.in_memory(), file@, weight);
    lemma_sum_concat(after.in_memory(), file_after@, weight);
    lemma_sum_concat(file@, handed_out, weight);
    lemma_sum_concat(before.in_memory(), before.overflow().spilled(), weight);
    lemma_sum_concat(after.in_memory(), after.overflow().spilled(), weight);
    lemma_sum_concat(before.overflow().spilled(), handed_out, weight);
    assert(after.recorded(asked) == before.recorded(asked) + share(
        (Entry { item: key, count }),
        asked,
    ));
}

/// As long as no count is negative, a key was counted less often than a count can tell, and
/// less was handed out for the file than a length can tell, the key can be counted.
pub proof fn law_keys_can_be_counted<T: CounterKey>(
    collector: &mut Collector<T>,
    key: T,
    count: isize,
)
    requires
        old(collector).wf(),
        nonnegative(old(collector).entries()),
        count >= 0,
        old(collector).recorded(key) + count <= isize::MAX,
        old(collector).overflow().spilled().len() < usize::MAX,
    ensures
        call_requires(Collector::<T>::add, (old(collector), key, count)),
{
    law_fits_below_the_limits(*collector, key, count);
}

} // verus!
