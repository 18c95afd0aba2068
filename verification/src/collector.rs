//! Counting of samples.
//!
//! A [`HashCounter`] counts in a table of fixed size. When a bucket of the
//! table is full, the entry with the least count makes way for a new one. The
//! entries that leave the table go to a [`TempFdArray`], which gathers them in
//! a buffer; each time the buffer is full, its contents are handed out as a
//! block, to be stored in a temporary file. A [`Collector`] is the two together.

pub use crate::hash_counter::{Bucket, Entry, HashCounter, BUCKETS, BUCKETS_ASSOCIATIVITY};
pub use crate::temp_fd_array::{buffer_length, TempFdArray, BUFFER_BYTES};

use crate::hash_counter::{
    bucket_of, counted, empty_buckets, has_slot, is_slot_of, lemma_counted_total,
    lemma_total_update_bucket,
};
use crate::key::CounterKey;
use crate::tally::{lemma_sum_concat, lemma_sum_push, share, total};
use crate::temp_fd_array::pushed;
use vstd::prelude::*;

verus! {

/// Counts things, any number of them: those that the table has no room for are
/// in an array that grows in a temporary file.
pub struct Collector<T> {
    map: HashCounter<T>,
    temp_array: TempFdArray<Entry<T>>,
}

impl<T> Collector<T> {
    /// The table of counts.
    pub closed spec fn table(&self) -> HashCounter<T> {
        self.map
    }

    /// The entries that left the table.
    pub closed spec fn overflow(&self) -> TempFdArray<Entry<T>> {
        self.temp_array
    }

    /// The entries that are in memory.
    pub open spec fn in_memory(&self) -> Seq<Entry<T>> {
        self.table().entries() + self.overflow().buffered()
    }

    /// All entries, those that were handed out for the file included.
    pub open spec fn entries(&self) -> Seq<Entry<T>> {
        self.in_memory() + self.overflow().spilled()
    }

    /// Whether nothing was counted.
    pub open spec fn is_empty(&self) -> bool {
        self.table()@ == empty_buckets::<T>() && self.overflow().is_empty()
    }
}

/// What becomes of a collector when `key` is counted `count` more times, and
/// which block is handed out for the file: the table counts the key, and the
/// entry that leaves it, if any, is pushed to the array.
pub open spec fn added<T: CounterKey>(
    before: Collector<T>,
    key: T,
    count: isize,
    after: Collector<T>,
    block: Option<Vec<Entry<T>>>,
) -> bool {
    let b = bucket_of(key);
    &&& after.table()@ == before.table()@.update(b, after.table()@[b])
    &&& exists|evicted: Option<Entry<T>>|
        {
            &&& #[trigger] counted(
                before.table()@[b],
                key,
                count,
                after.table()@[b],
                evicted,
            )
            &&& match evicted {
                None => after.overflow() == before.overflow() && block is None,
                Some(entry) => pushed(before.overflow(), entry, after.overflow(), block),
            }
        }
}

impl<T: CounterKey> Collector<T> {
    /// The table and the array are well-formed.
    pub open spec fn wf(&self) -> bool {
        self.table().wf() && self.overflow().wf()
    }

    /// The number of times that `key` was counted.
    pub open spec fn recorded(&self, key: T) -> int {
        total(self.entries(), key)
    }

    /// Whether the counts still fit their integers after `key` is counted
    /// `count` more times.
    pub open spec fn fits(&self, key: T, count: isize) -> bool {
        &&& isize::MIN <= self.table().count_of(key) + count <= isize::MAX
        &&& self.overflow().has_room()
    }

    /// A collector that has counted nothing.
    pub fn new() -> (collector: Self)
        ensures
            collector.wf(),
            collector.is_empty(),
            collector.entries() == Seq::<Entry<T>>::empty(),
    {
        let collector = Collector { map: HashCounter::default(), temp_array: TempFdArray::new() };
        assert(collector.entries() =~= Seq::<Entry<T>>::empty());
        collector
    }

    /// Counts `key` for `count` more times. Returns the block that is to be
    /// appended to the file, if there is one to be.
    pub fn add(&mut self, key: T, count: isize) -> (block: Option<Vec<Entry<T>>>)
        requires
            old(self).wf(),
            old(self).fits(key, count),
        ensures
            final(self).wf(),
            added(*old(self), key, count, *final(self), block),
            forall|any: T|
                #![trigger final(self).recorded(any)]
                final(self).recorded(any) == old(self).recorded(any) + share(
                    (Entry { item: key, count }),
                    any,
                ),
    {
        let ghost before = *self;
        let evicted: Option<Entry<T>> = self.map.add(key, count);
        let ghost left = evicted;
        let block: Option<Vec<Entry<T>>> = match evicted {
            None => None,
            Some(entry) => self.temp_array.push(entry),
        };
        proof {
            let b = bucket_of(key);
            assert(counted(before.table()@[b], key, count, self.table()@[b], left));
            assert(added(before, key, count, *self, block));
            assert forall|any: T| #![trigger self.recorded(any)]
                self.recorded(any) == before.recorded(any) + share(
                    (Entry { item: key, count }),
                    any,
                ) by {
                law_add_conserves(before, key, count, *self, block, any);
            }
        }
        block
    }

    /// The number of blocks that the file holds.
    pub fn file_blocks(&self) -> (n: usize)
        ensures
            n == self.overflow().blocks(),
    {
        self.temp_array.flush_n()
    }

    /// All entries, given those that the file holds: first the table's, then
    /// those that left it. There are none if the file does not hold as many
    /// entries as were handed out for it.
    pub fn try_iter<'a>(&'a self, file: &'a [Entry<T>]) -> (entries: Option<Vec<&'a Entry<T>>>)
        ensures
            match entries {
                Some(entries) => {
                    &&& self.is_file_length(file@.len())
                    &&& entries@.unref() == self.in_memory() + file@
                },
                None => !self.is_file_length(file@.len()),
            },
    {
        match self.temp_array.try_iter(file) {
            None => None,
            Some(overflow) => {
                let mut entries: Vec<&'a Entry<T>> = self.map.iter();
                let mut overflow = overflow;
                let ghost front = entries@;
                let ghost back = overflow@;
                entries.append(&mut overflow);
                proof {
                    assert(entries@ == front + back);
                    assert(entries@.unref() =~= front.unref() + back.unref());
                    assert(entries@.unref() =~= self.in_memory() + file@);
                }
                Some(entries)
            },
        }
    }

    /// Whether a file with `length` entries holds as many as were handed out
    /// for it.
    pub open spec fn is_file_length(&self, length: nat) -> bool {
        length == self.overflow().blocks() * TempFdArray::<Entry<T>>::block_length()
    }

    /// Forgets all counts. The file is to be truncated.
    pub fn clear(&mut self)
        ensures
            final(self).wf(),
            final(self).is_empty(),
            final(self).entries() == Seq::<Entry<T>>::empty(),
    {
        self.map.clear();
        self.temp_array.clear();
        assert(self.entries() =~= Seq::<Entry<T>>::empty());
    }
}

/// Nothing that was counted gets lost and nothing is counted twice, whatever
/// leaves the table or is handed out for the file: counting a key raises the
/// number of times that it was counted, and changes that of no other.
pub proof fn law_add_conserves<T: CounterKey>(
    before: Collector<T>,
    key: T,
    count: isize,
    after: Collector<T>,
    block: Option<Vec<Entry<T>>>,
    any: T,
)
    requires
        before.wf(),
        before.fits(key, count),
        added(before, key, count, after, block),
    ensures
        after.recorded(any) == before.recorded(any) + share((Entry { item: key, count }), any),
{
    let b = bucket_of(key);
    let weight = |entry: Entry<T>| share(entry, any);
    let evicted = choose|evicted: Option<Entry<T>>|
        {
            &&& #[trigger] counted(
                before.table()@[b],
                key,
                count,
                after.table()@[b],
                evicted,
            )
            &&& match evicted {
                None => after.overflow() == before.overflow() && block is None,
                Some(entry) => pushed(before.overflow(), entry, after.overflow(), block),
            }
        };
    lemma_counted_total(before.table()@[b], key, count, after.table()@[b], evicted, any);
    lemma_total_update_bucket(before.table()@, b, after.table()@[b], any);
    lemma_recorded_parts(before, any);
    lemma_recorded_parts(after, any);
    if let Some(entry) = evicted {
        let buffered = before.overflow().buffered();
        if buffered.len() < TempFdArray::<Entry<T>>::block_length() {
            lemma_sum_push(buffered, entry, weight);
        } else {
            lemma_sum_concat(before.overflow().spilled(), buffered, weight);
            lemma_sum_push(Seq::empty(), entry, weight);
            assert(Seq::<Entry<T>>::empty().push(entry) =~= seq![entry]);
        }
    }
}

/// The number of times that a key was counted is the sum over the table, the
/// buffer and what was handed out.
pub proof fn lemma_recorded_parts<T: CounterKey>(collector: Collector<T>, key: T)
    ensures
        collector.recorded(key) == total(collector.table().entries(), key) + total(
            collector.overflow().buffered(),
            key,
        ) + total(collector.overflow().spilled(), key),
{
    let weight = |entry: Entry<T>| share(entry, key);
    lemma_sum_concat(collector.in_memory(), collector.overflow().spilled(), weight);
    lemma_sum_concat(collector.table().entries(), collector.overflow().buffered(), weight);
}

/// Whether the states are those of a collector that counts the additions one
/// after the other, and the blocks those that it hands out for the file.
pub open spec fn is_run<T: CounterKey>(
    states: Seq<Collector<T>>,
    additions: Seq<Entry<T>>,
    blocks: Seq<Option<Vec<Entry<T>>>>,
) -> bool {
    &&& states.len() == additions.len() + 1
    &&& blocks.len() == additions.len()
    &&& forall|i: int| 0 <= i < states.len() ==> (#[trigger] states[i]).wf()
    &&& forall|i: int|
        0 <= i < additions.len() ==> {
            let addition = #[trigger] additions[i];
            &&& states[i].fits(addition.item, addition.count)
            &&& added(states[i], addition.item, addition.count, states[i + 1], blocks[i])
        }
}

/// The run without its last addition.
pub proof fn lemma_run_prefix<T: CounterKey>(
    states: Seq<Collector<T>>,
    additions: Seq<Entry<T>>,
    blocks: Seq<Option<Vec<Entry<T>>>>,
)
    requires
        is_run(states, additions, blocks),
        additions.len() > 0,
    ensures
        is_run(states.drop_last(), additions.drop_last(), blocks.drop_last()),
{
    let fewer = states.drop_last();
    assert forall|i: int| 0 <= i < fewer.len() implies (#[trigger] fewer[i]).wf() by {
        assert(fewer[i] == states[i]);
    }
    assert forall|i: int| 0 <= i < additions.drop_last().len() implies {
        let addition = #[trigger] additions.drop_last()[i];
        &&& fewer[i].fits(addition.item, addition.count)
        &&& added(
            fewer[i],
            addition.item,
            addition.count,
            fewer[i + 1],
            blocks.drop_last()[i],
        )
    } by {
        assert(additions.drop_last()[i] == additions[i]);
    }
}

/// After any number of additions, a key was counted as often as the additions
/// say, on top of what was there before.
pub proof fn law_additions_accumulate<T: CounterKey>(
    states: Seq<Collector<T>>,
    additions: Seq<Entry<T>>,
    blocks: Seq<Option<Vec<Entry<T>>>>,
    key: T,
)
    requires
        is_run(states, additions, blocks),
    ensures
        states.last().recorded(key) == states.first().recorded(key) + total(additions, key),
    decreases additions.len(),
{
    if additions.len() > 0 {
        let n = additions.len() - 1;
        lemma_run_prefix(states, additions, blocks);
        law_additions_accumulate(
            states.drop_last(),
            additions.drop_last(),
            blocks.drop_last(),
            key,
        );
        let addition = additions[n];
        law_add_conserves(
            states[n],
            addition.item,
            addition.count,
            states[n + 1],
            blocks[n],
            key,
        );
    }
}

/// The file holds what was handed out for it if every block is appended to it
/// when it is handed out.
pub proof fn law_blocks_are_the_file<T: CounterKey>(
    states: Seq<Collector<T>>,
    additions: Seq<Entry<T>>,
    blocks: Seq<Option<Vec<Entry<T>>>>,
)
    requires
        is_run(states, additions, blocks),
        states.first().is_empty(),
    ensures
        states.last().overflow().spilled() == appended(blocks),
    decreases additions.len(),
{
    if additions.len() > 0 {
        let n = additions.len() - 1;
        lemma_run_prefix(states, additions, blocks);
        law_blocks_are_the_file(states.drop_last(), additions.drop_last(), blocks.drop_last());
        let addition = additions[n];
        assert(added(states[n], addition.item, addition.count, states[n + 1], blocks[n]));
        assert(appended(blocks.drop_last()) + Seq::<Entry<T>>::empty() =~= appended(
            blocks.drop_last(),
        ));
    }
}

/// The contents of a file to which the blocks were appended.
pub open spec fn appended<T>(blocks: Seq<Option<Vec<T>>>) -> Seq<T>
    decreases blocks.len(),
{
    if blocks.len() == 0 {
        Seq::empty()
    } else {
        appended(blocks.drop_last()) + match blocks.last() {
            Some(block) => block@,
            None => Seq::empty(),
        }
    }
}

/// A collector that has counted nothing, be it new or cleared, counts the first
/// key in the table, hands out nothing, and counts nothing else.
pub proof fn law_first_addition<T: CounterKey>(
    before: Collector<T>,
    key: T,
    count: isize,
    after: Collector<T>,
    block: Option<Vec<Entry<T>>>,
)
    requires
        before.is_empty(),
        added(before, key, count, after, block),
    ensures
        after.table()@ == empty_buckets::<T>().update(
            bucket_of(key),
            seq![(Entry { item: key, count })],
        ),
        after.overflow() == before.overflow(),
        block is None,
{
    let b = bucket_of(key);
    assert(before.table()@[b] == Seq::<Entry<T>>::empty());
    assert(!has_slot(before.table()@[b], key)) by {
        assert forall|i: int| !is_slot_of(before.table()@[b], key, i) by {
        }
    }
    assert(Seq::<Entry<T>>::empty().push((Entry { item: key, count })) =~= seq![
        (Entry { item: key, count }),
    ]);
}

} // verus!
