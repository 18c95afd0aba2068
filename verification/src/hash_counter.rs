//! A table of counts of fixed size.

use crate::key::CounterKey;
use crate::tally::{
    lemma_same_class, lemma_sum_concat, lemma_sum_push, lemma_sum_update, lemma_sum_zero, share,
    total,
};
use crate::temp_fd_array::push_refs;
use vstd::prelude::*;
use vstd::seq_lib::lemma_flatten_concat;

verus! {

/// The number of buckets of a [`HashCounter`].
pub const BUCKETS: usize = 4096;

/// The number of entries that a bucket has room for.
pub const BUCKETS_ASSOCIATIVITY: usize = 4;

/// A thing with the number of times that it was counted.
#[derive(Debug)]
pub struct Entry<T> {
    pub item: T,
    pub count: isize,
}

/// Whether `i` is the position of the entry for `key`.
pub open spec fn is_slot_of<T: CounterKey>(entries: Seq<Entry<T>>, key: T, i: int) -> bool {
    0 <= i < entries.len() && entries[i].item.same(&key)
}

/// Whether there is an entry for `key`.
pub open spec fn has_slot<T: CounterKey>(entries: Seq<Entry<T>>, key: T) -> bool {
    exists|i: int| is_slot_of(entries, key, i)
}

/// Whether no key has two entries.
pub open spec fn distinct<T: CounterKey>(entries: Seq<Entry<T>>) -> bool {
    forall|i: int, j: int|
        0 <= i < entries.len() && 0 <= j < entries.len() && i != j
            ==> !(#[trigger] entries[i]).item.same(&(#[trigger] entries[j]).item)
}

/// Whether `i` is the position of the entry with the least count, and the first
/// of them if there are several.
pub open spec fn is_first_least<T>(entries: Seq<Entry<T>>, i: int) -> bool {
    &&& 0 <= i < entries.len()
    &&& forall|j: int|
        0 <= j < entries.len() ==> entries[i].count <= (#[trigger] entries[j]).count
    &&& forall|j: int| 0 <= j < i ==> entries[i].count < (#[trigger] entries[j]).count
}

/// What becomes of the entries of a bucket when `key` is counted `count` more
/// times, and which entry has to leave:
///
/// - if there is an entry for `key`, its count goes up by `count`;
/// - otherwise, if there is room, an entry is added at the end;
/// - otherwise, the first entry with the least count leaves, and the new entry
///   takes its place.
pub open spec fn counted<T: CounterKey>(
    before: Seq<Entry<T>>,
    key: T,
    count: isize,
    after: Seq<Entry<T>>,
    evicted: Option<Entry<T>>,
) -> bool {
    if has_slot(before, key) {
        &&& evicted is None
        &&& exists|i: int|
            {
                &&& #[trigger] is_slot_of(before, key, i)
                &&& after == before.update(
                    i,
                    (Entry { item: before[i].item, count: (before[i].count + count) as isize }),
                )
            }
    } else if before.len() < BUCKETS_ASSOCIATIVITY {
        &&& evicted is None
        &&& after == before.push((Entry { item: key, count }))
    } else {
        exists|i: int|
            {
                &&& #[trigger] is_first_least(before, i)
                &&& evicted == Some(before[i])
                &&& after == before.update(i, (Entry { item: key, count }))
            }
    }
}

/// A bucket of a [`HashCounter`].
pub struct Bucket<T> {
    entries: Vec<Entry<T>>,
}

impl<T> View for Bucket<T> {
    type V = Seq<Entry<T>>;

    closed spec fn view(&self) -> Seq<Entry<T>> {
        self.entries@
    }
}

impl<T: CounterKey> Bucket<T> {
    /// A bucket has at most [`BUCKETS_ASSOCIATIVITY`] entries, and no key has
    /// two of them.
    pub open spec fn wf(&self) -> bool {
        self@.len() <= BUCKETS_ASSOCIATIVITY && distinct(self@)
    }

    /// A bucket without entries.
    pub fn new() -> (bucket: Self)
        ensures
            bucket.wf(),
            bucket@ == Seq::<Entry<T>>::empty(),
    {
        Bucket { entries: Vec::with_capacity(BUCKETS_ASSOCIATIVITY) }
    }

    /// Counts `key` for `count` more times. Returns the entry that had to leave.
    pub fn add(&mut self, key: T, count: isize) -> (evicted: Option<Entry<T>>)
        requires
            old(self).wf(),
            isize::MIN <= total(old(self)@, key) + count <= isize::MAX,
        ensures
            final(self).wf(),
            counted(old(self)@, key, count, final(self)@, evicted),
    {
        let ghost before = self@;
        let mut i: usize = 0;
        while i < self.entries.len()
            invariant
                i <= before.len(),
                before == self@,
                before == old(self)@,
                before.len() <= BUCKETS_ASSOCIATIVITY,
                distinct(before),
                isize::MIN <= total(before, key) + count <= isize::MAX,
                forall|j: int| 0 <= j < i ==> !(#[trigger] before[j]).item.same(&key),
            decreases before.len() - i,
        {
            if self.entries[i].item.is_same(&key) {
                proof {
                    lemma_total_of_slot(before, key, i as int);
                    assert(is_slot_of(before, key, i as int));
                }
                self.entries[i].count = self.entries[i].count + count;
                return None;
            }
            i += 1;
        }
        assert(!has_slot(before, key));
        if self.entries.len() < BUCKETS_ASSOCIATIVITY {
            self.entries.push(Entry { item: key, count });
            proof {
                lemma_distinct_push(before, key, count);
            }
            None
        } else {
            let least: usize = self.least();
            let mut entry: Entry<T> = Entry { item: key, count };
            std::mem::swap(&mut self.entries[least], &mut entry);
            proof {
                assert(self@ =~= before.update(least as int, (Entry { item: key, count })));
                assert forall|i: int, j: int|
                    0 <= i < self@.len() && 0 <= j < self@.len() && i != j implies !(
                #[trigger] self@[i]).item.same(&(#[trigger] self@[j]).item) by {
                    if i == least {
                        if key.same(&before[j].item) {
                            key.law_same_symmetric(&before[j].item);
                            assert(is_slot_of(before, key, j));
                        }
                    } else if j == least {
                        assert(!is_slot_of(before, key, i));
                    }
                }
            }
            Some(entry)
        }
    }

    /// The position of the first entry with the least count.
    fn least(&self) -> (least: usize)
        requires
            self@.len() > 0,
        ensures
            is_first_least(self@, least as int),
    {
        let mut least: usize = 0;
        let mut i: usize = 1;
        while i < self.entries.len()
            invariant
                1 <= i <= self@.len(),
                least < i,
                is_first_least(self@.take(i as int), least as int),
            decreases self@.len() - i,
        {
            let ghost seen = self@.take(i as int);
            if self.entries[i].count < self.entries[least].count {
                least = i;
            }
            i += 1;
            proof {
                let now = self@.take(i as int);
                assert(forall|j: int| 0 <= j < seen.len() ==> #[trigger] now[j] == seen[j]);
            }
        }
        assert(self@.take(i as int) =~= self@);
        least
    }
}

/// Where no key has two entries, the count of a key is that of its entry.
pub proof fn lemma_total_of_slot<T: CounterKey>(entries: Seq<Entry<T>>, key: T, i: int)
    requires
        distinct(entries),
        is_slot_of(entries, key, i),
    ensures
        total(entries, key) == entries[i].count,
{
    let weight = |entry: Entry<T>| share(entry, key);
    let front = entries.take(i);
    let back = entries.skip(i + 1);
    assert(entries =~= front.push(entries[i]) + back);
    lemma_sum_concat(front.push(entries[i]), back, weight);
    lemma_sum_push(front, entries[i], weight);
    assert forall|j: int| 0 <= j < entries.len() && j != i implies weight(
        #[trigger] entries[j],
    ) == 0 by {
        if entries[j].item.same(&key) {
            entries[i].item.law_same_symmetric(&key);
            entries[j].item.law_same_transitive(&key, &entries[i].item);
        }
    }
    assert forall|j: int| 0 <= j < front.len() implies weight(#[trigger] front[j]) == 0 by {
        assert(front[j] == entries[j]);
    }
    assert forall|j: int| 0 <= j < back.len() implies weight(#[trigger] back[j]) == 0 by {
        assert(back[j] == entries[j + i + 1]);
    }
    lemma_sum_zero(front, weight);
    lemma_sum_zero(back, weight);
}

/// A key without an entry can get one.
pub proof fn lemma_distinct_push<T: CounterKey>(entries: Seq<Entry<T>>, key: T, count: isize)
    requires
        distinct(entries),
        !has_slot(entries, key),
    ensures
        distinct(entries.push((Entry { item: key, count }))),
{
    let more = entries.push((Entry { item: key, count }));
    assert forall|i: int, j: int|
        0 <= i < more.len() && 0 <= j < more.len() && i != j implies !(
    #[trigger] more[i]).item.same(&(#[trigger] more[j]).item) by {
        if i == entries.len() {
            if key.same(&entries[j].item) {
                key.law_same_symmetric(&entries[j].item);
                assert(is_slot_of(entries, key, j));
            }
        } else if j == entries.len() {
            assert(!is_slot_of(entries, key, i));
        }
    }
}

/// Counting a key raises its count, over the entries that stay and the one that
/// leaves, and changes the count of no other.
pub proof fn lemma_counted_total<T: CounterKey>(
    before: Seq<Entry<T>>,
    key: T,
    count: isize,
    after: Seq<Entry<T>>,
    evicted: Option<Entry<T>>,
    any: T,
)
    requires
        distinct(before),
        isize::MIN <= total(before, key) + count <= isize::MAX,
        counted(before, key, count, after, evicted),
    ensures
        total(after, any) + option_share(evicted, any) == total(before, any) + share(
            (Entry { item: key, count }),
            any,
        ),
{
    let weight = |entry: Entry<T>| share(entry, any);
    let new = Entry { item: key, count };
    if has_slot(before, key) {
        let i = choose|i: int|
            {
                &&& #[trigger] is_slot_of(before, key, i)
                &&& after == before.update(
                    i,
                    (Entry { item: before[i].item, count: (before[i].count + count) as isize }),
                )
            };
        lemma_total_of_slot(before, key, i);
        lemma_sum_update(before, i, after[i], weight);
        lemma_same_class(any, before[i].item, key);
    } else if before.len() < BUCKETS_ASSOCIATIVITY {
        lemma_sum_push(before, new, weight);
    } else {
        let i = choose|i: int|
            {
                &&& #[trigger] is_first_least(before, i)
                &&& evicted == Some(before[i])
                &&& after == before.update(i, new)
            };
        lemma_sum_update(before, i, new, weight);
    }
}

/// What an entry that may be there contributes to the count of `key`.
pub open spec fn option_share<T: CounterKey>(entry: Option<Entry<T>>, key: T) -> int {
    match entry {
        Some(entry) => share(entry, key),
        None => 0,
    }
}

/// The bucket that the entry for `key` belongs to.
pub open spec fn bucket_of<T: CounterKey>(key: T) -> int {
    key.digest() as int % BUCKETS as int
}

/// Buckets without entries.
pub open spec fn empty_buckets<T>() -> Seq<Seq<Entry<T>>> {
    Seq::new(BUCKETS as nat, |i: int| Seq::<Entry<T>>::empty())
}

/// A table of counts. It has [`BUCKETS`] buckets with room for
/// [`BUCKETS_ASSOCIATIVITY`] entries each.
pub struct HashCounter<T> {
    buckets: Vec<Bucket<T>>,
}

impl<T> View for HashCounter<T> {
    type V = Seq<Seq<Entry<T>>>;

    closed spec fn view(&self) -> Seq<Seq<Entry<T>>> {
        self.buckets@.map_values(|bucket: Bucket<T>| bucket@)
    }
}

impl<T> HashCounter<T> {
    /// The entries of the table, bucket by bucket.
    pub open spec fn entries(&self) -> Seq<Entry<T>> {
        self@.flatten()
    }
}

impl<T: CounterKey> HashCounter<T> {
    /// Every entry is in the bucket that it belongs to, no bucket has more
    /// entries than it has room for, and no key has two entries.
    pub open spec fn wf(&self) -> bool {
        &&& self@.len() == BUCKETS
        &&& forall|b: int|
            0 <= b < BUCKETS ==> {
                &&& (#[trigger] self@[b]).len() <= BUCKETS_ASSOCIATIVITY
                &&& distinct(self@[b])
            }
        &&& forall|b: int, i: int|
            0 <= b < BUCKETS && 0 <= i < self@[b].len() ==> bucket_of(
                (#[trigger] self@[b][i]).item,
            ) == b
    }

    /// The count that the table has for `key`.
    pub open spec fn count_of(&self, key: T) -> int {
        total(self@[bucket_of(key)], key)
    }

    /// Counts `key` for `count` more times. Returns the entry that had to leave
    /// the table for it.
    pub fn add(&mut self, key: T, count: isize) -> (evicted: Option<Entry<T>>)
        requires
            old(self).wf(),
            isize::MIN <= old(self).count_of(key) + count <= isize::MAX,
        ensures
            final(self).wf(),
            ({
                let b = bucket_of(key);
                &&& counted(old(self)@[b], key, count, final(self)@[b], evicted)
                &&& final(self)@ == old(self)@.update(b, final(self)@[b])
            }),
            forall|any: T|
                #![trigger total(final(self).entries(), any)]
                total(final(self).entries(), any) + option_share(evicted, any) == total(
                    old(self).entries(),
                    any,
                ) + share((Entry { item: key, count }), any),
    {
        let ghost before = self@;
        let hash: u64 = key.hash_key();
        let index: usize = (hash % BUCKETS as u64) as usize;
        assert(index == bucket_of(key));
        assert(self.buckets@[index as int]@ == before[index as int]);
        let evicted: Option<Entry<T>> = self.buckets[index].add(key, count);
        proof {
            let b = index as int;
            assert(self@ =~= before.update(b, self@[b]));
            assert forall|i: int| 0 <= i < self@[b].len() implies bucket_of(
                (#[trigger] self@[b][i]).item,
            ) == b by {
                lemma_counted_placed(before[b], key, count, self@[b], evicted, b, i);
            }
            assert forall|any: T| #![trigger total(self.entries(), any)]
                total(self.entries(), any) + option_share(evicted, any) == total(
                    old(self).entries(),
                    any,
                ) + share((Entry { item: key, count }), any) by {
                lemma_counted_total(before[b], key, count, self@[b], evicted, any);
                lemma_total_update_bucket(before, b, self@[b], any);
            }
        }
        evicted
    }

    /// The entries of the table, bucket by bucket.
    pub fn iter(&self) -> (entries: Vec<&Entry<T>>)
        ensures
            entries@.unref() == self.entries(),
    {
        let mut entries: Vec<&Entry<T>> = Vec::new();
        let mut b: usize = 0;
        while b < self.buckets.len()
            invariant
                b <= self@.len(),
                self@.len() == self.buckets@.len(),
                entries@.unref() == self@.take(b as int).flatten(),
            decreases self@.len() - b,
        {
            let bucket: &Vec<Entry<T>> = &self.buckets[b].entries;
            push_refs(&mut entries, bucket.as_slice());
            assert(bucket@ == self@[b as int]);
            b += 1;
            proof {
                assert(self@.take(b as int) =~= self@.take(b - 1).push(self@[b - 1]));
                self@.take(b - 1).lemma_flatten_push(self@[b - 1]);
            }
        }
        assert(self@.take(b as int) =~= self@);
        entries
    }

    /// Forgets all counts.
    pub fn clear(&mut self)
        ensures
            final(self).wf(),
            final(self)@ == empty_buckets::<T>(),
            final(self).entries() == Seq::<Entry<T>>::empty(),
    {
        *self = HashCounter::default();
    }
}

impl<T: CounterKey> Default for HashCounter<T> {
    /// A table without entries.
    fn default() -> (counter: Self)
        ensures
            counter.wf(),
            counter@ == empty_buckets::<T>(),
            counter.entries() == Seq::<Entry<T>>::empty(),
    {
        let mut buckets: Vec<Bucket<T>> = Vec::with_capacity(BUCKETS);
        while buckets.len() < BUCKETS
            invariant
                buckets@.len() <= BUCKETS,
                forall|i: int|
                    0 <= i < buckets@.len() ==> (#[trigger] buckets@[i])@ == Seq::<
                        Entry<T>,
                    >::empty(),
            decreases BUCKETS - buckets@.len(),
        {
            buckets.push(Bucket::new());
        }
        let counter = HashCounter { buckets };
        proof {
            assert(counter@ =~= empty_buckets::<T>());
            lemma_flatten_empty(counter@);
        }
        counter
    }
}

/// The entries of a bucket still belong to it after one more key was counted.
proof fn lemma_counted_placed<T: CounterKey>(
    before: Seq<Entry<T>>,
    key: T,
    count: isize,
    after: Seq<Entry<T>>,
    evicted: Option<Entry<T>>,
    b: int,
    i: int,
)
    requires
        counted(before, key, count, after, evicted),
        bucket_of(key) == b,
        forall|j: int| 0 <= j < before.len() ==> bucket_of((#[trigger] before[j]).item) == b,
        0 <= i < after.len(),
    ensures
        bucket_of(after[i].item) == b,
{
    if i < before.len() {
        assert(bucket_of(before[i].item) == b);
    }
}

/// Sequences without entries have no entries together.
pub proof fn lemma_flatten_empty<A>(sequences: Seq<Seq<A>>)
    requires
        forall|i: int| 0 <= i < sequences.len() ==> (#[trigger] sequences[i]) == Seq::<A>::empty(),
    ensures
        sequences.flatten() == Seq::<A>::empty(),
    decreases sequences.len(),
{
    if sequences.len() > 0 {
        assert(sequences[0] == Seq::<A>::empty());
        assert forall|i: int| 0 <= i < sequences.drop_first().len() implies (
        #[trigger] sequences.drop_first()[i]) == Seq::<A>::empty() by {
            assert(sequences.drop_first()[i] == sequences[i + 1]);
        }
        lemma_flatten_empty(sequences.drop_first());
    }
}

/// A bucket that takes the place of another changes the count of a key by the
/// difference of the counts in the two.
pub proof fn lemma_total_update_bucket<T: CounterKey>(
    buckets: Seq<Seq<Entry<T>>>,
    b: int,
    bucket: Seq<Entry<T>>,
    key: T,
)
    requires
        0 <= b < buckets.len(),
    ensures
        total(buckets.update(b, bucket).flatten(), key) == total(buckets.flatten(), key) - total(
            buckets[b],
            key,
        ) + total(bucket, key),
{
    let updated = buckets.update(b, bucket);
    lemma_total_split(buckets, b, key);
    lemma_total_split(updated, b, key);
    assert(updated.take(b) =~= buckets.take(b));
    assert(updated.skip(b + 1) =~= buckets.skip(b + 1));
}

/// The count of a key is the sum of its counts before, in and after a bucket.
pub proof fn lemma_total_split<T: CounterKey>(buckets: Seq<Seq<Entry<T>>>, b: int, key: T)
    requires
        0 <= b < buckets.len(),
    ensures
        total(buckets.flatten(), key) == total(buckets.take(b).flatten(), key) + total(
            buckets[b],
            key,
        ) + total(buckets.skip(b + 1).flatten(), key),
{
    let weight = |entry: Entry<T>| share(entry, key);
    let front = buckets.take(b);
    let back = buckets.skip(b + 1);
    assert(buckets =~= front.push(buckets[b]) + back);
    lemma_flatten_concat(front.push(buckets[b]), back);
    front.lemma_flatten_push(buckets[b]);
    lemma_sum_concat(front.push(buckets[b]).flatten(), back.flatten(), weight);
    lemma_sum_concat(front.flatten(), buckets[b], weight);
}

/// No key has two entries in the table, not even in different buckets.
pub proof fn law_table_keys_distinct<T: CounterKey>(
    counter: HashCounter<T>,
    b1: int,
    i1: int,
    b2: int,
    i2: int,
)
    requires
        counter.wf(),
        0 <= b1 < BUCKETS,
        0 <= i1 < counter@[b1].len(),
        0 <= b2 < BUCKETS,
        0 <= i2 < counter@[b2].len(),
        b1 != b2 || i1 != i2,
    ensures
        !counter@[b1][i1].item.same(&counter@[b2][i2].item),
{
    let entry1 = counter@[b1][i1];
    let entry2 = counter@[b2][i2];
    if entry1.item.same(&entry2.item) {
        entry1.item.law_same_digest(&entry2.item);
        assert(bucket_of(entry1.item) == b1);
        assert(bucket_of(entry2.item) == b2);
        assert(distinct(counter@[b1]));
    }
}

} // verus!
