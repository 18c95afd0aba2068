//! Stacks with the number of times that they were sampled.

use crate::counting_up::nonnegative;
use crate::frames::UnresolvedFrames;
use crate::hash_counter::{
    distinct, has_slot, is_slot_of, lemma_distinct_push, lemma_total_of_slot, Entry,
};
use crate::key::CounterKey;
use crate::tally::{
    lemma_same_class, lemma_sum_monotone, lemma_sum_push, lemma_sum_same_weights, lemma_sum_zero,
    lemma_total_same_key, positive_share, positive_total, share, total,
};
use std::collections::HashMap;
use vstd::prelude::*;

verus! {

/// The count of a key without an entry is zero.
pub proof fn lemma_total_without_slot<T: CounterKey>(entries: Seq<Entry<T>>, key: T)
    requires
        !has_slot(entries, key),
    ensures
        total(entries, key) == 0,
{
    let weight = |e: Entry<T>| share(e, key);
    assert forall|i: int| 0 <= i < entries.len() implies weight(#[trigger] entries[i]) == 0 by {
        assert(!is_slot_of(entries, key, i));
    }
    lemma_sum_zero(entries, weight);
}

/// A copy of a sample is counted together with the sample.
pub proof fn lemma_copy_is_same(copy: UnresolvedFrames, sample: UnresolvedFrames)
    requires
        copy.is_copy_of(&sample),
    ensures
        copy.same(&sample),
        copy.digest() == sample.digest(),
{
}

/// Stacks with the number of times that they were sampled. No stack occurs
/// twice; they come in the order in which they were first recorded.
pub struct FrameCounts {
    entries: Vec<Entry<UnresolvedFrames>>,
    index: HashMap<u64, Vec<usize>>,
}

impl View for FrameCounts {
    type V = Seq<Entry<UnresolvedFrames>>;

    closed spec fn view(&self) -> Seq<Entry<UnresolvedFrames>> {
        self.entries@
    }
}

impl FrameCounts {
    /// No stack occurs twice, and the index lists the position of every stack
    /// under the stack's hash.
    pub closed spec fn wf(&self) -> bool {
        &&& distinct(self@)
        &&& forall|hash: u64, p: int|
            self.index@.contains_key(hash) && 0 <= p < self.index@[hash]@.len()
                ==> #[trigger] self.index@[hash]@[p] < self@.len()
        &&& forall|i: int|
            0 <= i < self@.len() ==> self.lists((#[trigger] self@[i]).item.digest(), i)
    }

    /// Whether the index lists the position under the hash.
    spec fn lists(&self, hash: u64, i: int) -> bool {
        self.index@.contains_key(hash) && self.index@[hash]@.contains(i as usize)
    }

    /// No stack occurs twice.
    pub proof fn lemma_distinct(&self)
        requires
            self.wf(),
        ensures
            distinct(self@),
    {
    }

    /// No stack at all.
    pub fn new() -> (counts: Self)
        ensures
            counts.wf(),
            counts@ == Seq::<Entry<UnresolvedFrames>>::empty(),
    {
        FrameCounts { entries: Vec::new(), index: HashMap::new() }
    }

    /// The number of stacks.
    pub fn len(&self) -> (len: usize)
        ensures
            len == self@.len(),
    {
        self.entries.len()
    }

    /// The stack at position `i`, with its count.
    pub fn entry(&self, i: usize) -> (entry: &Entry<UnresolvedFrames>)
        requires
            i < self@.len(),
        ensures
            *entry == self@[i as int],
    {
        &self.entries[i]
    }

    /// The position of the stack `key`.
    fn position(&self, key: &UnresolvedFrames) -> (position: Option<usize>)
        requires
            self.wf(),
        ensures
            match position {
                Some(i) => is_slot_of(self@, *key, i as int),
                None => !has_slot(self@, *key),
            },
    {
        broadcast use vstd::std_specs::hash::group_hash_axioms;

        let len: usize = self.entries.len();
        let hash: u64 = key.hash_key();
        match self.index.get(&hash) {
            Some(positions) => {
                let mut p: usize = 0;
                while p < positions.len()
                    invariant
                        p <= positions@.len(),
                        self.wf(),
                        self@.len() == len,
                        self.index@.contains_key(hash),
                        self.index@[hash] == *positions,
                        forall|q: int|
                            0 <= q < p ==> !self@[#[trigger] positions@[q] as int].item.same(key),
                    decreases positions@.len() - p,
                {
                    assert(self.index@[hash]@[p as int] < self@.len());
                    let i: usize = positions[p];
                    if self.entries[i].item.is_same(key) {
                        return Some(i);
                    }
                    p += 1;
                }
                assert forall|i: int| !is_slot_of(self@, *key, i) by {
                    if is_slot_of(self@, *key, i) {
                        self@[i].item.law_same_digest(key);
                        assert(self.lists(hash, i));
                        let q = choose|q: int|
                            0 <= q < positions@.len() && positions@[q] == i as usize;
                        assert(positions@[q] == i);
                    }
                }
                None
            },
            None => {
                assert forall|i: int| !is_slot_of(self@, *key, i) by {
                    if is_slot_of(self@, *key, i) {
                        self@[i].item.law_same_digest(key);
                        assert(self.lists(hash, i));
                    }
                }
                None
            },
        }
    }

    /// The number of times that the stack `key` was sampled; none if it does not
    /// occur.
    pub fn get(&self, key: &UnresolvedFrames) -> (count: Option<isize>)
        requires
            self.wf(),
        ensures
            match count {
                Some(count) => exists|i: int|
                    #[trigger] is_slot_of(self@, *key, i) && count == self@[i].count,
                None => !has_slot(self@, *key),
            },
            total(self@, *key) == match count {
                Some(count) => count as int,
                None => 0,
            },
    {
        match self.position(key) {
            Some(i) => {
                proof {
                    assert(is_slot_of(self@, *key, i as int));
                    lemma_total_of_slot(self@, *key, i as int);
                }
                Some(self.entries[i].count)
            },
            None => {
                proof {
                    lemma_total_without_slot(self@, *key);
                }
                None
            },
        }
    }

    /// Adds `count` to the count of the stack `key`, which is appended if it
    /// does not occur yet. Returns whether the sum is a count; otherwise nothing
    /// is changed.
    pub fn record(&mut self, key: &UnresolvedFrames, count: isize) -> (recorded: bool)
        requires
            old(self).wf(),
        ensures
            final(self).wf(),
            recorded_in(old(self)@, *key, count, final(self)@, recorded),
    {
        broadcast use vstd::std_specs::hash::group_hash_axioms;

        let ghost before = self@;
        match self.position(key) {
            Some(i) => {
                match self.entries[i].count.checked_add(count) {
                    Some(sum) => {
                        self.entries[i].count = sum;
                        proof {
                            assert(self@ =~= before.update(
                                i as int,
                                (Entry { item: before[i as int].item, count: sum }),
                            ));
                            assert(is_slot_of(before, *key, i as int));
                            assert(recorded_in(before, *key, count, self@, true));
                            assert forall|j: int| 0 <= j < self@.len() implies self.lists(
                                (#[trigger] self@[j]).item.digest(),
                                j,
                            ) by {
                                assert(old(self).lists(before[j].item.digest(), j));
                            }
                        }
                        true
                    },
                    None => {
                        assert(is_slot_of(before, *key, i as int));
                        false
                    },
                }
            },
            None => {
                let i: usize = self.entries.len();
                let hash: u64 = key.hash_key();
                let item: UnresolvedFrames = key.clone();
                proof {
                    lemma_copy_is_same(item, *key);
                    if has_slot(before, item) {
                        let j = choose|j: int| is_slot_of(before, item, j);
                        before[j].item.law_same_transitive(&item, key);
                        assert(is_slot_of(before, *key, j));
                    }
                    lemma_distinct_push(before, item, count);
                }
                let mut positions: Vec<usize> = match self.index.remove(&hash) {
                    Some(positions) => positions,
                    None => Vec::new(),
                };
                let ghost listed = positions@;
                positions.push(i);
                self.index.insert(hash, positions);
                self.entries.push(Entry { item, count });
                proof {
                    assert(self@ =~= before.push((Entry { item, count })));
                    assert(self@.drop_last() =~= before);
                    assert forall|h: u64, p: int|
                        self.index@.contains_key(h) && 0 <= p
                            < self.index@[h]@.len() implies #[trigger] self.index@[h]@[p]
                        < self@.len() by {
                        if h == hash {
                            if p < listed.len() {
                                assert(old(self).index@[h]@[p] == listed[p]);
                            }
                        } else {
                            assert(old(self).index@[h]@[p] == self.index@[h]@[p]);
                        }
                    }
                    assert forall|j: int| 0 <= j < self@.len() implies self.lists(
                        (#[trigger] self@[j]).item.digest(),
                        j,
                    ) by {
                        if j == i {
                            assert(self.index@[hash]@[listed.len() as int] == i);
                        } else {
                            let h = before[j].item.digest();
                            assert(old(self).lists(h, j));
                            if h == hash {
                                let p = choose|p: int|
                                    0 <= p < listed.len() && listed[p] == j as usize;
                                assert(self.index@[hash]@[p] == listed[p]);
                            }
                        }
                    }
                }
                true
            },
        }
    }
}

/// What becomes of stacks and their counts when `count` is added to the count
/// of the stack `key`, and whether the sum is a count.
pub open spec fn recorded_in(
    before: Seq<Entry<UnresolvedFrames>>,
    key: UnresolvedFrames,
    count: isize,
    after: Seq<Entry<UnresolvedFrames>>,
    recorded: bool,
) -> bool {
    if has_slot(before, key) {
        exists|i: int|
            {
                &&& #[trigger] is_slot_of(before, key, i)
                &&& recorded == (isize::MIN <= before[i].count + count <= isize::MAX)
                &&& after == if recorded {
                    before.update(
                        i,
                        (Entry { item: before[i].item, count: (before[i].count + count) as isize }),
                    )
                } else {
                    before
                }
            }
    } else {
        &&& recorded
        &&& after.len() == before.len() + 1
        &&& after.drop_last() == before
        &&& after.last().item.is_copy_of(&key)
        &&& after.last().count == count
    }
}

/// Whether the stack `key` has an entry with a positive count.
pub open spec fn is_counted<T: CounterKey>(entries: Seq<Entry<T>>, key: T) -> bool {
    exists|j: int| is_counted_at(entries, key, j)
}

/// Whether the entry at position `j` is one of the stack `key`, with a positive
/// count.
pub open spec fn is_counted_at<T: CounterKey>(entries: Seq<Entry<T>>, key: T, j: int) -> bool {
    0 <= j < entries.len() && entries[j].count > 0 && entries[j].item.same(&key)
}

/// The positions, in order, of the entries with a positive count before which
/// there is none of the same stack.
pub open spec fn first_positions<T: CounterKey>(entries: Seq<Entry<T>>) -> Seq<int>
    decreases entries.len(),
{
    if entries.len() == 0 {
        Seq::empty()
    } else {
        let before = entries.drop_last();
        if entries.last().count > 0 && !is_counted(before, entries.last().item) {
            first_positions(before).push(before.len() as int)
        } else {
            first_positions(before)
        }
    }
}

/// Whether `counts` are the stacks of the entries with a positive count, each
/// once, as its first such entry has it, and with the sum of its positive
/// counts.
pub open spec fn tallied(
    entries: Seq<Entry<UnresolvedFrames>>,
    counts: Seq<Entry<UnresolvedFrames>>,
) -> bool {
    let firsts = first_positions(entries);
    &&& counts.len() == firsts.len()
    &&& forall|i: int|
        0 <= i < counts.len() ==> {
            let first = entries[firsts[i]];
            &&& (#[trigger] counts[i]).item.is_copy_of(&first.item)
            &&& counts[i].count == positive_total(entries, first.item)
        }
}

/// Whether the sum of the positive counts of every stack is a count.
pub open spec fn counts_fit<T: CounterKey>(entries: Seq<Entry<T>>) -> bool {
    forall|key: T| #[trigger] positive_total(entries, key) <= isize::MAX
}

/// First positions are positions of entries with a positive count.
pub proof fn lemma_first_positions<T: CounterKey>(entries: Seq<Entry<T>>)
    ensures
        forall|i: int|
            0 <= i < first_positions(entries).len() ==> {
                let p = #[trigger] first_positions(entries)[i];
                0 <= p < entries.len() && entries[p].count > 0
            },
    decreases entries.len(),
{
    if entries.len() > 0 {
        let before = entries.drop_last();
        lemma_first_positions(before);
        assert forall|i: int| 0 <= i < first_positions(entries).len() implies {
            let p = #[trigger] first_positions(entries)[i];
            0 <= p < entries.len() && entries[p].count > 0
        } by {
            if i < first_positions(before).len() {
                let p = first_positions(before)[i];
                assert(first_positions(entries)[i] == p);
                assert(entries[p] == before[p]);
            }
        }
    }
}

/// Every stack with a positive count has a first position.
pub proof fn lemma_first_position_of<T: CounterKey>(entries: Seq<Entry<T>>, key: T) -> (i: int)
    requires
        is_counted(entries, key),
    ensures
        0 <= i < first_positions(entries).len(),
        entries[first_positions(entries)[i]].item.same(&key),
    decreases entries.len(),
{
    let before = entries.drop_last();
    let last = entries.last();
    lemma_first_positions(before);
    if is_counted(before, key) {
        let i = lemma_first_position_of(before, key);
        assert(first_positions(entries)[i] == first_positions(before)[i]);
        i
    } else {
        let j = choose|j: int| is_counted_at(entries, key, j);
        if j < before.len() {
            assert(is_counted_at(before, key, j));
        }
        if is_counted(before, last.item) {
            let k = choose|k: int| is_counted_at(before, last.item, k);
            before[k].item.law_same_transitive(&last.item, &key);
            assert(is_counted_at(before, key, k));
        }
        first_positions(before).len() as int
    }
}

/// A stack without a positive count has no positive counts to sum up.
pub proof fn lemma_not_counted<T: CounterKey>(entries: Seq<Entry<T>>, key: T)
    requires
        !is_counted(entries, key),
    ensures
        positive_total(entries, key) == 0,
{
    let weight = |entry: Entry<T>| positive_share(entry, key);
    assert forall|j: int| 0 <= j < entries.len() implies weight(#[trigger] entries[j]) == 0 by {
        assert(!is_counted_at(entries, key, j));
    }
    lemma_sum_zero(entries, weight);
}

/// One more entry leaves the tally as it is if its count is not positive.
proof fn lemma_tally_skip(
    entries: Seq<Entry<UnresolvedFrames>>,
    entry: Entry<UnresolvedFrames>,
    counts: Seq<Entry<UnresolvedFrames>>,
)
    requires
        tallied(entries, counts),
        entry.count <= 0,
    ensures
        tallied(entries.push(entry), counts),
{
    let more = entries.push(entry);
    assert(more.drop_last() =~= entries);
    lemma_first_positions(entries);
    let firsts = first_positions(entries);
    assert forall|i: int| 0 <= i < counts.len() implies {
        let first = more[firsts[i]];
        &&& (#[trigger] counts[i]).item.is_copy_of(&first.item)
        &&& counts[i].count == positive_total(more, first.item)
    } by {
        let key = entries[firsts[i]].item;
        assert(more[firsts[i]] == entries[firsts[i]]);
        lemma_sum_push(
            entries,
            entry,
            |e: Entry<UnresolvedFrames>| positive_share(e, key),
        );
    }
}

/// One more entry with a positive count is tallied by recording it.
proof fn lemma_tally_record(
    entries: Seq<Entry<UnresolvedFrames>>,
    entry: Entry<UnresolvedFrames>,
    before: Seq<Entry<UnresolvedFrames>>,
    after: Seq<Entry<UnresolvedFrames>>,
)
    requires
        tallied(entries, before),
        distinct(before),
        entry.count > 0,
        recorded_in(before, entry.item, entry.count, after, true),
    ensures
        tallied(entries.push(entry), after),
{
    let key = entry.item;
    let more = entries.push(entry);
    let firsts = first_positions(entries);
    assert(more.drop_last() =~= entries);
    lemma_first_positions(entries);
    if has_slot(before, key) {
        let slot = choose|i: int|
            {
                &&& #[trigger] is_slot_of(before, key, i)
                &&& isize::MIN <= before[i].count + entry.count <= isize::MAX
                &&& after == before.update(
                    i,
                    (Entry {
                        item: before[i].item,
                        count: (before[i].count + entry.count) as isize,
                    }),
                )
            };
        let p = firsts[slot];
        lemma_copy_is_same(before[slot].item, entries[p].item);
        lemma_same_class(key, before[slot].item, entries[p].item);
        assert(is_counted_at(entries, key, p));
        assert(first_positions(more) == firsts);
        assert forall|i: int| 0 <= i < after.len() implies {
            let first = more[firsts[i]];
            &&& (#[trigger] after[i]).item.is_copy_of(&first.item)
            &&& after[i].count == positive_total(more, first.item)
        } by {
            let first = entries[firsts[i]];
            assert(more[firsts[i]] == first);
            assert(before[i].item.is_copy_of(&first.item));
            lemma_sum_push(
                entries,
                entry,
                |e: Entry<UnresolvedFrames>| positive_share(e, first.item),
            );
            lemma_copy_is_same(before[i].item, first.item);
            if i == slot {
                entry.item.law_same_reflexive();
                before[slot].item.law_same_symmetric(&key);
                key.law_same_transitive(&before[slot].item, &first.item);
            } else if key.same(&first.item) {
                before[i].item.law_same_symmetric(&first.item);
                key.law_same_transitive(&first.item, &before[i].item);
                before[slot].item.law_same_transitive(&key, &before[i].item);
            }
        }
    } else {
        if is_counted(entries, key) {
            let i = lemma_first_position_of(entries, key);
            let first = entries[firsts[i]];
            assert(before[i].item.is_copy_of(&first.item));
            lemma_copy_is_same(before[i].item, first.item);
            before[i].item.law_same_transitive(&first.item, &key);
            assert(is_slot_of(before, key, i));
        }
        assert(first_positions(more) == firsts.push(entries.len() as int));
        assert forall|i: int| 0 <= i < after.len() implies {
            let first = more[first_positions(more)[i]];
            &&& (#[trigger] after[i]).item.is_copy_of(&first.item)
            &&& after[i].count == positive_total(more, first.item)
        } by {
            if i == before.len() {
                assert(after[i] == after.last());
                key.law_same_reflexive();
                lemma_not_counted(entries, key);
                lemma_sum_push(
                    entries,
                    entry,
                    |e: Entry<UnresolvedFrames>| positive_share(e, key),
                );
            } else {
                let first = entries[firsts[i]];
                assert(after[i] == after.drop_last()[i]);
                assert(before[i].item.is_copy_of(&first.item));
                assert(more[firsts[i]] == first);
                if key.same(&first.item) {
                    key.law_same_symmetric(&first.item);
                    lemma_copy_is_same(before[i].item, first.item);
                    before[i].item.law_same_transitive(&first.item, &key);
                    assert(is_slot_of(before, key, i));
                }
                lemma_sum_push(
                    entries,
                    entry,
                    |e: Entry<UnresolvedFrames>| positive_share(e, first.item),
                );
            }
        }
    }
}

/// If a sum was too large for a count, so is the sum over all entries.
proof fn lemma_tally_overflow(
    entries: Seq<Entry<UnresolvedFrames>>,
    n: int,
    counts: Seq<Entry<UnresolvedFrames>>,
    after: Seq<Entry<UnresolvedFrames>>,
)
    requires
        0 <= n < entries.len(),
        tallied(entries.take(n), counts),
        entries[n].count > 0,
        recorded_in(counts, entries[n].item, entries[n].count, after, false),
    ensures
        !counts_fit(entries),
{
    let key = entries[n].item;
    let weight = |e: Entry<UnresolvedFrames>| positive_share(e, key);
    let seen = entries.take(n);
    let firsts = first_positions(seen);
    let slot = choose|i: int|
        {
            &&& #[trigger] is_slot_of(counts, key, i)
            &&& !(isize::MIN <= counts[i].count + entries[n].count <= isize::MAX)
        };
    let first = seen[firsts[slot]];
    assert(counts[slot].item.is_copy_of(&first.item));
    lemma_copy_is_same(counts[slot].item, first.item);
    first.item.law_same_symmetric(&counts[slot].item);
    first.item.law_same_transitive(&counts[slot].item, &key);
    lemma_total_same_key(seen, first.item, key);
    lemma_sum_push(seen, entries[n], weight);
    assert(seen.push(entries[n]) =~= entries.take(n + 1));
    key.law_same_reflexive();
    assert(forall|e: Entry<UnresolvedFrames>| #[trigger] weight(e) >= 0);
    lemma_sum_monotone(seen, n, weight);
    assert(seen.take(n) =~= seen);
    lemma_sum_monotone(entries, n + 1, weight);
    assert(positive_total(entries, key) > isize::MAX);
}

/// Where every sum is a count, all sums are.
proof fn lemma_tally_fits(
    entries: Seq<Entry<UnresolvedFrames>>,
    counts: Seq<Entry<UnresolvedFrames>>,
)
    requires
        tallied(entries, counts),
    ensures
        counts_fit(entries),
{
    assert forall|key: UnresolvedFrames| #[trigger]
        positive_total(entries, key) <= isize::MAX by {
        if is_counted(entries, key) {
            let i = lemma_first_position_of(entries, key);
            let first = entries[first_positions(entries)[i]];
            assert(counts[i].count == positive_total(entries, first.item));
            lemma_total_same_key(entries, first.item, key);
        } else {
            lemma_not_counted(entries, key);
        }
    }
}

/// Sums up the positive counts of each stack; none if such a sum is no count.
pub fn tally(entries: &Vec<&Entry<UnresolvedFrames>>) -> (counts: Option<FrameCounts>)
    ensures
        match counts {
            Some(counts) => {
                &&& counts_fit(entries@.unref())
                &&& counts.wf()
                &&& tallied(entries@.unref(), counts@)
            },
            None => !counts_fit(entries@.unref()),
        },
{
    let ghost all = entries@.unref();
    let mut counts: FrameCounts = FrameCounts::new();
    let mut n: usize = 0;
    assert(all.take(0) =~= Seq::empty());
    while n < entries.len()
        invariant
            n <= entries@.len(),
            all == entries@.unref(),
            counts.wf(),
            tallied(all.take(n as int), counts@),
        decreases entries@.len() - n,
    {
        let entry: &Entry<UnresolvedFrames> = entries[n];
        let ghost seen = all.take(n as int);
        let ghost before = counts@;
        assert(*entry == all[n as int]);
        assert(all.take(n + 1) =~= seen.push(*entry));
        if entry.count > 0 {
            assert(distinct(counts@)) by {
                counts.lemma_distinct();
            }
            if !counts.record(&entry.item, entry.count) {
                proof {
                    lemma_tally_overflow(all, n as int, before, counts@);
                }
                return None;
            }
            proof {
                lemma_tally_record(seen, *entry, before, counts@);
            }
        } else {
            proof {
                lemma_tally_skip(seen, *entry, before);
            }
        }
        n += 1;
    }
    proof {
        assert(all.take(n as int) =~= all);
        lemma_tally_fits(all, counts@);
    }
    Some(counts)
}

/// In a tally no stack occurs twice, every count is positive, the stacks are
/// those with a positive count, and the count of every stack is the sum of its
/// positive counts.
pub proof fn law_tally(
    entries: Seq<Entry<UnresolvedFrames>>,
    counts: Seq<Entry<UnresolvedFrames>>,
    key: UnresolvedFrames,
)
    requires
        tallied(entries, counts),
    ensures
        distinct(counts),
        forall|i: int| 0 <= i < counts.len() ==> (#[trigger] counts[i]).count > 0,
        has_slot(counts, key) == is_counted(entries, key),
        total(counts, key) == positive_total(entries, key),
{
    let firsts = first_positions(entries);
    lemma_first_positions(entries);
    assert forall|i: int, j: int|
        0 <= i < counts.len() && 0 <= j < counts.len() && i != j implies !(
    #[trigger] counts[i]).item.same(&(#[trigger] counts[j]).item) by {
        lemma_copy_is_same(counts[i].item, entries[firsts[i]].item);
        lemma_copy_is_same(counts[j].item, entries[firsts[j]].item);
        if counts[i].item.same(&counts[j].item) {
            lemma_same_class(counts[j].item, counts[i].item, entries[firsts[i]].item);
            lemma_same_class(entries[firsts[i]].item, counts[j].item, entries[firsts[j]].item);
            lemma_firsts_distinct(entries, i, j);
        }
    }
    assert forall|i: int| 0 <= i < counts.len() implies (#[trigger] counts[i]).count > 0 by {
        let first = entries[firsts[i]];
        let weight = |e: Entry<UnresolvedFrames>| positive_share(e, first.item);
        first.item.law_same_reflexive();
        lemma_sum_push(entries.take(firsts[i]), first, weight);
        assert(entries.take(firsts[i]).push(first) =~= entries.take(firsts[i] + 1));
        lemma_sum_monotone(entries, firsts[i] + 1, weight);
        lemma_sum_monotone(entries, firsts[i], weight);
    }
    if is_counted(entries, key) {
        let i = lemma_first_position_of(entries, key);
        let first = entries[firsts[i]];
        assert(counts[i].item.is_copy_of(&first.item));
        lemma_copy_is_same(counts[i].item, first.item);
        counts[i].item.law_same_transitive(&first.item, &key);
        assert(is_slot_of(counts, key, i));
        lemma_total_of_slot(counts, key, i);
        lemma_total_same_key(entries, first.item, key);
    } else {
        lemma_not_counted(entries, key);
        assert forall|i: int| !is_slot_of(counts, key, i) by {
            if is_slot_of(counts, key, i) {
                let first = entries[firsts[i]];
                assert(counts[i].item.is_copy_of(&first.item));
                lemma_copy_is_same(counts[i].item, first.item);
                lemma_same_class(key, counts[i].item, first.item);
                assert(is_counted_at(entries, key, firsts[i]));
            }
        }
        lemma_total_without_slot(counts, key);
    }
}

/// The entries at two first positions are of different stacks.
proof fn lemma_firsts_distinct<T: CounterKey>(entries: Seq<Entry<T>>, i: int, j: int)
    requires
        0 <= i < first_positions(entries).len(),
        0 <= j < first_positions(entries).len(),
        i != j,
    ensures
        !entries[first_positions(entries)[i]].item.same(
            &entries[first_positions(entries)[j]].item,
        ),
    decreases entries.len(),
{
    let before = entries.drop_last();
    let last = entries.last();
    let earlier = first_positions(before);
    lemma_first_positions(before);
    if i < earlier.len() && j < earlier.len() {
        lemma_firsts_distinct(before, i, j);
    } else if j < earlier.len() {
        let p = earlier[j];
        if last.item.same(&before[p].item) {
            last.item.law_same_symmetric(&before[p].item);
            assert(is_counted_at(before, last.item, p));
        }
    } else {
        assert(!is_counted_at(before, last.item, earlier[i]));
    }
}

/// Before a first position there is no entry with a positive count of the stack.
pub proof fn lemma_first_is_first<T: CounterKey>(entries: Seq<Entry<T>>, i: int, q: int)
    requires
        0 <= i < first_positions(entries).len(),
        0 <= q < first_positions(entries)[i],
    ensures
        !is_counted_at(entries, entries[first_positions(entries)[i]].item, q),
    decreases entries.len(),
{
    let before = entries.drop_last();
    let earlier = first_positions(before);
    lemma_first_positions(before);
    if i < earlier.len() {
        lemma_first_is_first(before, i, q);
    } else {
        assert(!is_counted_at(before, entries.last().item, q));
    }
}

/// Where no count is negative, the sum of the positive counts of a stack is the
/// sum of its counts.
pub proof fn law_positive_total_is_total<T: CounterKey>(entries: Seq<Entry<T>>, key: T)
    requires
        nonnegative(entries),
    ensures
        positive_total(entries, key) == total(entries, key),
{
    lemma_sum_same_weights(
        entries,
        |e: Entry<T>| positive_share(e, key),
        |e: Entry<T>| share(e, key),
    );
}

} // verus!
