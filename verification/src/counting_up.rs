//! Collectors that only count upwards.

use crate::collector::{
    added, is_run, lemma_recorded_parts, lemma_run_prefix, Collector, Entry, TempFdArray,
    BUFFER_BYTES,
};
use crate::hash_counter::{
    bucket_of, counted, has_slot, is_first_least, is_slot_of, lemma_total_of_slot,
    lemma_total_split,
};
use crate::key::CounterKey;
use crate::tally::total;
use crate::temp_fd_array::pushed;
use vstd::prelude::*;

verus! {

/// Whether no count is negative.
pub open spec fn nonnegative<T>(entries: Seq<Entry<T>>) -> bool {
    forall|i: int| 0 <= i < entries.len() ==> (#[trigger] entries[i]).count >= 0
}

/// There is no negative count in a sequence of sequences if there is none in any
/// of them, and the other way round.
proof fn lemma_nonnegative_flatten<T>(sequences: Seq<Seq<Entry<T>>>)
    ensures
        nonnegative(sequences.flatten()) == (forall|b: int|
            0 <= b < sequences.len() ==> nonnegative(#[trigger] sequences[b])),
    decreases sequences.len(),
{
    if sequences.len() > 0 {
        let first = sequences.first();
        let rest = sequences.drop_first();
        let flat = sequences.flatten();
        assert(flat == first + rest.flatten());
        lemma_nonnegative_flatten(rest);
        lemma_nonnegative_concat(first, rest.flatten());
        if nonnegative(flat) {
            assert forall|b: int| 0 <= b < sequences.len() implies nonnegative(
                #[trigger] sequences[b],
            ) by {
                if b > 0 {
                    assert(sequences[b] == rest[b - 1]);
                }
            }
        }
        if forall|b: int| 0 <= b < sequences.len() ==> nonnegative(#[trigger] sequences[b]) {
            assert(nonnegative(sequences[0]));
            assert forall|b: int| 0 <= b < rest.len() implies nonnegative(#[trigger] rest[b]) by {
                assert(rest[b] == sequences[b + 1]);
            }
        }
    }
}

/// There is no negative count in two sequences together if there is none in
/// either, and the other way round.
proof fn lemma_nonnegative_concat<T>(a: Seq<Entry<T>>, b: Seq<Entry<T>>)
    ensures
        nonnegative(a + b) == (nonnegative(a) && nonnegative(b)),
{
    if nonnegative(a + b) {
        assert forall|i: int| 0 <= i < a.len() implies (#[trigger] a[i]).count >= 0 by {
            assert((a + b)[i] == a[i]);
        }
        assert forall|i: int| 0 <= i < b.len() implies (#[trigger] b[i]).count >= 0 by {
            assert((a + b)[a.len() + i] == b[i]);
        }
    }
}

/// A collector that only counts upwards has no negative counts.
pub proof fn law_counting_up_keeps_nonnegative<T: CounterKey>(
    before: Collector<T>,
    key: T,
    count: isize,
    after: Collector<T>,
    block: Option<Vec<Entry<T>>>,
)
    requires
        before.wf(),
        before.fits(key, count),
        added(before, key, count, after, block),
        nonnegative(before.entries()),
        count >= 0,
    ensures
        nonnegative(after.entries()),
{
    let b = bucket_of(key);
    let old_bucket = before.table()@[b];
    let new_bucket = after.table()@[b];
    let evicted = choose|evicted: Option<Entry<T>>|
        {
            &&& #[trigger] counted(old_bucket, key, count, new_bucket, evicted)
            &&& match evicted {
                None => after.overflow() == before.overflow() && block is None,
                Some(entry) => pushed(before.overflow(), entry, after.overflow(), block),
            }
        };
    lemma_nonnegative_parts(before);
    lemma_nonnegative_flatten(before.table()@);
    assert(nonnegative(old_bucket));
    if has_slot(old_bucket, key) {
        let i = choose|i: int|
            {
                &&& #[trigger] is_slot_of(old_bucket, key, i)
                &&& new_bucket == old_bucket.update(
                    i,
                    (Entry {
                        item: old_bucket[i].item,
                        count: (old_bucket[i].count + count) as isize,
                    }),
                )
            };
        lemma_total_of_slot(old_bucket, key, i);
        assert forall|j: int| 0 <= j < new_bucket.len() implies (
        #[trigger] new_bucket[j]).count >= 0 by {
            assert(old_bucket[j].count >= 0);
        }
    } else {
        assert forall|j: int| 0 <= j < new_bucket.len() implies (
        #[trigger] new_bucket[j]).count >= 0 by {
            if j < old_bucket.len() {
                assert(old_bucket[j].count >= 0);
            }
        }
    }
    assert(nonnegative(new_bucket));
    assert forall|c: int| 0 <= c < after.table()@.len() implies nonnegative(
        #[trigger] after.table()@[c],
    ) by {
        if c != b {
            assert(after.table()@[c] == before.table()@[c]);
        }
    }
    lemma_nonnegative_flatten(after.table()@);
    if let Some(entry) = evicted {
        assert(entry.count >= 0) by {
            let i = choose|i: int| #[trigger]
                is_first_least(old_bucket, i) && evicted == Some(old_bucket[i]);
            assert(old_bucket[i].count >= 0);
        }
        let old_buffer = before.overflow().buffered();
        lemma_nonnegative_concat(old_buffer, seq![entry]);
        assert(old_buffer.push(entry) =~= old_buffer + seq![entry]);
        lemma_nonnegative_concat(before.overflow().spilled(), old_buffer);
    }
    lemma_nonnegative_parts(after);
}

/// There is no negative count in a collector if there is none in any of its
/// parts, and the other way round.
proof fn lemma_nonnegative_parts<T>(collector: Collector<T>)
    ensures
        nonnegative(collector.entries()) == {
            &&& nonnegative(collector.table().entries())
            &&& nonnegative(collector.overflow().buffered())
            &&& nonnegative(collector.overflow().spilled())
        },
{
    lemma_nonnegative_concat(collector.in_memory(), collector.overflow().spilled());
    lemma_nonnegative_concat(collector.table().entries(), collector.overflow().buffered());
}

/// After any number of additions that count upwards, a collector that had no
/// negative counts still has none.
pub proof fn law_runs_up_keep_nonnegative<T: CounterKey>(
    states: Seq<Collector<T>>,
    additions: Seq<Entry<T>>,
    blocks: Seq<Option<Vec<Entry<T>>>>,
)
    requires
        is_run(states, additions, blocks),
        nonnegative(additions),
        nonnegative(states.first().entries()),
    ensures
        nonnegative(states.last().entries()),
    decreases additions.len(),
{
    if additions.len() > 0 {
        let n = additions.len() - 1;
        lemma_run_prefix(states, additions, blocks);
        assert forall|i: int| 0 <= i < additions.drop_last().len() implies (
        #[trigger] additions.drop_last()[i]).count >= 0 by {
            assert(additions.drop_last()[i] == additions[i]);
        }
        law_runs_up_keep_nonnegative(
            states.drop_last(),
            additions.drop_last(),
            blocks.drop_last(),
        );
        let addition = additions[n];
        law_counting_up_keeps_nonnegative(
            states[n],
            addition.item,
            addition.count,
            states[n + 1],
            blocks[n],
        );
    }
}

/// Where no count is negative, the sum over entries is not negative either.
proof fn lemma_nonnegative_total<T: CounterKey>(entries: Seq<Entry<T>>, key: T)
    requires
        nonnegative(entries),
    ensures
        total(entries, key) >= 0,
    decreases entries.len(),
{
    if entries.len() > 0 {
        let fewer = entries.drop_last();
        assert forall|i: int| 0 <= i < fewer.len() implies (#[trigger] fewer[i]).count >= 0 by {
            assert(fewer[i] == entries[i]);
        }
        lemma_nonnegative_total(fewer, key);
        assert(entries[entries.len() - 1].count >= 0);
    }
}

/// As long as a key was counted less often than a count can tell, and less was
/// handed out for the file than a length can tell, the key can be counted.
pub proof fn law_fits_below_the_limits<T: CounterKey>(
    collector: Collector<T>,
    key: T,
    count: isize,
)
    requires
        collector.wf(),
        nonnegative(collector.entries()),
        count >= 0,
        collector.recorded(key) + count <= isize::MAX,
        collector.overflow().spilled().len() < usize::MAX,
    ensures
        collector.fits(key, count),
{
    let b = bucket_of(key);
    let buckets = collector.table()@;
    lemma_recorded_parts(collector, key);
    lemma_nonnegative_parts(collector);
    lemma_total_split(buckets, b, key);
    lemma_nonnegative_flatten(buckets);
    let front = buckets.take(b);
    let back = buckets.skip(b + 1);
    assert forall|c: int| 0 <= c < front.len() implies nonnegative(#[trigger] front[c]) by {
        assert(front[c] == buckets[c]);
    }
    assert forall|c: int| 0 <= c < back.len() implies nonnegative(#[trigger] back[c]) by {
        assert(back[c] == buckets[c + b + 1]);
    }
    lemma_nonnegative_flatten(front);
    lemma_nonnegative_flatten(back);
    assert(nonnegative(buckets[b]));
    lemma_nonnegative_total(front.flatten(), key);
    lemma_nonnegative_total(back.flatten(), key);
    lemma_nonnegative_total(buckets[b], key);
    lemma_nonnegative_total(collector.overflow().buffered(), key);
    lemma_nonnegative_total(collector.overflow().spilled(), key);
    let n = collector.overflow().blocks() as int;
    let length = TempFdArray::<Entry<T>>::block_length() as int;
    assert(length >= 1) by {
        let size = vstd::layout::size_of::<Entry<T>>() as int;
        if 0 < size <= BUFFER_BYTES {
            assert(BUFFER_BYTES as int / size >= 1) by (nonlinear_arith)
                requires
                    0 < size <= BUFFER_BYTES,
            ;
        }
    }
    assert(n <= n * length) by (nonlinear_arith)
        requires
            n >= 0,
            length >= 1,
    ;
}

} // verus!
