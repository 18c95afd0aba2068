//! What reports state, in terms of what was counted and of what is read back. The
//! laws in this file rest on the contracts of the functions: a premise
//! `call_ensures(f, arguments, result)` says that `result` is what a call of `f` with
//! `arguments` may return.

use crate::collector::{
    added, appended, buffer_length, is_run, law_additions_accumulate, law_blocks_are_the_file,
    lemma_run_prefix, Collector, Entry,
};
use crate::counting_laws::{
    lemma_empty_collector_is_read_back, lemma_sum_is_positive_total, lemma_tally_is_read_back,
};
use crate::counting_up::{law_fits_below_the_limits, law_runs_up_keep_nonnegative, nonnegative};
use crate::counts::{
    counts_fit, first_positions, law_positive_total_is_total, law_tally, lemma_first_positions,
    FrameCounts,
};
use crate::error::Error;
use crate::external::{found, guard_release, guarded, lock_of};
use crate::frames::{law_equal_samples_are_counted_together, UnresolvedFrames};
use crate::hash_counter::{bucket_of, counted, is_first_least, lemma_flatten_empty};
use crate::key::CounterKey;
use crate::profiler::Profiler;
use crate::report::{
    build_and_reset, build_outcome, built, is_reportable, law_report_states_what_was_counted,
    reported, ReportBuilder, UnresolvedReport,
};
use crate::tally::{
    lemma_sum_is_fold, lemma_sum_monotone, positive_share, positive_total, share, total,
};
use crate::temp_fd_array::pushed;
use crate::timer::ReportTiming;
use spin::{RwLock, RwLockWriteGuard};
use vstd::prelude::*;

verus! {

/// `sum`, which adds up the counts of the entries of the same stack, is the number of
/// times that the entries say it was counted.
proof fn lemma_sum_is_total(
    entries: Seq<Entry<UnresolvedFrames>>,
    sum: spec_fn(UnresolvedFrames) -> int,
)
    requires
        forall|key: UnresolvedFrames| #[trigger]
            sum(key) == entries.fold_left(
                0int,
                |sum: int, e: Entry<UnresolvedFrames>|
                    if {
                        &&& e.item.thread_id == key.thread_id
                        &&& e.item.frames@.len() == key.frames@.len()
                        &&& forall|d: int|
                            0 <= d < key.frames@.len() ==> (#[trigger] e.item.frames@[d]).address
                                == key.frames@[d].address
                    } {
                        sum + e.count
                    } else {
                        sum
                    },
            ),
    ensures
        forall|key: UnresolvedFrames| #[trigger] sum(key) == total(entries, key),
{
    assert forall|key: UnresolvedFrames| #[trigger] sum(key) == total(entries, key) by {
        let step = |sum: int, e: Entry<UnresolvedFrames>|
            if {
                &&& e.item.thread_id == key.thread_id
                &&& e.item.frames@.len() == key.frames@.len()
                &&& forall|d: int|
                    0 <= d < key.frames@.len() ==> (#[trigger] e.item.frames@[d]).address
                        == key.frames@[d].address
            } {
                sum + e.count
            } else {
                sum
            };
        let weight = |e: Entry<UnresolvedFrames>| share(e, key);
        assert forall|sum: int, e: Entry<UnresolvedFrames>| #[trigger]
            step(sum, e) == sum + weight(e) by {
            law_equal_samples_are_counted_together(e.item, key);
        }
        lemma_sum_is_fold(entries, weight, step);
    }
}

/// What the blocks hold, one after the other.
proof fn lemma_appended_is_flatten<T>(
    blocks: Seq<Option<Vec<T>>>,
    contents: spec_fn(Option<Vec<T>>) -> Seq<T>,
)
    requires
        forall|block: Option<Vec<T>>| #[trigger]
            contents(block) == match block {
                Some(block) => block@,
                None => Seq::empty(),
            },
    ensures
        appended(blocks) == blocks.map_values(contents).flatten(),
    decreases blocks.len(),
{
    if blocks.len() > 0 {
        let fewer = blocks.drop_last();
        lemma_appended_is_flatten(fewer, contents);
        assert(blocks.map_values(contents) =~= fewer.map_values(contents).push(
            contents(blocks.last()),
        ));
        fewer.map_values(contents).lemma_flatten_push(contents(blocks.last()));
    }
}

/// A part of the blocks holds no more than all of them.
proof fn lemma_appended_grows<T>(blocks: Seq<Option<Vec<T>>>, n: int)
    requires
        0 <= n <= blocks.len(),
    ensures
        appended(blocks.take(n)).len() <= appended(blocks).len(),
    decreases blocks.len(),
{
    if n < blocks.len() {
        lemma_appended_grows(blocks.drop_last(), n);
        assert(blocks.drop_last().take(n) =~= blocks.take(n));
    } else {
        assert(blocks.take(n) =~= blocks);
    }
}

/// A collector that counts additions upwards, within the limits of counts and lengths,
/// makes a run.
proof fn lemma_calls_make_a_run(
    states: Seq<Collector<UnresolvedFrames>>,
    additions: Seq<Entry<UnresolvedFrames>>,
    blocks: Seq<Option<Vec<Entry<UnresolvedFrames>>>>,
    n: int,
)
    requires
        states.len() == additions.len() + 1,
        blocks.len() == additions.len(),
        states[0].is_empty(),
        forall|i: int| 0 <= i < states.len() ==> (#[trigger] states[i]).wf(),
        forall|i: int|
            0 <= i < additions.len() ==> added(
                states[i],
                (#[trigger] additions[i]).item,
                additions[i].count,
                states[i + 1],
                blocks[i],
            ),
        nonnegative(additions),
        forall|key: UnresolvedFrames| #[trigger] total(additions, key) <= isize::MAX,
        appended(blocks).len() < usize::MAX,
        0 <= n <= additions.len(),
    ensures
        is_run(states.take(n + 1), additions.take(n), blocks.take(n)),
    decreases n,
{
    let run = states.take(n + 1);
    if n > 0 {
        lemma_calls_make_a_run(states, additions, blocks, n - 1);
        let run1 = states.take(n);
        let additions1 = additions.take(n - 1);
        let blocks1 = blocks.take(n - 1);
        let last = additions[n - 1];
        let key = last.item;
        let state = states[n - 1];
        assert(run1.last() == state);
        assert(nonnegative(additions1)) by {
            assert forall|i: int| 0 <= i < additions1.len() implies (
            #[trigger] additions1[i]).count >= 0 by {
                assert(additions1[i] == additions[i]);
            }
        }
        lemma_flatten_empty(run1.first().table()@);
        assert(run1.first().entries() =~= Seq::<Entry<UnresolvedFrames>>::empty());
        law_additions_accumulate(run1, additions1, blocks1, key);
        law_runs_up_keep_nonnegative(run1, additions1, blocks1);
        law_blocks_are_the_file(run1, additions1, blocks1);
        lemma_appended_grows(blocks, n - 1);
        let weight = |e: Entry<UnresolvedFrames>| positive_share(e, key);
        law_positive_total_is_total(additions1, key);
        law_positive_total_is_total(additions, key);
        lemma_sum_monotone(additions, n, weight);
        assert(additions.take(n).drop_last() =~= additions1);
        key.law_same_reflexive();
        assert(last.count >= 0);
        assert(positive_total(additions.take(n), key) == positive_total(additions1, key)
            + last.count);
        law_fits_below_the_limits(state, key, last.count);
        assert forall|i: int| 0 <= i < run.len() implies (#[trigger] run[i]).wf() by {
            assert(run[i] == states[i]);
        }
        assert forall|i: int| 0 <= i < additions.take(n).len() implies {
            let addition = #[trigger] additions.take(n)[i];
            &&& run[i].fits(addition.item, addition.count)
            &&& added(
                run[i],
                addition.item,
                addition.count,
                run[i + 1],
                blocks.take(n)[i],
            )
        } by {
            assert(additions.take(n)[i] == additions[i]);
            if i < n - 1 {
                assert(additions1[i] == additions[i]);
                assert(run1[i] == run[i]);
            }
        }
    }
}

/// Whether all items have the property.
spec fn each<T>(entries: Seq<Entry<T>>, holds: spec_fn(T) -> bool) -> bool {
    forall|i: int| 0 <= i < entries.len() ==> holds((#[trigger] entries[i]).item)
}

/// All items of two sequences have a property if those of both have.
proof fn lemma_each_concat<T>(a: Seq<Entry<T>>, b: Seq<Entry<T>>, holds: spec_fn(T) -> bool)
    ensures
        each(a + b, holds) == (each(a, holds) && each(b, holds)),
{
    if each(a + b, holds) {
        assert forall|i: int| 0 <= i < a.len() implies holds((#[trigger] a[i]).item) by {
            assert((a + b)[i] == a[i]);
        }
        assert forall|i: int| 0 <= i < b.len() implies holds((#[trigger] b[i]).item) by {
            assert((a + b)[a.len() + i] == b[i]);
        }
    }
}

/// All items of a sequence of sequences have a property if those of each have.
proof fn lemma_each_flatten<T>(sequences: Seq<Seq<Entry<T>>>, holds: spec_fn(T) -> bool)
    ensures
        each(sequences.flatten(), holds) == (forall|b: int|
            0 <= b < sequences.len() ==> each(#[trigger] sequences[b], holds)),
    decreases sequences.len(),
{
    if sequences.len() > 0 {
        let first = sequences.first();
        let rest = sequences.drop_first();
        lemma_each_flatten(rest, holds);
        lemma_each_concat(first, rest.flatten(), holds);
        if each(sequences.flatten(), holds) {
            assert forall|b: int| 0 <= b < sequences.len() implies each(
                #[trigger] sequences[b],
                holds,
            ) by {
                if b > 0 {
                    assert(sequences[b] == rest[b - 1]);
                }
            }
        }
        if forall|b: int| 0 <= b < sequences.len() ==> each(#[trigger] sequences[b], holds) {
            assert(each(sequences[0], holds));
            assert forall|b: int| 0 <= b < rest.len() implies each(#[trigger] rest[b], holds) by {
                assert(rest[b] == sequences[b + 1]);
            }
        }
    }
}

/// Counting brings no item into a collector but the one that is counted.
proof fn lemma_added_items<T: CounterKey>(
    before: Collector<T>,
    key: T,
    count: isize,
    after: Collector<T>,
    block: Option<Vec<Entry<T>>>,
    holds: spec_fn(T) -> bool,
)
    requires
        before.wf(),
        added(before, key, count, after, block),
        each(before.entries(), holds),
        holds(key),
    ensures
        each(after.entries(), holds),
{
    let b = bucket_of(key);
    let old_bucket = before.table()@[b];
    let new_bucket = after.table()@[b];
    let evicted = choose|evicted: Option<Entry<T>>|
        {
            &&& #[trigger] counted(old_bucket, key, count, new_bucket, evicted)
            &&& match evicted {
                None => after.overflow() == before.overflow() && block is None,
                Some(entry) => pushed(before.overflow(), entry, after.overflow(), block),
            }
        };
    lemma_each_concat(before.in_memory(), before.overflow().spilled(), holds);
    lemma_each_concat(before.table().entries(), before.overflow().buffered(), holds);
    lemma_each_flatten(before.table()@, holds);
    assert(each(old_bucket, holds));
    assert forall|j: int| 0 <= j < new_bucket.len() implies holds(
        (#[trigger] new_bucket[j]).item,
    ) by {
        if j < old_bucket.len() {
            assert(holds(old_bucket[j].item));
        }
    }
    assert forall|c: int| 0 <= c < after.table()@.len() implies each(
        #[trigger] after.table()@[c],
        holds,
    ) by {
        if c != b {
            assert(after.table()@[c] == before.table()@[c]);
        }
    }
    lemma_each_flatten(after.table()@, holds);
    if let Some(entry) = evicted {
        let i = choose|i: int| #[trigger]
            is_first_least(old_bucket, i) && evicted == Some(old_bucket[i]);
        assert(holds(old_bucket[i].item));
        let buffered = before.overflow().buffered();
        lemma_each_concat(buffered, seq![entry], holds);
        assert(buffered.push(entry) =~= buffered + seq![entry]);
        lemma_each_concat(before.overflow().spilled(), buffered, holds);
    }
    lemma_each_concat(after.table().entries(), after.overflow().buffered(), holds);
    lemma_each_concat(after.in_memory(), after.overflow().spilled(), holds);
}

/// After a run, the items of a collector that was empty are those of the additions.
proof fn lemma_run_items<T: CounterKey>(
    states: Seq<Collector<T>>,
    additions: Seq<Entry<T>>,
    blocks: Seq<Option<Vec<Entry<T>>>>,
    holds: spec_fn(T) -> bool,
)
    requires
        is_run(states, additions, blocks),
        states.first().is_empty(),
        each(additions, holds),
    ensures
        each(states.last().entries(), holds),
    decreases additions.len(),
{
    if additions.len() > 0 {
        let n = additions.len() - 1;
        lemma_run_prefix(states, additions, blocks);
        assert forall|i: int| 0 <= i < n implies holds(
            (#[trigger] additions.drop_last()[i]).item,
        ) by {
            assert(additions.drop_last()[i] == additions[i]);
        }
        lemma_run_items(states.drop_last(), additions.drop_last(), blocks.drop_last(), holds);
        let addition = additions[n];
        assert(states.drop_last().last() == states[n]);
        lemma_added_items(
            states[n],
            addition.item,
            addition.count,
            states[n + 1],
            blocks[n],
            holds,
        );
    } else {
        lemma_flatten_empty(states.first().table()@);
        assert(states.first().entries() =~= Seq::<Entry<T>>::empty());
    }
}

/// A report states every sample that was counted, and nothing else. A new profiler counts
/// the additions one after the other, none of them downwards, and the blocks that it
/// hands out are appended to its file. If the sum of the additions of every stack is a
/// count, there is a report. Asked for a stack, it gives the sum of the additions of
/// equal stacks, and none if that is 0. Its timing is the one that it was to state. The
/// samples that it lists are among those that were counted, and as they were counted.
pub proof fn law_report_states_every_sample(
    fresh: Profiler,
    states: Seq<Collector<UnresolvedFrames>>,
    additions: Seq<Entry<UnresolvedFrames>>,
    blocks: Seq<Option<Vec<Entry<UnresolvedFrames>>>>,
    sum: spec_fn(UnresolvedFrames) -> int,
    profiler: Profiler,
    file: &[Entry<UnresolvedFrames>],
    timing: ReportTiming,
    result: Result<UnresolvedReport, Error>,
)
    requires
        call_ensures(Profiler::new, (), fresh),
        states.len() == additions.len() + 1,
        blocks.len() == additions.len(),
        states.first() == fresh.data,
        profiler.data == states.last(),
        forall|i: int|
            #![trigger additions[i]]
            0 <= i < additions.len() ==> exists|collector: &mut Collector<UnresolvedFrames>|
                {
                    &&& *collector == states[i]
                    &&& *final(collector) == states[i + 1]
                    &&& #[trigger] call_ensures(
                        Collector::<UnresolvedFrames>::add,
                        (collector, additions[i].item, additions[i].count),
                        blocks[i],
                    )
                },
        forall|i: int| 0 <= i < additions.len() ==> (#[trigger] additions[i]).count >= 0,
        forall|key: UnresolvedFrames| #[trigger]
            sum(key) == additions.fold_left(
                0int,
                |sum: int, e: Entry<UnresolvedFrames>|
                    if {
                        &&& e.item.thread_id == key.thread_id
                        &&& e.item.frames@.len() == key.frames@.len()
                        &&& forall|d: int|
                            0 <= d < key.frames@.len() ==> (#[trigger] e.item.frames@[d]).address
                                == key.frames@[d].address
                    } {
                        sum + e.count
                    } else {
                        sum
                    },
            ),
        forall|key: UnresolvedFrames| #[trigger] sum(key) <= isize::MAX,
        file@ == blocks.map_values(
            |block: Option<Vec<Entry<UnresolvedFrames>>>|
                match block {
                    Some(block) => block@,
                    None => Seq::empty(),
                },
        ).flatten(),
        file@.len() < usize::MAX,
        call_ensures(Profiler::unresolved_report, (&profiler, file, timing), result),
    ensures
        result matches Ok(report) && {
            &&& report.timing.frequency == timing.frequency
            &&& report.timing.start_time == timing.start_time
            &&& report.timing.duration == timing.duration
            &&& forall|key: UnresolvedFrames, count: Option<isize>| #[trigger]
                call_ensures(FrameCounts::get, (&report.data, &key), count) ==> count == if sum(key)
                    > 0 {
                    Some(sum(key) as isize)
                } else {
                    None
                }
            &&& forall|i: usize, entry: &Entry<UnresolvedFrames>| #[trigger]
                call_ensures(FrameCounts::entry, (&report.data, i), entry) && i
                    < report.data@.len() ==> exists|j: int|
                    {
                        &&& 0 <= j < additions.len()
                        &&& entry.item.frames@ == (#[trigger] additions[j]).item.frames@
                        &&& entry.item.thread_name == additions[j].item.thread_name
                        &&& entry.item.thread_name_length == additions[j].item.thread_name_length
                        &&& entry.item.thread_id == additions[j].item.thread_id
                        &&& entry.item.sample_timestamp == additions[j].item.sample_timestamp
                    }
        },
{
    let n = additions.len() as int;
    assert forall|i: int| 0 <= i < states.len() implies (#[trigger] states[i]).wf() by {
        if i > 0 {
            let addition = additions[i - 1];
            assert(states[(i - 1) + 1].wf());
        }
    }
    assert forall|i: int| 0 <= i < additions.len() implies added(
        states[i],
        (#[trigger] additions[i]).item,
        additions[i].count,
        states[i + 1],
        blocks[i],
    ) by {
    }
    lemma_sum_is_total(additions, sum);
    assert forall|key: UnresolvedFrames| #[trigger] total(additions, key) <= isize::MAX by {
        assert(sum(key) <= isize::MAX);
    }
    let contents = |block: Option<Vec<Entry<UnresolvedFrames>>>|
        match block {
            Some(block) => block@,
            None => Seq::empty(),
        };
    lemma_appended_is_flatten(blocks, contents);
    lemma_calls_make_a_run(states, additions, blocks, n);
    assert(states.take(n + 1) =~= states);
    assert(additions.take(n) =~= additions);
    assert(blocks.take(n) =~= blocks);
    let entries = profiler.data.in_memory() + file@;
    law_report_states_what_was_counted(
        states,
        additions,
        blocks,
        profiler,
        file@,
        timing,
        result,
        arbitrary(),
    );
    let report = result->Ok_0;
    lemma_tally_is_read_back(entries, report.data);
    assert forall|key: UnresolvedFrames| #[trigger]
        positive_total(entries, key) == sum(key) by {
        law_report_states_what_was_counted(
            states,
            additions,
            blocks,
            profiler,
            file@,
            timing,
            result,
            key,
        );
        law_tally(entries, report.data@, key);
    }
    let holds = |item: UnresolvedFrames|
        exists|j: int| 0 <= j < additions.len() && (#[trigger] additions[j]).item == item;
    assert(each(additions, holds));
    lemma_run_items(states, additions, blocks, holds);
    law_blocks_are_the_file(states, additions, blocks);
    assert(entries == profiler.data.entries());
    lemma_first_positions(entries);
    assert forall|i: usize, entry: &Entry<UnresolvedFrames>| #[trigger]
        call_ensures(FrameCounts::entry, (&report.data, i), entry) && i
            < report.data@.len() implies exists|j: int|
        {
            &&& 0 <= j < additions.len()
            &&& entry.item.frames@ == (#[trigger] additions[j]).item.frames@
            &&& entry.item.thread_name == additions[j].item.thread_name
            &&& entry.item.thread_name_length == additions[j].item.thread_name_length
            &&& entry.item.thread_id == additions[j].item.thread_id
            &&& entry.item.sample_timestamp == additions[j].item.sample_timestamp
        } by {
        let p = first_positions(entries)[i as int];
        assert(report.data@[i as int].item.is_copy_of(&entries[p].item));
        assert(holds(entries[p].item));
    }
}

/// A report on what a profiler has counted states the sums of the positive counts of the
/// entries that reading the profiler gives, and the timing. There is one if and only if
/// the entries can be read and every sum is a count.
pub proof fn law_report_sums_up_what_is_read(
    profiler: Profiler,
    file: &[Entry<UnresolvedFrames>],
    timing: ReportTiming,
    entries: Option<Vec<&Entry<UnresolvedFrames>>>,
    sum: spec_fn(Seq<Entry<UnresolvedFrames>>, UnresolvedFrames) -> int,
    result: Result<UnresolvedReport, Error>,
)
    requires
        forall|entries: Seq<Entry<UnresolvedFrames>>, key: UnresolvedFrames| #[trigger]
            sum(entries, key) == entries.fold_left(
                0int,
                |sum: int, e: Entry<UnresolvedFrames>|
                    if {
                        &&& e.count > 0
                        &&& e.item.thread_id == key.thread_id
                        &&& e.item.frames@.len() == key.frames@.len()
                        &&& forall|d: int|
                            0 <= d < key.frames@.len() ==> (#[trigger] e.item.frames@[d]).address
                                == key.frames@[d].address
                    } {
                        sum + e.count
                    } else {
                        sum
                    },
            ),
        call_ensures(Collector::<UnresolvedFrames>::try_iter, (&profiler.data, file), entries),
        call_ensures(Profiler::unresolved_report, (&profiler, file, timing), result),
    ensures
        result == Err::<UnresolvedReport, Error>(Error::FileLength) <==> entries is None,
        result == Err::<UnresolvedReport, Error>(Error::CountOverflow) <==> {
            &&& entries matches Some(entries)
            &&& exists|key: UnresolvedFrames| #[trigger] sum(entries@.unref(), key) > isize::MAX
        },
        result is Err ==> {
            ||| result == Err::<UnresolvedReport, Error>(Error::FileLength)
            ||| result == Err::<UnresolvedReport, Error>(Error::CountOverflow)
        },
        result matches Ok(report) ==> {
            &&& report.timing.frequency == timing.frequency
            &&& report.timing.start_time == timing.start_time
            &&& report.timing.duration == timing.duration
            &&& forall|key: UnresolvedFrames, count: Option<isize>| #[trigger]
                call_ensures(FrameCounts::get, (&report.data, &key), count) ==> count == if sum(
                    entries->Some_0@.unref(),
                    key,
                ) > 0 {
                    Some(sum(entries->Some_0@.unref(), key) as isize)
                } else {
                    None
                }
        },
{
    lemma_reported_is_read_back(profiler, file, timing, entries, sum, result);
}

/// What a report states, by what reading the profiler gives.
proof fn lemma_reported_is_read_back(
    profiler: Profiler,
    file: &[Entry<UnresolvedFrames>],
    timing: ReportTiming,
    entries: Option<Vec<&Entry<UnresolvedFrames>>>,
    sum: spec_fn(Seq<Entry<UnresolvedFrames>>, UnresolvedFrames) -> int,
    result: Result<UnresolvedReport, Error>,
)
    requires
        forall|entries: Seq<Entry<UnresolvedFrames>>, key: UnresolvedFrames| #[trigger]
            sum(entries, key) == entries.fold_left(
                0int,
                |sum: int, e: Entry<UnresolvedFrames>|
                    if {
                        &&& e.count > 0
                        &&& e.item.thread_id == key.thread_id
                        &&& e.item.frames@.len() == key.frames@.len()
                        &&& forall|d: int|
                            0 <= d < key.frames@.len() ==> (#[trigger] e.item.frames@[d]).address
                                == key.frames@[d].address
                    } {
                        sum + e.count
                    } else {
                        sum
                    },
            ),
        call_ensures(Collector::<UnresolvedFrames>::try_iter, (&profiler.data, file), entries),
        reported(profiler, file@, timing, result),
    ensures
        result == Err::<UnresolvedReport, Error>(Error::FileLength) <==> entries is None,
        result == Err::<UnresolvedReport, Error>(Error::CountOverflow) <==> {
            &&& entries matches Some(entries)
            &&& exists|key: UnresolvedFrames| #[trigger] sum(entries@.unref(), key) > isize::MAX
        },
        result is Err ==> {
            ||| result == Err::<UnresolvedReport, Error>(Error::FileLength)
            ||| result == Err::<UnresolvedReport, Error>(Error::CountOverflow)
        },
        result matches Ok(report) ==> {
            &&& report.timing == timing
            &&& forall|key: UnresolvedFrames, count: Option<isize>| #[trigger]
                call_ensures(FrameCounts::get, (&report.data, &key), count) ==> count == if sum(
                    entries->Some_0@.unref(),
                    key,
                ) > 0 {
                    Some(sum(entries->Some_0@.unref(), key) as isize)
                } else {
                    None
                }
        },
{
    if let Some(read) = entries {
        let all = read@.unref();
        let one = |key: UnresolvedFrames| sum(all, key);
        lemma_sum_is_positive_total(all, one);
        assert forall|key: UnresolvedFrames| #[trigger]
            sum(all, key) == positive_total(all, key) by {
            assert(one(key) == positive_total(all, key));
        }
        if let Ok(report) = result {
            lemma_tally_is_read_back(all, report.data);
            assert forall|key: UnresolvedFrames| #[trigger] sum(all, key) <= isize::MAX by {
                assert(positive_total(all, key) <= isize::MAX);
            }
        } else {
            let key = choose|key: UnresolvedFrames| positive_total(all, key) > isize::MAX;
            assert(sum(all, key) > isize::MAX);
        }
    }
}

/// What comes of building a report, by what reading and truncating the file give and
/// by what the profiler and the report give when they are read.
spec fn is_full_outcome<F>(
    before: Result<Profiler, Error>,
    store: F,
    reading: spec_fn(F, usize, Result<Vec<Entry<UnresolvedFrames>>, std::io::Error>) -> bool,
    truncation: spec_fn(F, Result<(), std::io::Error>, F) -> bool,
    timing: ReportTiming,
    sum: spec_fn(Seq<Entry<UnresolvedFrames>>, UnresolvedFrames) -> int,
    after: Result<Profiler, Error>,
    store_after: F,
    result: Result<UnresolvedReport, Error>,
) -> bool {
    match before {
        Err(_) => {
            &&& result == Err::<UnresolvedReport, Error>(Error::CreatingError)
            &&& after == before
            &&& store_after == store
        },
        Ok(profiler) => exists|
            blocks: usize,
            read_back: Result<Vec<Entry<UnresolvedFrames>>, std::io::Error>,
        |
            {
                &&& #[trigger] reading(store, blocks, read_back)
                &&& forall|n: usize| #[trigger]
                    call_ensures(
                        Collector::<UnresolvedFrames>::file_blocks,
                        (&profiler.data,),
                        n,
                    ) ==> n == blocks
                &&& match (read_back, result) {
                    (Err(error), _) => {
                        &&& result == Err::<UnresolvedReport, Error>(Error::IoError(error))
                        &&& after == before
                        &&& store_after == store
                    },
                    (Ok(_), Err(Error::IoError(error))) => {
                        &&& after == before
                        &&& truncation(store, Err(error), store_after)
                    },
                    (Ok(_), Err(Error::CreatingError)) => false,
                    (Ok(_), Err(_)) => after == before && store_after == store,
                    (Ok(_), Ok(report)) => {
                        &&& report.timing.frequency == timing.frequency
                        &&& report.timing.start_time == timing.start_time
                        &&& report.timing.duration == timing.duration
                        &&& truncation(store, Ok(()), store_after)
                        &&& after matches Ok(left) && left.data.wf() && {
                            &&& forall|n: usize| #[trigger]
                                call_ensures(
                                    Collector::<UnresolvedFrames>::file_blocks,
                                    (&left.data,),
                                    n,
                                ) ==> n == 0
                            &&& forall|
                                file: &[Entry<UnresolvedFrames>],
                                entries: Option<Vec<&Entry<UnresolvedFrames>>>,
                            |
                                file@.len() == 0 && #[trigger] call_ensures(
                                    Collector::<UnresolvedFrames>::try_iter,
                                    (&left.data, file),
                                    entries,
                                ) ==> (entries matches Some(entries) && entries@.len() == 0)
                        }
                    },
                }
                &&& forall|
                    file: &[Entry<UnresolvedFrames>],
                    entries: Option<Vec<&Entry<UnresolvedFrames>>>,
                |
                    {
                        &&& #[trigger] call_ensures(
                            Collector::<UnresolvedFrames>::try_iter,
                            (&profiler.data, file),
                            entries,
                        )
                        &&& read_back matches Ok(read_back) && read_back@ == file@
                    } ==> match entries {
                        None => result == Err::<UnresolvedReport, Error>(Error::FileLength),
                        Some(entries) => match result {
                            Ok(report) => forall|key: UnresolvedFrames, count: Option<isize>|
                                #[trigger] call_ensures(
                                    FrameCounts::get,
                                    (&report.data, &key),
                                    count,
                                ) ==> count == if sum(entries@.unref(), key) > 0 {
                                    Some(sum(entries@.unref(), key) as isize)
                                } else {
                                    None
                                },
                            Err(Error::IoError(_)) => true,
                            Err(_) => {
                                &&& result == Err::<UnresolvedReport, Error>(Error::CountOverflow)
                                &&& exists|key: UnresolvedFrames|
                                    #[trigger] sum(entries@.unref(), key) > isize::MAX
                            },
                        },
                    }
            },
    }
}

/// What [`build_outcome`] states, by what is read.
proof fn lemma_full_outcome<F>(
    before: Result<Profiler, Error>,
    store: F,
    reading: spec_fn(F, usize, Result<Vec<Entry<UnresolvedFrames>>, std::io::Error>) -> bool,
    truncation: spec_fn(F, Result<(), std::io::Error>, F) -> bool,
    timing: ReportTiming,
    sum: spec_fn(Seq<Entry<UnresolvedFrames>>, UnresolvedFrames) -> int,
    after: Result<Profiler, Error>,
    store_after: F,
    result: Result<UnresolvedReport, Error>,
)
    requires
        forall|entries: Seq<Entry<UnresolvedFrames>>, key: UnresolvedFrames| #[trigger]
            sum(entries, key) == entries.fold_left(
                0int,
                |sum: int, e: Entry<UnresolvedFrames>|
                    if {
                        &&& e.count > 0
                        &&& e.item.thread_id == key.thread_id
                        &&& e.item.frames@.len() == key.frames@.len()
                        &&& forall|d: int|
                            0 <= d < key.frames@.len() ==> (#[trigger] e.item.frames@[d]).address
                                == key.frames@[d].address
                    } {
                        sum + e.count
                    } else {
                        sum
                    },
            ),
        build_outcome(before, store, reading, truncation, timing, after, store_after, result),
    ensures
        is_full_outcome(
            before,
            store,
            reading,
            truncation,
            timing,
            sum,
            after,
            store_after,
            result,
        ),
{
    if let Ok(profiler) = before {
        let blocks = profiler.data.overflow().blocks() as usize;
        let (read_back, truncated) = choose|
            read_back: Result<Vec<Entry<UnresolvedFrames>>, std::io::Error>,
            truncated: Result<(), std::io::Error>,
        |
            {
                &&& #[trigger] built(before, read_back, truncated, timing, after, result)
                &&& reading(store, profiler.data.overflow().blocks() as usize, read_back)
                &&& if is_reportable(profiler, read_back) {
                    truncation(store, truncated, store_after)
                } else {
                    store_after == store
                }
            };
        if truncated is Ok {
            assert(truncated->Ok_0 == ());
        }
        if result is Ok {
            lemma_empty_collector_is_read_back(after->Ok_0.data);
        }
        assert(reading(store, blocks, read_back));
        assert forall|
            file: &[Entry<UnresolvedFrames>],
            entries: Option<Vec<&Entry<UnresolvedFrames>>>,
        |
            {
                &&& #[trigger] call_ensures(
                    Collector::<UnresolvedFrames>::try_iter,
                    (&profiler.data, file),
                    entries,
                )
                &&& read_back matches Ok(read_back) && read_back@ == file@
            } implies match entries {
            None => result == Err::<UnresolvedReport, Error>(Error::FileLength),
            Some(entries) => match result {
                Ok(report) => forall|key: UnresolvedFrames, count: Option<isize>| #[trigger]
                    call_ensures(FrameCounts::get, (&report.data, &key), count) ==> count == if sum(
                        entries@.unref(),
                        key,
                    ) > 0 {
                        Some(sum(entries@.unref(), key) as isize)
                    } else {
                        None
                    },
                Err(Error::IoError(_)) => true,
                Err(_) => {
                    &&& result == Err::<UnresolvedReport, Error>(Error::CountOverflow)
                    &&& exists|key: UnresolvedFrames|
                        #[trigger] sum(entries@.unref(), key) > isize::MAX
                },
            },
        } by {
            if !(result matches Err(Error::IoError(_))) {
                lemma_reported_is_read_back(profiler, file, timing, entries, sum, result);
            }
        }
    }
}

/// What [`build_and_reset`] does, by what reading and truncating the file give and by
/// what the profiler and the report give when they are read:
///
/// - Without a profiler there is no report, and the file is left as it was.
/// - The file is read as it was, as many blocks as the profiler's collector has handed
///   out for it. If that fails, its error comes back.
/// - Together with the file's, the entries of the profiler are summed up: asked for a
///   stack, the report gives the sum of the positive counts of equal stacks. If the file
///   is not as long as it has to be, or if a sum is no count, there is no report.
/// - A report states the timing. With a report the file was truncated, and the profiler
///   that is left has nothing to report. Without one the profiler is left as it was, and
///   so is the file, unless it could not be truncated.
pub proof fn law_build_and_reset<F, R, C>(
    before: Result<Profiler, Error>,
    store: F,
    read: R,
    truncate: C,
    timing: ReportTiming,
    reading: spec_fn(F, usize, Result<Vec<Entry<UnresolvedFrames>>, std::io::Error>) -> bool,
    truncation: spec_fn(F, Result<(), std::io::Error>, F) -> bool,
    sum: spec_fn(Seq<Entry<UnresolvedFrames>>, UnresolvedFrames) -> int,
    after: Result<Profiler, Error>,
    store_after: F,
    result: Result<UnresolvedReport, Error>,
) where
    R: FnOnce(&F, usize) -> Result<Vec<Entry<UnresolvedFrames>>, std::io::Error>,
    C: FnOnce(&mut F) -> Result<(), std::io::Error>,

    requires
        forall|
            file: F,
            blocks: usize,
            read_back: Result<Vec<Entry<UnresolvedFrames>>, std::io::Error>,
        | #[trigger]
            reading(file, blocks, read_back) == call_ensures(read, (&file, blocks), read_back),
        forall|file: F, truncated: Result<(), std::io::Error>, file_after: F| #[trigger]
            truncation(file, truncated, file_after) == exists|f: &mut F|
                {
                    &&& *f == file
                    &&& *final(f) == file_after
                    &&& #[trigger] call_ensures(truncate, (f,), truncated)
                },
        forall|entries: Seq<Entry<UnresolvedFrames>>, key: UnresolvedFrames| #[trigger]
            sum(entries, key) == entries.fold_left(
                0int,
                |sum: int, e: Entry<UnresolvedFrames>|
                    if {
                        &&& e.count > 0
                        &&& e.item.thread_id == key.thread_id
                        &&& e.item.frames@.len() == key.frames@.len()
                        &&& forall|d: int|
                            0 <= d < key.frames@.len() ==> (#[trigger] e.item.frames@[d]).address
                                == key.frames@[d].address
                    } {
                        sum + e.count
                    } else {
                        sum
                    },
            ),
        exists|profiler: &mut Result<Profiler, Error>, file: &mut F|
            {
                &&& *profiler == before
                &&& *final(profiler) == after
                &&& *file == store
                &&& *final(file) == store_after
                &&& #[trigger] call_ensures(
                    build_and_reset::<F, R, C>,
                    (profiler, file, read, truncate, timing),
                    result,
                )
            },
    ensures
        match before {
            Err(_) => {
                &&& result == Err::<UnresolvedReport, Error>(Error::CreatingError)
                &&& after == before
                &&& store_after == store
            },
            Ok(profiler) => exists|
                blocks: usize,
                read_back: Result<Vec<Entry<UnresolvedFrames>>, std::io::Error>,
            |
                {
                    &&& #[trigger] reading(store, blocks, read_back)
                    &&& forall|n: usize| #[trigger]
                        call_ensures(
                            Collector::<UnresolvedFrames>::file_blocks,
                            (&profiler.data,),
                            n,
                        ) ==> n == blocks
                    &&& match (read_back, result) {
                        (Err(error), _) => {
                            &&& result == Err::<UnresolvedReport, Error>(Error::IoError(error))
                            &&& after == before
                            &&& store_after == store
                        },
                        (Ok(_), Err(Error::IoError(error))) => {
                            &&& after == before
                            &&& truncation(store, Err(error), store_after)
                        },
                        (Ok(_), Err(Error::CreatingError)) => false,
                        (Ok(_), Err(_)) => after == before && store_after == store,
                        (Ok(_), Ok(report)) => {
                            &&& report.timing.frequency == timing.frequency
                            &&& report.timing.start_time == timing.start_time
                            &&& report.timing.duration == timing.duration
                            &&& truncation(store, Ok(()), store_after)
                            &&& after matches Ok(left) && left.data.wf() && {
                                &&& forall|n: usize| #[trigger]
                                    call_ensures(
                                        Collector::<UnresolvedFrames>::file_blocks,
                                        (&left.data,),
                                        n,
                                    ) ==> n == 0
                                &&& forall|
                                    file: &[Entry<UnresolvedFrames>],
                                    entries: Option<Vec<&Entry<UnresolvedFrames>>>,
                                |
                                    file@.len() == 0 && #[trigger] call_ensures(
                                        Collector::<UnresolvedFrames>::try_iter,
                                        (&left.data, file),
                                        entries,
                                    ) ==> (entries matches Some(entries) && entries@.len() == 0)
                            }
                        },
                    }
                    &&& forall|
                        file: &[Entry<UnresolvedFrames>],
                        entries: Option<Vec<&Entry<UnresolvedFrames>>>,
                    |
                        {
                            &&& #[trigger] call_ensures(
                                Collector::<UnresolvedFrames>::try_iter,
                                (&profiler.data, file),
                                entries,
                            )
                            &&& read_back matches Ok(read_back) && read_back@ == file@
                        } ==> match entries {
                            None => result == Err::<UnresolvedReport, Error>(Error::FileLength),
                            Some(entries) => match result {
                                Ok(report) => forall|key: UnresolvedFrames, count: Option<isize>|
                                    #[trigger] call_ensures(
                                        FrameCounts::get,
                                        (&report.data, &key),
                                        count,
                                    ) ==> count == if sum(entries@.unref(), key) > 0 {
                                        Some(sum(entries@.unref(), key) as isize)
                                    } else {
                                        None
                                    },
                                Err(Error::IoError(_)) => true,
                                Err(_) => {
                                    &&& result == Err::<UnresolvedReport, Error>(
                                        Error::CountOverflow,
                                    )
                                    &&& exists|key: UnresolvedFrames|
                                        #[trigger] sum(entries@.unref(), key) > isize::MAX
                                },
                            },
                        }
                },
        },
{
    let called_read = |file: F, blocks: usize, entries|
        call_ensures(read, (&file, blocks), entries);
    let called_truncate = |before: F, truncated, after: F|
        exists|file: &mut F|
            {
                &&& *file == before
                &&& *final(file) == after
                &&& #[trigger] call_ensures(truncate, (file,), truncated)
            };
    assert(called_read =~= reading);
    assert(called_truncate =~= truncation);
    lemma_full_outcome(
        before,
        store,
        reading,
        truncation,
        timing,
        sum,
        after,
        store_after,
        result,
    );
}

/// A builder does to the profiler that it finds behind its lock what [`build_and_reset`]
/// does, and releases the lock: what is said there of the profiler before and after holds
/// of what was found when the lock was taken, and of what was there when the lock was
/// released. The report states the timing that the builder was made with.
pub proof fn law_builder_reports_what_it_finds<'a, F, R, C>(
    lock: &'a RwLock<Result<Profiler, Error>>,
    timing: ReportTiming,
    builder: ReportBuilder<'a>,
    store: F,
    read: R,
    truncate: C,
    reading: spec_fn(F, usize, Result<Vec<Entry<UnresolvedFrames>>, std::io::Error>) -> bool,
    truncation: spec_fn(F, Result<(), std::io::Error>, F) -> bool,
    sum: spec_fn(Seq<Entry<UnresolvedFrames>>, UnresolvedFrames) -> int,
    store_after: F,
    result: Result<UnresolvedReport, Error>,
) -> (guard: RwLockWriteGuard<'a, Result<Profiler, Error>>) where
    R: FnOnce(&F, usize) -> Result<Vec<Entry<UnresolvedFrames>>, std::io::Error>,
    C: FnOnce(&mut F) -> Result<(), std::io::Error>,

    requires
        call_ensures(ReportBuilder::new, (lock, timing), builder),
        forall|
            file: F,
            blocks: usize,
            read_back: Result<Vec<Entry<UnresolvedFrames>>, std::io::Error>,
        | #[trigger]
            reading(file, blocks, read_back) == call_ensures(read, (&file, blocks), read_back),
        forall|file: F, truncated: Result<(), std::io::Error>, file_after: F| #[trigger]
            truncation(file, truncated, file_after) == exists|f: &mut F|
                {
                    &&& *f == file
                    &&& *final(f) == file_after
                    &&& #[trigger] call_ensures(truncate, (f,), truncated)
                },
        forall|entries: Seq<Entry<UnresolvedFrames>>, key: UnresolvedFrames| #[trigger]
            sum(entries, key) == entries.fold_left(
                0int,
                |sum: int, e: Entry<UnresolvedFrames>|
                    if {
                        &&& e.count > 0
                        &&& e.item.thread_id == key.thread_id
                        &&& e.item.frames@.len() == key.frames@.len()
                        &&& forall|d: int|
                            0 <= d < key.frames@.len() ==> (#[trigger] e.item.frames@[d]).address
                                == key.frames@[d].address
                    } {
                        sum + e.count
                    } else {
                        sum
                    },
            ),
        exists|file: &mut F|
            {
                &&& *file == store
                &&& *final(file) == store_after
                &&& #[trigger] call_ensures(
                    ReportBuilder::build_unresolved_and_reset::<F, R, C>,
                    (&builder, file, read, truncate),
                    result,
                )
            },
    ensures
        lock_of(guard) == *lock,
        call_ensures(guard_release, (guard,), ()),
        match found(guard) {
            Err(_) => {
                &&& result == Err::<UnresolvedReport, Error>(Error::CreatingError)
                &&& guarded(guard) == found(guard)
                &&& store_after == store
            },
            Ok(profiler) => exists|
                blocks: usize,
                read_back: Result<Vec<Entry<UnresolvedFrames>>, std::io::Error>,
            |
                {
                    &&& #[trigger] reading(store, blocks, read_back)
                    &&& forall|n: usize| #[trigger]
                        call_ensures(
                            Collector::<UnresolvedFrames>::file_blocks,
                            (&profiler.data,),
                            n,
                        ) ==> n == blocks
                    &&& match (read_back, result) {
                        (Err(error), _) => {
                            &&& result == Err::<UnresolvedReport, Error>(Error::IoError(error))
                            &&& guarded(guard) == found(guard)
                            &&& store_after == store
                        },
                        (Ok(_), Err(Error::IoError(error))) => {
                            &&& guarded(guard) == found(guard)
                            &&& truncation(store, Err(error), store_after)
                        },
                        (Ok(_), Err(Error::CreatingError)) => false,
                        (Ok(_), Err(_)) => guarded(guard) == found(guard) && store_after == store,
                        (Ok(_), Ok(report)) => {
                            &&& report.timing.frequency == timing.frequency
                            &&& report.timing.start_time == timing.start_time
                            &&& report.timing.duration == timing.duration
                            &&& truncation(store, Ok(()), store_after)
                            &&& guarded(guard) matches Ok(left) && left.data.wf() && {
                                &&& forall|n: usize| #[trigger]
                                    call_ensures(
                                        Collector::<UnresolvedFrames>::file_blocks,
                                        (&left.data,),
                                        n,
                                    ) ==> n == 0
                                &&& forall|
                                    file: &[Entry<UnresolvedFrames>],
                                    entries: Option<Vec<&Entry<UnresolvedFrames>>>,
                                |
                                    file@.len() == 0 && #[trigger] call_ensures(
                                        Collector::<UnresolvedFrames>::try_iter,
                                        (&left.data, file),
                                        entries,
                                    ) ==> (entries matches Some(entries) && entries@.len() == 0)
                            }
                        },
                    }
                    &&& forall|
                        file: &[Entry<UnresolvedFrames>],
                        entries: Option<Vec<&Entry<UnresolvedFrames>>>,
                    |
                        {
                            &&& #[trigger] call_ensures(
                                Collector::<UnresolvedFrames>::try_iter,
                                (&profiler.data, file),
                                entries,
                            )
                            &&& read_back matches Ok(read_back) && read_back@ == file@
                        } ==> match entries {
                            None => result == Err::<UnresolvedReport, Error>(Error::FileLength),
                            Some(entries) => match result {
                                Ok(report) => forall|key: UnresolvedFrames, count: Option<isize>|
                                    #[trigger] call_ensures(
                                        FrameCounts::get,
                                        (&report.data, &key),
                                        count,
                                    ) ==> count == if sum(entries@.unref(), key) > 0 {
                                        Some(sum(entries@.unref(), key) as isize)
                                    } else {
                                        None
                                    },
                                Err(Error::IoError(_)) => true,
                                Err(_) => {
                                    &&& result == Err::<UnresolvedReport, Error>(
                                        Error::CountOverflow,
                                    )
                                    &&& exists|key: UnresolvedFrames|
                                        #[trigger] sum(entries@.unref(), key) > isize::MAX
                                },
                            },
                        }
                },
        },
{
    let called_read = |file: F, blocks: usize, entries|
        call_ensures(read, (&file, blocks), entries);
    let called_truncate = |before: F, truncated, after: F|
        exists|file: &mut F|
            {
                &&& *file == before
                &&& *final(file) == after
                &&& #[trigger] call_ensures(truncate, (file,), truncated)
            };
    assert(called_read =~= reading);
    assert(called_truncate =~= truncation);
    let guard = choose|guard: RwLockWriteGuard<Result<Profiler, Error>>|
        {
            &&& lock_of(guard) == *lock
            &&& build_outcome(
                #[trigger] found(guard),
                store,
                reading,
                truncation,
                timing,
                guarded(guard),
                store_after,
                result,
            )
            &&& call_ensures(guard_release, (guard,), ())
        };
    lemma_full_outcome(
        found(guard),
        store,
        reading,
        truncation,
        timing,
        sum,
        guarded(guard),
        store_after,
        result,
    );
    guard
}

/// The entries of a collector can be read if and only if its file is as long as the
/// blocks that were handed out for it.
pub proof fn law_file_has_the_length_of_its_blocks<T: CounterKey>(
    collector: Collector<T>,
    blocks: usize,
    length: usize,
    file: &[Entry<T>],
    entries: Option<Vec<&Entry<T>>>,
)
    requires
        call_ensures(Collector::<T>::file_blocks, (&collector,), blocks),
        call_ensures(buffer_length::<Entry<T>>, (), length),
        call_ensures(Collector::<T>::try_iter, (&collector, file), entries),
    ensures
        entries is Some <==> file@.len() == blocks * length,
        entries matches Some(entries) ==> entries@.len() >= file@.len() && forall|i: int|
            0 <= i < file@.len() ==> *entries@[entries@.len() - file@.len() + i]
                == #[trigger] file@[i],
{
    if let Some(entries) = entries {
        let all = entries@.unref();
        assert(all.len() == entries@.len());
        assert forall|i: int| 0 <= i < file@.len() implies *entries@[entries@.len() - file@.len()
            + i] == #[trigger] file@[i] by {
            assert(all[all.len() - file@.len() + i] == file@[i]);
        }
    }
}

/// The timing that a report states is the one that it was to state.
pub proof fn law_report_states_its_timing<F>(
    before: Result<Profiler, Error>,
    store: F,
    reading: spec_fn(F, usize, Result<Vec<Entry<UnresolvedFrames>>, std::io::Error>) -> bool,
    truncation: spec_fn(F, Result<(), std::io::Error>, F) -> bool,
    timing: ReportTiming,
    after: Result<Profiler, Error>,
    store_after: F,
    report: UnresolvedReport,
)
    requires
        build_outcome(before, store, reading, truncation, timing, after, store_after, Ok(report)),
    ensures
        report.timing.frequency == timing.frequency,
        report.timing.start_time == timing.start_time,
        report.timing.duration == timing.duration,
{
}

/// A profiler that is new, or was cleared, has nothing to report.
pub proof fn law_new_and_cleared_profilers_are_empty(
    profiler: Profiler,
    file: &[Entry<UnresolvedFrames>],
    entries: Option<Vec<&Entry<UnresolvedFrames>>>,
    timing: ReportTiming,
    result: Result<UnresolvedReport, Error>,
)
    requires
        call_ensures(Profiler::new, (), profiler) || exists|cleared: &mut Profiler|
            {
                &&& *final(cleared) == profiler
                &&& #[trigger] call_ensures(Profiler::clear, (cleared,), ())
            },
        file@.len() == 0,
        call_ensures(Collector::<UnresolvedFrames>::try_iter, (&profiler.data, file), entries),
        call_ensures(Profiler::unresolved_report, (&profiler, file, timing), result),
    ensures
        entries matches Some(entries) && entries@.len() == 0,
        result matches Ok(report) && forall|len: usize| #[trigger]
            call_ensures(FrameCounts::len, (&report.data,), len) ==> len == 0,
{
    lemma_empty_collector_is_read_back(profiler.data);
    let nothing = Seq::<Entry<UnresolvedFrames>>::empty();
    assert(entries->Some_0@.unref() =~= nothing);
    assert(counts_fit(nothing));
}

/// A report can be asked for whatever was counted and whatever the file holds, and it can
/// be built wherever the file that is handed in can be read and truncated.
pub proof fn law_reports_can_be_asked_for<F, R, C>(
    profiler: Profiler,
    file: &[Entry<UnresolvedFrames>],
    timing: ReportTiming,
    held: &mut Result<Profiler, Error>,
    builder: ReportBuilder,
    store: &mut F,
    read: R,
    truncate: C,
) where
    R: FnOnce(&F, usize) -> Result<Vec<Entry<UnresolvedFrames>>, std::io::Error>,
    C: FnOnce(&mut F) -> Result<(), std::io::Error>,

    requires
        forall|blocks: usize, f: &F|
            *f == *old(store) ==> #[trigger] call_requires(read, (f, blocks)),
        forall|f: &mut F| *f == *old(store) ==> #[trigger] call_requires(truncate, (f,)),
    ensures
        call_requires(Profiler::unresolved_report, (&profiler, file, timing)),
        call_requires(build_and_reset::<F, R, C>, (old(held), old(store), read, truncate, timing)),
        call_requires(
            ReportBuilder::build_unresolved_and_reset::<F, R, C>,
            (&builder, old(store), read, truncate),
        ),
{
}

} // verus!
