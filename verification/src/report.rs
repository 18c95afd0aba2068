//! Reports of what a profiler has collected.

use crate::collector::{
    appended, is_run, law_additions_accumulate, law_blocks_are_the_file, Collector, Entry,
    TempFdArray,
};
use crate::counting_up::{law_runs_up_keep_nonnegative, nonnegative};
use crate::counts::{
    counts_fit, law_positive_total_is_total, law_tally, tallied, tally, FrameCounts,
};
use crate::error::Error;
use crate::external::{found, guard_deref_mut, guard_release, guarded, lock_of, lock_write};
use crate::frames::UnresolvedFrames;
use crate::hash_counter::{distinct, lemma_flatten_empty};
use crate::profiler::Profiler;
use crate::tally::{lemma_sum_concat, positive_total, share, total};
use crate::timer::ReportTiming;
use spin::{RwLock, RwLockWriteGuard};
use vstd::prelude::*;

verus! {

/// A report whose stacks are not resolved to the names of functions: each stack
/// with the number of times that it was sampled.
pub struct UnresolvedReport {
    /// The stacks that were captured, each with its count.
    pub data: FrameCounts,
    /// Collection frequency, start time, duration.
    pub timing: ReportTiming,
}

/// What comes of a report on `profiler`, given what its file holds.
pub open spec fn reported(
    profiler: Profiler,
    file: Seq<Entry<UnresolvedFrames>>,
    timing: ReportTiming,
    result: Result<UnresolvedReport, Error>,
) -> bool {
    let entries = profiler.data.in_memory() + file;
    if !profiler.data.is_file_length(file.len()) {
        result == Err::<UnresolvedReport, Error>(Error::FileLength)
    } else if !counts_fit(entries) {
        result == Err::<UnresolvedReport, Error>(Error::CountOverflow)
    } else {
        &&& result matches Ok(report)
        &&& report.data.wf()
        &&& tallied(entries, report.data@)
        &&& report.timing == timing
    }
}

/// Whether a report on `profiler` can be made, given what reading its file gave.
pub open spec fn is_reportable(
    profiler: Profiler,
    read: Result<Vec<Entry<UnresolvedFrames>>, std::io::Error>,
) -> bool {
    &&& read matches Ok(file)
    &&& profiler.data.is_file_length(file@.len())
    &&& counts_fit(profiler.data.in_memory() + file@)
}

/// What comes of building a report and resetting the profiler, given what
/// reading the file and truncating it gave. The profiler is reset if there is a
/// report; otherwise it is left as it was.
pub open spec fn built(
    before: Result<Profiler, Error>,
    read: Result<Vec<Entry<UnresolvedFrames>>, std::io::Error>,
    truncated: Result<(), std::io::Error>,
    timing: ReportTiming,
    after: Result<Profiler, Error>,
    result: Result<UnresolvedReport, Error>,
) -> bool {
    match before {
        Err(_) => {
            &&& result == Err::<UnresolvedReport, Error>(Error::CreatingError)
            &&& after == before
        },
        Ok(profiler) => match (read, truncated) {
            (Err(error), _) => {
                &&& result == Err::<UnresolvedReport, Error>(Error::IoError(error))
                &&& after == before
            },
            (Ok(file), Err(error)) if is_reportable(profiler, read) => {
                &&& result == Err::<UnresolvedReport, Error>(Error::IoError(error))
                &&& after == before
            },
            (Ok(file), _) => {
                &&& reported(profiler, file@, timing, result)
                &&& if result is Ok {
                    after matches Ok(profiler) && profiler.data.wf() && profiler.data.is_empty()
                } else {
                    after == before
                }
            },
        },
    }
}

impl Profiler {
    /// A report on what was collected, given what the file holds.
    pub fn unresolved_report(
        &self,
        file: &[Entry<UnresolvedFrames>],
        timing: ReportTiming,
    ) -> (result: Result<UnresolvedReport, Error>)
        ensures
            reported(*self, file@, timing, result),
    {
        match self.data.try_iter(file) {
            None => Err(Error::FileLength),
            Some(entries) => match tally(&entries) {
                None => Err(Error::CountOverflow),
                Some(data) => Ok(UnresolvedReport { data, timing }),
            },
        }
    }
}

/// What comes of building a report and resetting the profiler, given how the file
/// is read and truncated.
///
/// `reading` tells what reading a number of blocks from the file can give, and
/// `truncation` what truncating the file can give and what it makes of the file.
/// The file is read as it was before, and only if there is a profiler. It is
/// truncated as it was when it was read, and only if a report can be made;
/// otherwise it is left as it was.
pub open spec fn build_outcome<F>(
    before: Result<Profiler, Error>,
    store: F,
    reading: spec_fn(F, usize, Result<Vec<Entry<UnresolvedFrames>>, std::io::Error>) -> bool,
    truncation: spec_fn(F, Result<(), std::io::Error>, F) -> bool,
    timing: ReportTiming,
    after: Result<Profiler, Error>,
    store_after: F,
    result: Result<UnresolvedReport, Error>,
) -> bool {
    exists|
        file: Result<Vec<Entry<UnresolvedFrames>>, std::io::Error>,
        truncated: Result<(), std::io::Error>,
    |
        {
            &&& #[trigger] built(before, file, truncated, timing, after, result)
            &&& match before {
                Err(_) => store_after == store,
                Ok(profiler) => {
                    &&& reading(store, profiler.data.overflow().blocks() as usize, file)
                    &&& if is_reportable(profiler, file) {
                        truncation(store, truncated, store_after)
                    } else {
                        store_after == store
                    }
                },
            }
        }
}

/// Builds a report on the profiler, if there is one, and resets it. `store` is
/// the file of the profiler's collector: `read` reads the given number of blocks
/// from it, and `truncate` makes it empty. It is read first. It is truncated when
/// the report is complete, and the profiler is only reset if that succeeds.
pub fn build_and_reset<F, R, C>(
    profiler: &mut Result<Profiler, Error>,
    store: &mut F,
    read: R,
    truncate: C,
    timing: ReportTiming,
) -> (result: Result<UnresolvedReport, Error>) where
    R: FnOnce(&F, usize) -> Result<Vec<Entry<UnresolvedFrames>>, std::io::Error>,
    C: FnOnce(&mut F) -> Result<(), std::io::Error>,

    requires
        forall|file: &F, blocks: usize|
            *file == *old(store) ==> #[trigger] call_requires(read, (file, blocks)),
        forall|file: &mut F|
            *file == *old(store) ==> #[trigger] call_requires(truncate, (file,)),
    ensures
        build_outcome(
            *old(profiler),
            *old(store),
            |file: F, blocks: usize, entries| call_ensures(read, (&file, blocks), entries),
            |before: F, truncated, after: F|
                exists|file: &mut F|
                    {
                        &&& *file == before
                        &&& *final(file) == after
                        &&& #[trigger] call_ensures(truncate, (file,), truncated)
                    },
            timing,
            *final(profiler),
            *final(store),
            result,
        ),
{
    let ghost before = *profiler;
    let ghost mut file_read: Result<Vec<Entry<UnresolvedFrames>>, std::io::Error> = arbitrary();
    let ghost mut truncated: Result<(), std::io::Error> = arbitrary();
    let result = match profiler {
        Err(_) => Err(Error::CreatingError),
        Ok(running) => {
            let file = read(&*store, running.data.file_blocks());
            proof {
                file_read = file;
            }
            match file {
                Err(error) => Err(Error::IoError(error)),
                Ok(file) => match running.unresolved_report(file.as_slice(), timing) {
                    Err(error) => Err(error),
                    Ok(report) => {
                        let empty = truncate(store);
                        proof {
                            truncated = empty;
                        }
                        match empty {
                            Err(error) => Err(Error::IoError(error)),
                            Ok(()) => {
                                running.clear();
                                Ok(report)
                            },
                        }
                    },
                },
            }
        },
    };
    assert(built(before, file_read, truncated, timing, *profiler, result));
    result
}

/// Builds reports from a running [`Profiler`].
pub struct ReportBuilder<'a> {
    profiler: &'a RwLock<Result<Profiler, Error>>,
    timing: ReportTiming,
}

impl<'a> ReportBuilder<'a> {
    /// The lock behind which the profiler is.
    pub closed spec fn lock(&self) -> RwLock<Result<Profiler, Error>> {
        *self.profiler
    }

    /// The timing that reports state.
    pub closed spec fn report_timing(&self) -> ReportTiming {
        self.timing
    }

    /// Builds reports on the profiler behind the lock, which state `timing`.
    pub fn new(profiler: &'a RwLock<Result<Profiler, Error>>, timing: ReportTiming) -> (builder:
        Self)
        ensures
            builder.lock() == *profiler,
            builder.report_timing() == timing,
    {
        ReportBuilder { profiler, timing }
    }

    /// Builds an [`UnresolvedReport`] on the profiler that is found behind the
    /// lock and resets it, as [`build_and_reset`] does, all while the lock is held.
    ///
    /// The contract speaks of the guard as it is when it releases the lock: of what
    /// it found when it took the lock, and of what it leaves behind it. It does not
    /// say that the lock is taken only once, nor what is there on return, which other
    /// threads may have changed by then.
    pub fn build_unresolved_and_reset<F, R, C>(
        &self,
        store: &mut F,
        read: R,
        truncate: C,
    ) -> (result: Result<UnresolvedReport, Error>) where
        R: FnOnce(&F, usize) -> Result<Vec<Entry<UnresolvedFrames>>, std::io::Error>,
        C: FnOnce(&mut F) -> Result<(), std::io::Error>,

        requires
            forall|file: &F, blocks: usize|
                *file == *old(store) ==> #[trigger] call_requires(read, (file, blocks)),
            forall|file: &mut F|
                *file == *old(store) ==> #[trigger] call_requires(truncate, (file,)),
        ensures
            exists|guard: RwLockWriteGuard<Result<Profiler, Error>>|
                {
                    &&& lock_of(guard) == self.lock()
                    &&& build_outcome(
                        #[trigger] found(guard),
                        *old(store),
                        |file: F, blocks: usize, entries|
                            call_ensures(read, (&file, blocks), entries),
                        |before: F, truncated, after: F|
                            exists|file: &mut F|
                                {
                                    &&& *file == before
                                    &&& *final(file) == after
                                    &&& #[trigger] call_ensures(truncate, (file,), truncated)
                                },
                        self.report_timing(),
                        guarded(guard),
                        *final(store),
                        result,
                    )
                    &&& call_ensures(guard_release, (guard,), ())
                },
    {
        let mut guard: RwLockWriteGuard<Result<Profiler, Error>> = lock_write(self.profiler);
        let result = build_and_reset(
            guard_deref_mut(&mut guard),
            store,
            read,
            truncate,
            self.timing,
        );
        assert(lock_of(guard) == self.lock());
        guard_release(guard);
        result
    }
}

/// A report states what was counted: if a collector, empty at first, counted the
/// additions, none of them downwards, and the file holds the blocks that it
/// handed out, then there is a report, unless a sum is no count. No stack occurs
/// twice in it, and the count of every stack is the sum of its additions.
pub proof fn law_report_states_what_was_counted(
    states: Seq<Collector<UnresolvedFrames>>,
    additions: Seq<Entry<UnresolvedFrames>>,
    blocks: Seq<Option<Vec<Entry<UnresolvedFrames>>>>,
    profiler: Profiler,
    file: Seq<Entry<UnresolvedFrames>>,
    timing: ReportTiming,
    result: Result<UnresolvedReport, Error>,
    key: UnresolvedFrames,
)
    requires
        is_run(states, additions, blocks),
        states.first().is_empty(),
        nonnegative(additions),
        profiler.data == states.last(),
        file == appended(blocks),
        reported(profiler, file, timing, result),
    ensures
        result is Ok <==> (forall|any: UnresolvedFrames| #[trigger]
            total(additions, any) <= isize::MAX),
        result matches Ok(report) ==> {
            &&& distinct(report.data@)
            &&& total(report.data@, key) == total(additions, key)
        },
{
    let entries = profiler.data.in_memory() + file;
    law_blocks_are_the_file(states, additions, blocks);
    assert(entries == profiler.data.entries());
    assert(states[states.len() - 1].wf());
    lemma_flatten_empty(states.first().table()@);
    assert(states.first().entries() =~= Seq::<Entry<UnresolvedFrames>>::empty());
    law_runs_up_keep_nonnegative(states, additions, blocks);
    assert forall|any: UnresolvedFrames|
        #![trigger positive_total(entries, any)]
        #![trigger total(additions, any)]
        positive_total(entries, any) == total(additions, any) by {
        law_additions_accumulate(states, additions, blocks, any);
        law_positive_total_is_total(entries, any);
    }
    if result is Ok {
        law_tally(entries, result->Ok_0.data@, key);
        assert forall|any: UnresolvedFrames| #[trigger] total(additions, any) <= isize::MAX by {
            assert(positive_total(entries, any) <= isize::MAX);
        }
    }
}

/// Two reports in a row state every sample exactly once: what was counted before
/// the first, starting from an empty collector, and what was counted between the
/// two, starting from what the first left behind the lock, none of it downwards.
/// Reading the file has to give what was handed out for it since it was last
/// empty. How often each stack is stated by the two reports together is then the
/// sum of its additions; none is lost in between or stated twice.
pub proof fn law_two_reports_state_every_sample_once<F>(
    states1: Seq<Collector<UnresolvedFrames>>,
    additions1: Seq<Entry<UnresolvedFrames>>,
    blocks1: Seq<Option<Vec<Entry<UnresolvedFrames>>>>,
    guard1: RwLockWriteGuard<Result<Profiler, Error>>,
    store1: F,
    reading1: spec_fn(F, usize, Result<Vec<Entry<UnresolvedFrames>>, std::io::Error>) -> bool,
    truncation1: spec_fn(F, Result<(), std::io::Error>, F) -> bool,
    timing1: ReportTiming,
    store_after1: F,
    result1: Result<UnresolvedReport, Error>,
    states2: Seq<Collector<UnresolvedFrames>>,
    additions2: Seq<Entry<UnresolvedFrames>>,
    blocks2: Seq<Option<Vec<Entry<UnresolvedFrames>>>>,
    guard2: RwLockWriteGuard<Result<Profiler, Error>>,
    store2: F,
    reading2: spec_fn(F, usize, Result<Vec<Entry<UnresolvedFrames>>, std::io::Error>) -> bool,
    truncation2: spec_fn(F, Result<(), std::io::Error>, F) -> bool,
    timing2: ReportTiming,
    store_after2: F,
    result2: Result<UnresolvedReport, Error>,
    key: UnresolvedFrames,
)
    requires
        is_run(states1, additions1, blocks1),
        states1.first().is_empty(),
        nonnegative(additions1),
        found(guard1) matches Ok(profiler) && profiler.data == states1.last(),
        gives_back(reading1, store1, appended(blocks1)),
        build_outcome(
            found(guard1),
            store1,
            reading1,
            truncation1,
            timing1,
            guarded(guard1),
            store_after1,
            result1,
        ),
        result1 is Ok,
        is_run(states2, additions2, blocks2),
        guarded(guard1) matches Ok(profiler) && profiler.data == states2.first(),
        nonnegative(additions2),
        found(guard2) matches Ok(profiler) && profiler.data == states2.last(),
        gives_back(reading2, store2, appended(blocks2)),
        build_outcome(
            found(guard2),
            store2,
            reading2,
            truncation2,
            timing2,
            guarded(guard2),
            store_after2,
            result2,
        ),
        result2 is Ok,
    ensures
        total(result1->Ok_0.data@, key) + total(result2->Ok_0.data@, key) == total(
            additions1 + additions2,
            key,
        ),
{
    lemma_reported_in_full(
        states1,
        additions1,
        blocks1,
        found(guard1),
        store1,
        reading1,
        truncation1,
        timing1,
        guarded(guard1),
        store_after1,
        result1,
        key,
    );
    lemma_reported_in_full(
        states2,
        additions2,
        blocks2,
        found(guard2),
        store2,
        reading2,
        truncation2,
        timing2,
        guarded(guard2),
        store_after2,
        result2,
        key,
    );
    lemma_sum_concat(additions1, additions2, |e: Entry<UnresolvedFrames>| share(e, key));
}

/// Whether reading the file gives the entries, and cannot fail.
pub open spec fn gives_back<F>(
    reading: spec_fn(F, usize, Result<Vec<Entry<UnresolvedFrames>>, std::io::Error>) -> bool,
    store: F,
    entries: Seq<Entry<UnresolvedFrames>>,
) -> bool {
    forall|blocks: usize, file: Result<Vec<Entry<UnresolvedFrames>>, std::io::Error>| #[trigger]
        reading(store, blocks, file) ==> (file matches Ok(file) && file@ == entries)
}

/// A report on a collector that started empty states what was counted, and leaves
/// an empty collector.
proof fn lemma_reported_in_full<F>(
    states: Seq<Collector<UnresolvedFrames>>,
    additions: Seq<Entry<UnresolvedFrames>>,
    blocks: Seq<Option<Vec<Entry<UnresolvedFrames>>>>,
    before: Result<Profiler, Error>,
    store: F,
    reading: spec_fn(F, usize, Result<Vec<Entry<UnresolvedFrames>>, std::io::Error>) -> bool,
    truncation: spec_fn(F, Result<(), std::io::Error>, F) -> bool,
    timing: ReportTiming,
    after: Result<Profiler, Error>,
    store_after: F,
    result: Result<UnresolvedReport, Error>,
    key: UnresolvedFrames,
)
    requires
        is_run(states, additions, blocks),
        states.first().is_empty(),
        nonnegative(additions),
        before matches Ok(profiler) && profiler.data == states.last(),
        gives_back(reading, store, appended(blocks)),
        build_outcome(before, store, reading, truncation, timing, after, store_after, result),
        result is Ok,
    ensures
        total(result->Ok_0.data@, key) == total(additions, key),
        after matches Ok(profiler) && profiler.data.is_empty(),
{
    let profiler = before->Ok_0;
    let (file, truncated) = choose|
        file: Result<Vec<Entry<UnresolvedFrames>>, std::io::Error>,
        truncated: Result<(), std::io::Error>,
    |
        {
            &&& #[trigger] built(before, file, truncated, timing, after, result)
            &&& reading(store, profiler.data.overflow().blocks() as usize, file)
        };
    law_report_states_what_was_counted(
        states,
        additions,
        blocks,
        profiler,
        file->Ok_0@,
        timing,
        result,
        key,
    );
}

/// A report resets the profiler: the next one, if nothing was counted in between
/// and reading the truncated file gives nothing, is without stacks. There is a next
/// one, unless the file cannot be truncated again.
pub proof fn law_report_after_reset_is_empty<F>(
    before: Result<Profiler, Error>,
    store: F,
    reading: spec_fn(F, usize, Result<Vec<Entry<UnresolvedFrames>>, std::io::Error>) -> bool,
    truncation: spec_fn(F, Result<(), std::io::Error>, F) -> bool,
    timing: ReportTiming,
    after: Result<Profiler, Error>,
    store_after: F,
    result: Result<UnresolvedReport, Error>,
    next_reading: spec_fn(F, usize, Result<Vec<Entry<UnresolvedFrames>>, std::io::Error>) -> bool,
    next_truncation: spec_fn(F, Result<(), std::io::Error>, F) -> bool,
    next_timing: ReportTiming,
    next_after: Result<Profiler, Error>,
    next_store_after: F,
    next: Result<UnresolvedReport, Error>,
)
    requires
        build_outcome(before, store, reading, truncation, timing, after, store_after, result),
        result is Ok,
        gives_back(next_reading, store_after, Seq::empty()),
        build_outcome(
            after,
            store_after,
            next_reading,
            next_truncation,
            next_timing,
            next_after,
            next_store_after,
            next,
        ),
    ensures
        match next {
            Ok(report) => report.data@ == Seq::<Entry<UnresolvedFrames>>::empty(),
            Err(Error::IoError(error)) => next_truncation(
                store_after,
                Err(error),
                next_store_after,
            ),
            Err(_) => false,
        },
{
    let profiler = after->Ok_0;
    let nothing = Seq::<Entry<UnresolvedFrames>>::empty();
    lemma_flatten_empty(profiler.data.table()@);
    assert(profiler.data.in_memory() + nothing =~= nothing);
    assert(profiler.data.is_file_length(0)) by {
        assert(0 * TempFdArray::<Entry<UnresolvedFrames>>::block_length() == 0);
    }
    assert(counts_fit(nothing));
}

/// Without a report the profiler is left as it was.
pub proof fn law_failure_leaves_the_profiler<F>(
    before: Result<Profiler, Error>,
    store: F,
    reading: spec_fn(F, usize, Result<Vec<Entry<UnresolvedFrames>>, std::io::Error>) -> bool,
    truncation: spec_fn(F, Result<(), std::io::Error>, F) -> bool,
    timing: ReportTiming,
    after: Result<Profiler, Error>,
    store_after: F,
    result: Result<UnresolvedReport, Error>,
)
    requires
        build_outcome(before, store, reading, truncation, timing, after, store_after, result),
        result is Err,
    ensures
        after == before,
{
}

/// The file is truncated if there is a report. If there is none, it is left as it
/// was, unless what failed was truncating it.
pub proof fn law_file_is_kept_without_a_report<F>(
    before: Result<Profiler, Error>,
    store: F,
    reading: spec_fn(F, usize, Result<Vec<Entry<UnresolvedFrames>>, std::io::Error>) -> bool,
    truncation: spec_fn(F, Result<(), std::io::Error>, F) -> bool,
    timing: ReportTiming,
    after: Result<Profiler, Error>,
    store_after: F,
    result: Result<UnresolvedReport, Error>,
)
    requires
        build_outcome(before, store, reading, truncation, timing, after, store_after, result),
    ensures
        match result {
            Ok(_) => truncation(store, Ok(()), store_after),
            Err(Error::IoError(error)) => store_after == store || truncation(
                store,
                Err(error),
                store_after,
            ),
            Err(_) => store_after == store,
        },
{
    let (file, truncated) = choose|
        file: Result<Vec<Entry<UnresolvedFrames>>, std::io::Error>,
        truncated: Result<(), std::io::Error>,
    |
        {
            &&& #[trigger] built(before, file, truncated, timing, after, result)
            &&& match before {
                Err(_) => store_after == store,
                Ok(profiler) => if is_reportable(profiler, file) {
                    truncation(store, truncated, store_after)
                } else {
                    store_after == store
                },
            }
        };
    if truncated is Ok {
        assert(truncated->Ok_0 == ());
    }
}

/// There is a report if and only if there is a profiler, its file can be read,
/// is as long as what was handed out for it and can be truncated, and every sum is
/// a count.
pub proof fn law_when_there_is_a_report(
    before: Result<Profiler, Error>,
    read: Result<Vec<Entry<UnresolvedFrames>>, std::io::Error>,
    truncated: Result<(), std::io::Error>,
    timing: ReportTiming,
    after: Result<Profiler, Error>,
    result: Result<UnresolvedReport, Error>,
)
    requires
        built(before, read, truncated, timing, after, result),
    ensures
        result is Ok <==> {
            &&& before matches Ok(profiler)
            &&& is_reportable(profiler, read)
            &&& truncated is Ok
        },
        result == Err::<UnresolvedReport, Error>(Error::CreatingError) <==> before is Err,
{
}

} // verus!
