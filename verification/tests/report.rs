use std::cell::Cell;
use std::io::ErrorKind;
use std::time::{Duration, SystemTime};

use spin::RwLock;

use pprof::backtrace::Frame;
use pprof::collector::buffer_length;
use pprof::counts::{tally, FrameCounts};
use pprof::external::FrameStack;
use pprof::report::build_and_reset;
use pprof::timer::ReportTiming;
use pprof::{Entry, Error, Profiler, ReportBuilder, UnresolvedFrames};

fn sample(addresses: &[u64], thread_id: u64, second: u64) -> UnresolvedFrames {
    let frames: Vec<Frame> =
        addresses.iter().map(|address| Frame { ip: *address, address: *address }).collect();
    let time = SystemTime::UNIX_EPOCH + Duration::from_secs(second);
    UnresolvedFrames::new(FrameStack::from_frames(&frames), b"t", thread_id, time)
}

fn entry(addresses: &[u64], thread_id: u64, count: isize) -> Entry<UnresolvedFrames> {
    Entry { item: sample(addresses, thread_id, 0), count }
}

fn timing() -> ReportTiming {
    ReportTiming {
        frequency: 99,
        start_time: SystemTime::UNIX_EPOCH,
        duration: Duration::from_secs(10),
    }
}

/// A file of a collector, in memory.
#[derive(Default)]
struct Store {
    entries: Vec<Entry<UnresolvedFrames>>,
    blocks_read: Cell<Option<usize>>,
    truncations: usize,
}

fn read(store: &Store, blocks: usize) -> Result<Vec<Entry<UnresolvedFrames>>, std::io::Error> {
    store.blocks_read.set(Some(blocks));
    let copy = |entry: &Entry<UnresolvedFrames>| Entry {
        item: entry.item.clone(),
        count: entry.count,
    };
    Ok(store.entries.iter().map(copy).collect())
}

fn truncate(store: &mut Store) -> Result<(), std::io::Error> {
    store.entries.clear();
    store.truncations += 1;
    Ok(())
}

fn profiler_with_samples() -> Profiler {
    let mut profiler = Profiler::new();
    for second in 0..3 {
        assert!(profiler.data.add(sample(&[1, 2], 1, second), 1).is_none());
    }
    assert!(profiler.data.add(sample(&[1, 2], 2, 0), 1).is_none());
    profiler
}

#[test]
fn tally_sums_up_positive_counts() {
    let entries = [
        entry(&[1], 1, 2),
        entry(&[2], 1, 0),
        entry(&[1], 1, -5),
        entry(&[3], 1, -1),
        entry(&[4], 1, 1),
        entry(&[1], 1, 3),
    ];
    let counts = tally(&entries.iter().collect()).unwrap();
    assert_eq!(counts.len(), 2);
    assert_eq!(counts.get(&sample(&[1], 1, 7)), Some(5));
    assert_eq!(counts.get(&sample(&[4], 1, 7)), Some(1));
    assert_eq!(counts.get(&sample(&[2], 1, 7)), None);
    assert_eq!(counts.get(&sample(&[3], 1, 7)), None);
    assert_eq!(counts.get(&sample(&[1], 2, 7)), None);
}

#[test]
fn tally_keeps_the_first_of_equal_stacks() {
    let entries = [
        Entry { item: sample(&[1], 1, 10), count: 0 },
        Entry { item: sample(&[2], 1, 20), count: 1 },
        Entry { item: sample(&[1], 1, 30), count: 1 },
        Entry { item: sample(&[1], 1, 40), count: 1 },
    ];
    let counts = tally(&entries.iter().collect()).unwrap();
    let seconds: Vec<u64> = (0..counts.len())
        .map(|i| counts.entry(i).item.sample_timestamp)
        .map(|time| time.duration_since(SystemTime::UNIX_EPOCH).unwrap().as_secs())
        .collect();
    assert_eq!(seconds, [20, 30]);
    assert_eq!(counts.entry(1).count, 2);
}

#[test]
fn tally_of_nothing_is_empty() {
    assert_eq!(tally(&Vec::new()).unwrap().len(), 0);
}

#[test]
fn tally_refuses_sums_that_are_no_counts() {
    let fits = [entry(&[1], 1, isize::MAX - 1), entry(&[1], 1, 1), entry(&[2], 1, isize::MAX)];
    let counts = tally(&fits.iter().collect()).unwrap();
    assert_eq!(counts.get(&sample(&[1], 1, 0)), Some(isize::MAX));
    let too_large = [entry(&[1], 1, isize::MAX), entry(&[2], 1, 1), entry(&[1], 1, 1)];
    assert!(tally(&too_large.iter().collect()).is_none());
}

#[test]
fn record_tells_whether_the_sum_is_a_count() {
    let mut counts = FrameCounts::new();
    assert!(counts.record(&sample(&[1], 1, 0), -3));
    assert!(counts.record(&sample(&[1], 1, 0), 5));
    assert_eq!(counts.get(&sample(&[1], 1, 0)), Some(2));
    assert!(!counts.record(&sample(&[1], 1, 0), isize::MAX));
    assert_eq!(counts.get(&sample(&[1], 1, 0)), Some(2));
    assert_eq!(counts.len(), 1);
}

#[test]
fn many_stacks_are_found_again() {
    let mut counts = FrameCounts::new();
    for address in 0..5000u64 {
        assert!(counts.record(&sample(&[address], address % 3, 0), address as isize + 1));
    }
    assert_eq!(counts.len(), 5000);
    for address in 0..5000u64 {
        let key = sample(&[address], address % 3, 1);
        assert_eq!(counts.get(&key), Some(address as isize + 1));
        assert_eq!(counts.get(&sample(&[address], 3, 1)), None);
    }
}

#[test]
fn report_states_what_was_counted() {
    let lock = RwLock::new(Ok(profiler_with_samples()));
    let builder = ReportBuilder::new(&lock, timing());
    let mut store = Store::default();
    let report = builder.build_unresolved_and_reset(&mut store, read, truncate).unwrap();
    assert_eq!(report.data.len(), 2);
    assert_eq!(report.data.get(&sample(&[1, 2], 1, 9)), Some(3));
    assert_eq!(report.data.get(&sample(&[1, 2], 2, 9)), Some(1));
    assert_eq!(report.timing.frequency, 99);
    assert_eq!(report.timing.start_time, SystemTime::UNIX_EPOCH);
    assert_eq!(report.timing.duration, Duration::from_secs(10));
}

#[test]
fn report_resets_the_profiler() {
    let lock = RwLock::new(Ok(profiler_with_samples()));
    let builder = ReportBuilder::new(&lock, timing());
    let mut store = Store::default();
    assert!(builder.build_unresolved_and_reset(&mut store, read, truncate).is_ok());
    // the lock is free again
    match &*lock.try_read().unwrap() {
        Ok(profiler) => assert!(profiler.data.try_iter(&[]).unwrap().is_empty()),
        Err(_) => panic!("the profiler is gone"),
    }
    let second = builder.build_unresolved_and_reset(&mut store, read, truncate).unwrap();
    assert_eq!(second.data.len(), 0);
    // and the profiler goes on
    if let Ok(profiler) = &mut *lock.write() {
        profiler.data.add(sample(&[5], 5, 5), 4);
    }
    let third = builder.build_unresolved_and_reset(&mut store, read, truncate).unwrap();
    assert_eq!(third.data.len(), 1);
    assert_eq!(third.data.get(&sample(&[5], 5, 0)), Some(4));
}

#[test]
fn no_profiler_is_a_creating_error() {
    let lock = RwLock::new(Err(Error::IoError(ErrorKind::NotFound.into())));
    let builder = ReportBuilder::new(&lock, timing());
    let mut store = Store { entries: vec![entry(&[1], 1, 1)], ..Store::default() };
    let result = builder.build_unresolved_and_reset(&mut store, read, truncate);
    assert!(matches!(result, Err(Error::CreatingError)));
    assert_eq!(store.blocks_read.get(), None);
    assert_eq!(store.truncations, 0);
    assert_eq!(store.entries.len(), 1);
    assert!(matches!(&*lock.read(), Err(Error::IoError(_))));
}

#[test]
fn lock_is_free_again_after_every_outcome() {
    let lock = RwLock::new(Ok(profiler_with_samples()));
    let builder = ReportBuilder::new(&lock, timing());
    let mut store = Store::default();
    let unread = |_store: &Store, _blocks: usize| Err(ErrorKind::PermissionDenied.into());
    assert!(builder.build_unresolved_and_reset(&mut store, unread, truncate).is_err());
    assert!(lock.try_write().is_some());
    let untruncated = |_store: &mut Store| Err(ErrorKind::Other.into());
    assert!(builder.build_unresolved_and_reset(&mut store, read, untruncated).is_err());
    assert!(lock.try_write().is_some());
    // no sample was lost
    let report = builder.build_unresolved_and_reset(&mut store, read, truncate).unwrap();
    assert!(lock.try_write().is_some());
    assert_eq!(report.data.get(&sample(&[1, 2], 1, 0)), Some(3));
    assert_eq!(report.data.get(&sample(&[1, 2], 2, 0)), Some(1));
    // and none is left
    match &*lock.try_read().unwrap() {
        Ok(profiler) => assert!(profiler.data.try_iter(&[]).unwrap().is_empty()),
        Err(_) => panic!("the profiler is gone"),
    }
    let missing = RwLock::new(Err(Error::CreatingError));
    let builder = ReportBuilder::new(&missing, timing());
    assert!(builder.build_unresolved_and_reset(&mut store, read, truncate).is_err());
    assert!(missing.try_write().is_some());
}

#[test]
fn failed_read_leaves_profiler_and_file_alone() {
    let mut profiler = Ok(profiler_with_samples());
    let mut store = Store::default();
    let result = build_and_reset(
        &mut profiler,
        &mut store,
        |_store, _blocks| Err(ErrorKind::PermissionDenied.into()),
        truncate,
        timing(),
    );
    match result {
        Err(Error::IoError(error)) => assert_eq!(error.kind(), ErrorKind::PermissionDenied),
        _ => panic!("expected the error of the read"),
    }
    assert_eq!(store.truncations, 0);
    let report =
        build_and_reset(&mut profiler, &mut store, read, truncate, timing()).unwrap();
    assert_eq!(report.data.len(), 2);
    assert_eq!(store.truncations, 1);
}

#[test]
fn failed_truncation_leaves_the_profiler_alone() {
    let mut profiler = Ok(profiler_with_samples());
    let mut store = Store::default();
    let result = build_and_reset(
        &mut profiler,
        &mut store,
        read,
        |_store| Err(ErrorKind::Other.into()),
        timing(),
    );
    match result {
        Err(Error::IoError(error)) => assert_eq!(error.kind(), ErrorKind::Other),
        _ => panic!("expected the error of the truncation"),
    }
    let report =
        build_and_reset(&mut profiler, &mut store, read, truncate, timing()).unwrap();
    assert_eq!(report.data.get(&sample(&[1, 2], 1, 0)), Some(3));
}

#[test]
fn file_of_the_wrong_length_is_refused() {
    let mut profiler = Ok(profiler_with_samples());
    let mut store = Store { entries: vec![entry(&[1], 1, 1)], ..Store::default() };
    let result = build_and_reset(&mut profiler, &mut store, read, truncate, timing());
    assert!(matches!(result, Err(Error::FileLength)));
    assert_eq!(store.entries.len(), 1);
    assert_eq!(store.truncations, 0);
    store.entries.clear();
    assert!(build_and_reset(&mut profiler, &mut store, read, truncate, timing()).is_ok());
}

#[test]
fn overflowing_count_is_refused() {
    let mut profiler = profiler_with_samples();
    // fill the file with one block, then pretend that it holds huge counts
    let mut blocks: Vec<Vec<Entry<UnresolvedFrames>>> = Vec::new();
    let mut address = 0;
    while blocks.is_empty() {
        blocks.extend(profiler.data.add(sample(&[address], 1, 0), 1));
        address += 1;
    }
    let length = buffer_length::<Entry<UnresolvedFrames>>();
    assert_eq!(blocks[0].len(), length);
    assert!(length >= 2);
    let huge: Vec<_> = (0..length).map(|_| entry(&[7], 7, isize::MAX)).collect();
    assert!(matches!(profiler.unresolved_report(&huge, timing()), Err(Error::CountOverflow)));
    let mut held = Ok(profiler);
    let mut store = Store { entries: huge, ..Store::default() };
    let result = build_and_reset(&mut held, &mut store, read, truncate, timing());
    assert!(matches!(result, Err(Error::CountOverflow)));
    assert!(held.is_ok());
    assert_eq!(store.entries.len(), length);
    assert_eq!(store.truncations, 0);
}

#[test]
fn report_counts_what_went_to_the_file() {
    let mut profiler = Profiler::new();
    let mut store = Store::default();
    let stacks: u64 = 20000;
    for address in 0..stacks {
        if let Some(block) = profiler.data.add(sample(&[address], 1, 0), 2) {
            store.entries.extend(block);
        }
    }
    let expected_blocks = profiler.data.file_blocks();
    assert!(expected_blocks > 0);
    let lock = RwLock::new(Ok(profiler));
    let report = ReportBuilder::new(&lock, timing())
        .build_unresolved_and_reset(
            &mut store,
            |store, blocks| {
                assert_eq!(store.truncations, 0);
                assert!(lock.try_read().is_none());
                read(store, blocks)
            },
            |store| {
                assert_eq!(store.blocks_read.get(), Some(expected_blocks));
                assert!(lock.try_read().is_none());
                truncate(store)
            },
        )
        .unwrap();
    assert_eq!(store.blocks_read.get(), Some(expected_blocks));
    assert_eq!(store.truncations, 1);
    assert!(store.entries.is_empty());
    assert_eq!(report.data.len(), stacks as usize);
    for address in 0..stacks {
        assert_eq!(report.data.get(&sample(&[address], 1, 0)), Some(2));
    }
}

#[test]
fn two_reports_state_every_sample_once() {
    let lock = RwLock::new(Ok(Profiler::new()));
    let builder = ReportBuilder::new(&lock, timing());
    let mut store = Store::default();
    let record = |store: &mut Store, address: u64| {
        if let Ok(profiler) = &mut *lock.write() {
            if let Some(block) = profiler.data.add(sample(&[address], 1, address), 1) {
                store.entries.extend(block);
            }
        }
    };
    for i in 0..30000u64 {
        record(&mut store, i % 19000);
    }
    let first = builder.build_unresolved_and_reset(&mut store, read, truncate).unwrap();
    for i in 0..30000u64 {
        record(&mut store, 5000 + i % 19000);
    }
    let second = builder.build_unresolved_and_reset(&mut store, read, truncate).unwrap();
    for address in 0..25000u64 {
        let key = sample(&[address], 1, 0);
        let once = if address < 11000 {
            2
        } else if address < 19000 {
            1
        } else {
            0
        };
        let again = if (5000..16000).contains(&address) {
            2
        } else if (16000..24000).contains(&address) {
            1
        } else {
            0
        };
        assert_eq!(first.data.get(&key).unwrap_or(0), once);
        assert_eq!(second.data.get(&key).unwrap_or(0), again);
    }
}

#[test]
fn clear_forgets_all_samples() {
    let mut profiler = profiler_with_samples();
    profiler.clear();
    let report = profiler.unresolved_report(&[], timing()).unwrap();
    assert_eq!(report.data.len(), 0);
}
