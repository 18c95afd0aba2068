use std::collections::BTreeMap;

use pprof::collector::{Collector, Entry, HashCounter, TempFdArray, BUCKETS, BUCKETS_ASSOCIATIVITY};

fn add_map(map: &mut BTreeMap<usize, isize>, entry: &Entry<usize>) {
    *map.entry(entry.item).or_insert(0) += entry.count;
}

#[test]
fn hash_counter_clear() {
    let mut counter = HashCounter::<usize>::default();
    counter.add(1, 1);
    counter.add(2, 3);

    counter.clear();

    // after clear, iteration should yield nothing
    assert_eq!(counter.iter().into_iter().count(), 0);

    // and new entries should work normally after clear
    counter.add(42, 7);
    let entries: Vec<_> = counter.iter().into_iter().filter(|e| e.count > 0).collect();
    assert_eq!(entries.len(), 1);
    assert_eq!(entries[0].item, 42);
    assert_eq!(entries[0].count, 7);
}

#[test]
fn temp_fd_array_clear() {
    // Entry<usize> size: usize (item) + isize (count) = 16 bytes on 64-bit,
    // so a buffer holds (1 << 18) / 16 = 16384 of them.
    // Push enough entries to trigger at least one flush, then clear.
    let buf_len = (1 << 18) / std::mem::size_of::<Entry<usize>>();
    let mut arr = TempFdArray::<Entry<usize>>::new();
    let mut file: Vec<Entry<usize>> = Vec::new();

    // Fill beyond in-memory buffer to force a flush
    for i in 0..=(buf_len + 10) {
        if let Some(block) = arr.push(Entry { item: i, count: 1 }) {
            file.extend(block);
        }
    }
    assert!(arr.flush_n() > 0, "expected at least one flush to disk");
    assert_eq!(file.len(), buf_len);

    arr.clear();
    file.clear();

    assert_eq!(arr.buffer_index(), 0);
    assert_eq!(arr.flush_n(), 0);
    // After clear, the file should be empty: try_iter returns nothing from disk
    let items: Vec<_> = arr.try_iter(&file).unwrap();
    assert_eq!(items.len(), 0);

    // Should be usable again after clear
    assert!(arr.push(Entry { item: 99, count: 5 }).is_none());
    let items: Vec<_> = arr.try_iter(&file).unwrap();
    assert_eq!(items.len(), 1);
    assert_eq!(items[0].item, 99);
}

#[test]
fn collector_clear_with_disk_eviction() {
    // Use enough distinct keys to saturate the HashCounter (4096 buckets x 4
    // slots = 16384 slots) and force many evictions, then verify clear works.
    let mut collector = Collector::<usize>::new();
    let mut file: Vec<Entry<usize>> = Vec::new();

    let n = BUCKETS * BUCKETS_ASSOCIATIVITY * 4;
    for item in 0..n {
        if let Some(block) = collector.add(item, 1) {
            file.extend(block);
        }
    }

    // Sanity check: collector has data
    let total_before: isize = collector.try_iter(&file).unwrap().iter().map(|e| e.count).sum();
    assert!(total_before > 0);

    collector.clear();
    file.clear();

    // After clear, iteration must yield nothing
    let total_after: isize = collector.try_iter(&file).unwrap().iter().map(|e| e.count).sum();
    assert_eq!(total_after, 0);

    // Must be usable again: add fresh data and verify it's correct
    for item in 0..10 {
        if let Some(block) = collector.add(item, 2) {
            file.extend(block);
        }
    }
    let mut real_map = BTreeMap::new();
    collector.try_iter(&file).unwrap().iter().for_each(|e| {
        add_map(&mut real_map, e);
    });
    for item in 0..10usize {
        assert_eq!(*real_map.get(&item).unwrap(), 2);
    }
}
