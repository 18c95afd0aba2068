use std::collections::{BTreeMap, BTreeSet};

use pprof::collector::{
    buffer_length, Bucket, Collector, Entry, HashCounter, TempFdArray, BUCKETS,
    BUCKETS_ASSOCIATIVITY, BUFFER_BYTES,
};
use pprof::key::CounterKey;

/// Counts in a fresh map what the collector has counted.
fn counts(collector: &Collector<usize>, file: &[Entry<usize>]) -> BTreeMap<usize, isize> {
    let mut map = BTreeMap::new();
    for entry in collector.try_iter(file).unwrap() {
        *map.entry(entry.item).or_insert(0) += entry.count;
    }
    map
}

#[test]
fn bucket_counts_a_key_that_it_has() {
    let mut bucket = Bucket::<usize>::new();
    assert!(bucket.add(7, 2).is_none());
    assert!(bucket.add(8, 1).is_none());
    assert!(bucket.add(7, 3).is_none());
    for key in [9, 10] {
        assert!(bucket.add(key, 9).is_none());
    }
    // 8 has the least count, not 7
    let evicted = bucket.add(11, 1).unwrap();
    assert_eq!((evicted.item, evicted.count), (8, 1));
}

#[test]
fn bucket_evicts_the_first_of_the_least() {
    let mut bucket = Bucket::<usize>::new();
    for (key, count) in [(1, 5), (2, 3), (3, 3), (4, 4)] {
        assert!(bucket.add(key, count).is_none());
    }
    let evicted = bucket.add(5, 8).unwrap();
    assert_eq!((evicted.item, evicted.count), (2, 3));
    let evicted = bucket.add(6, 9).unwrap();
    assert_eq!((evicted.item, evicted.count), (3, 3));
    let evicted = bucket.add(7, 1).unwrap();
    assert_eq!((evicted.item, evicted.count), (4, 4));
    // an entry is replaced even by one that counts less
    let evicted = bucket.add(8, 1).unwrap();
    assert_eq!((evicted.item, evicted.count), (7, 1));
}

#[test]
fn counter_keeps_keys_apart() {
    let mut counter = HashCounter::<usize>::default();
    for key in 0..100 {
        counter.add(key, key as isize + 1);
    }
    for key in 0..100 {
        counter.add(key, 1);
    }
    let entries = counter.iter();
    let keys: BTreeSet<usize> = entries.iter().map(|e| e.item).collect();
    assert_eq!(keys.len(), entries.len());
    for entry in entries {
        assert_eq!(entry.count, entry.item as isize + 2);
    }
}

#[test]
fn counter_puts_a_key_into_the_bucket_of_its_hash() {
    let mut counter = HashCounter::<usize>::default();
    for key in [3usize, 5, 8] {
        counter.add(key, 1);
    }
    let mut expected = [3usize, 5, 8];
    expected.sort_by_key(|key| key.hash_key() % BUCKETS as u64);
    let found: Vec<usize> = counter.iter().iter().map(|e| e.item).collect();
    assert_eq!(found, expected);
}

#[test]
fn keys_with_different_bytes_hash_differently() {
    assert_eq!(5usize.hash_key(), 5usize.hash_key());
    assert_ne!(5usize.hash_key(), 6usize.hash_key());
    assert_ne!(1usize.hash_key(), 256usize.hash_key());
    assert!(5usize.is_same(&5));
    assert!(!5usize.is_same(&6));
}

#[test]
fn buffer_length_depends_on_the_size() {
    assert_eq!(buffer_length::<u8>(), BUFFER_BYTES);
    assert_eq!(buffer_length::<u64>(), 32768);
    assert_eq!(buffer_length::<[u8; 100000]>(), 2);
    assert_eq!(buffer_length::<[u8; 300000]>(), 1);
    assert_eq!(buffer_length::<()>(), 1);
}

#[test]
fn array_hands_out_full_blocks_in_order() {
    let mut array = TempFdArray::<[u8; 100000]>::new();
    assert!(array.push([1; 100000]).is_none());
    assert!(array.push([2; 100000]).is_none());
    let block = array.push([3; 100000]).unwrap();
    assert_eq!(block.iter().map(|item| item[0]).collect::<Vec<u8>>(), [1, 2]);
    assert_eq!(array.buffer_index(), 1);
    assert_eq!(array.flush_n(), 1);
    let items = array.try_iter(&block).unwrap();
    assert_eq!(items.iter().map(|item| item[0]).collect::<Vec<u8>>(), [3, 1, 2]);
}

#[test]
fn array_refuses_a_file_of_the_wrong_length() {
    let mut array = TempFdArray::<[u8; 300000]>::new();
    array.push([1; 300000]);
    let block = array.push([2; 300000]).unwrap();
    assert!(array.try_iter(&[]).is_none());
    assert!(array.try_iter(&block).is_some());
    assert!(array.try_iter(&[block[0], block[0]]).is_none());
}

#[test]
fn nothing_is_lost_when_the_table_overflows() {
    let mut collector = Collector::<usize>::new();
    let mut file: Vec<Entry<usize>> = Vec::new();
    let n = BUCKETS * BUCKETS_ASSOCIATIVITY * 3;
    for round in 1..=2 {
        for item in 0..n {
            if let Some(block) = collector.add(item, round) {
                file.extend(block);
            }
        }
    }
    assert!(collector.file_blocks() > 0);
    assert_eq!(file.len(), collector.file_blocks() * buffer_length::<Entry<usize>>());
    let map = counts(&collector, &file);
    assert_eq!(map.len(), n);
    assert!(map.values().all(|count| *count == 3));
}

#[test]
fn counts_may_go_down() {
    let mut collector = Collector::<usize>::new();
    collector.add(1, 5);
    collector.add(1, -7);
    assert_eq!(counts(&collector, &[])[&1], -2);
}

#[test]
fn new_collector_has_counted_nothing() {
    let collector = Collector::<usize>::new();
    assert_eq!(collector.file_blocks(), 0);
    assert!(collector.try_iter(&[]).unwrap().is_empty());
    assert!(collector.try_iter(&[Entry { item: 1, count: 1 }]).is_none());
}

#[test]
fn cleared_collector_counts_like_a_new_one() {
    let mut cleared = Collector::<usize>::new();
    for item in 0..20000 {
        cleared.add(item, 1);
    }
    cleared.clear();
    let mut fresh = Collector::<usize>::new();
    for item in 0..50 {
        assert!(cleared.add(item % 7, 1).is_none());
        assert!(fresh.add(item % 7, 1).is_none());
    }
    let entries = |collector: &Collector<usize>| -> Vec<(usize, isize)> {
        collector.try_iter(&[]).unwrap().iter().map(|e| (e.item, e.count)).collect()
    };
    assert_eq!(entries(&cleared), entries(&fresh));
}

#[test]
fn counting_up_leaves_no_negative_count() {
    let mut collector = Collector::<usize>::new();
    let mut file: Vec<Entry<usize>> = Vec::new();
    for item in 0..40000 {
        if let Some(block) = collector.add(item % 30000, item as isize % 3) {
            file.extend(block);
        }
    }
    assert!(collector.try_iter(&file).unwrap().iter().all(|entry| entry.count >= 0));
}

#[test]
fn a_key_can_be_counted_up_to_the_limit() {
    let mut collector = Collector::<usize>::new();
    assert!(collector.add(3, isize::MAX - 2).is_none());
    assert!(collector.add(3, 2).is_none());
    assert_eq!(counts(&collector, &[])[&3], isize::MAX);
}
