use std::collections::hash_map::DefaultHasher;
use std::collections::HashSet;
use std::hash::{Hash, Hasher};
use std::time::{Duration, SystemTime};

use pprof::backtrace::Frame;
use pprof::external::FrameStack;
use pprof::key::CounterKey;
use pprof::{UnresolvedFrames, MAX_DEPTH, MAX_THREAD_NAME};

fn stack(addresses: &[u64]) -> FrameStack {
    let frames: Vec<Frame> =
        addresses.iter().map(|address| Frame { ip: address + 3, address: *address }).collect();
    FrameStack::from_frames(&frames)
}

fn sample(addresses: &[u64], thread_id: u64) -> UnresolvedFrames {
    UnresolvedFrames::new(stack(addresses), b"worker", thread_id, SystemTime::UNIX_EPOCH)
}

fn std_hash(sample: &UnresolvedFrames) -> u64 {
    let mut hasher = DefaultHasher::new();
    sample.hash(&mut hasher);
    hasher.finish()
}

fn addresses(sample: &UnresolvedFrames) -> Vec<u64> {
    sample.frames.as_frames().iter().map(|frame| frame.symbol_address()).collect()
}

#[test]
fn default_sample_is_empty() {
    let before = SystemTime::now();
    let sample = UnresolvedFrames::default();
    assert!(sample.frames.as_frames().is_empty());
    assert_eq!(sample.thread_name, [0; MAX_THREAD_NAME]);
    assert_eq!(sample.thread_name_length, 0);
    assert_eq!(sample.thread_id, 0);
    assert!(sample.sample_timestamp >= before);
    assert!(sample.sample_timestamp <= SystemTime::now());
}

#[test]
fn new_sample_holds_what_it_was_given() {
    let time = SystemTime::UNIX_EPOCH + Duration::from_secs(5);
    let sample = UnresolvedFrames::new(stack(&[10, 20]), b"main", 77, time);
    assert_eq!(addresses(&sample), [10, 20]);
    assert_eq!(sample.frames.as_frames()[1].ip, 23);
    assert_eq!(&sample.thread_name[..4], b"main");
    assert_eq!(sample.thread_name[4..], [0; 12]);
    assert_eq!(sample.thread_name_length, 4);
    assert_eq!(sample.thread_id, 77);
    assert_eq!(sample.sample_timestamp, time);
}

#[test]
fn names_of_every_admitted_length() {
    let name: [u8; 16] = *b"abcdefghijklmnop";
    for length in 0..=MAX_THREAD_NAME {
        let sample =
            UnresolvedFrames::new(stack(&[]), &name[..length], 0, SystemTime::UNIX_EPOCH);
        assert_eq!(sample.thread_name_length, length);
        assert_eq!(sample.thread_name[..length], name[..length]);
        assert!(sample.thread_name[length..].iter().all(|byte| *byte == 0));
    }
}

#[test]
fn stacks_of_any_depth_keep_their_frames() {
    for depth in [0, 1, MAX_DEPTH, MAX_DEPTH + 1, 1000] {
        let expected: Vec<u64> = (0..depth as u64).collect();
        assert_eq!(addresses(&sample(&expected, 1)), expected);
    }
}

#[test]
fn equality_is_by_thread_and_functions() {
    assert!(sample(&[1, 2], 1) == sample(&[1, 2], 1));
    assert!(sample(&[1, 2], 1) != sample(&[1, 2], 2));
    assert!(sample(&[1, 2], 1) != sample(&[1, 3], 1));
    assert!(sample(&[1, 2], 1) != sample(&[2, 1], 1));
    assert!(sample(&[1, 2], 1) != sample(&[1], 1));
    assert!(sample(&[1, 2], 1) != sample(&[1, 2, 3], 1));
    assert!(sample(&[], 1) == sample(&[], 1));
    // a thread is not mistaken for a frame
    assert!(sample(&[1], 2) != sample(&[1, 2], 2));
}

#[test]
fn equality_ignores_name_time_and_instruction() {
    let a = sample(&[1, 2], 9);
    let time = SystemTime::UNIX_EPOCH + Duration::from_secs(1);
    let b = UnresolvedFrames::new(stack(&[1, 2]), b"other", 9, time);
    assert!(a == b);
    let moved =
        FrameStack::from_frames(&[Frame { ip: 100, address: 1 }, Frame { ip: 200, address: 2 }]);
    let c = UnresolvedFrames::new(moved, b"worker", 9, SystemTime::UNIX_EPOCH);
    assert!(a == c && c == b);
    assert!(a.is_same(&c));
    assert_eq!(a.hash_key(), c.hash_key());
    assert_eq!(std_hash(&a), std_hash(&c));
}

#[test]
fn hash_is_fed_the_addresses_then_the_thread() {
    let mut hasher = DefaultHasher::new();
    for word in [11u64, 12, 13, 5] {
        hasher.write_u64(word);
    }
    assert_eq!(std_hash(&sample(&[11, 12, 13], 5)), hasher.finish());
    assert_ne!(std_hash(&sample(&[11, 12, 13], 5)), std_hash(&sample(&[13, 12, 11], 5)));
    assert_ne!(std_hash(&sample(&[11, 12, 13], 5)), std_hash(&sample(&[11, 12, 13], 6)));
}

/// A hasher that records the words that it is given.
#[derive(Default)]
struct Recorder {
    words: Vec<u64>,
    others: usize,
}

impl Hasher for Recorder {
    fn finish(&self) -> u64 {
        self.words.len() as u64
    }

    fn write(&mut self, _bytes: &[u8]) {
        self.others += 1;
    }

    fn write_u64(&mut self, word: u64) {
        self.words.push(word);
    }
}

fn recorded(sample: &UnresolvedFrames) -> Vec<u64> {
    let mut recorder = Recorder::default();
    sample.hash(&mut recorder);
    assert_eq!(recorder.others, 0);
    recorder.words
}

#[test]
fn hasher_is_given_nothing_but_addresses_and_thread() {
    assert_eq!(recorded(&sample(&[11, 12, 13], 5)), [11, 12, 13, 5]);
    // equal samples are fed alike, whatever their names and times
    let time = SystemTime::UNIX_EPOCH + Duration::from_secs(1);
    let other = UnresolvedFrames::new(stack(&[11, 12, 13]), b"other", 5, time);
    assert_eq!(recorded(&other), [11, 12, 13, 5]);
    // the thread is the last word
    assert_eq!(recorded(&sample(&[11, 12, 13], 6)), [11, 12, 13, 6]);
}

#[test]
fn sample_without_frames_feeds_its_thread_only() {
    let sample = UnresolvedFrames::new(stack(&[]), b"main", 7, SystemTime::UNIX_EPOCH);
    assert_eq!(recorded(&sample), [7]);
}

#[test]
fn feed_writes_the_words_in_order() {
    let mut words: Vec<u64> = Vec::new();
    sample(&[3, 1, 2], 9).feed(&|words: &mut Vec<u64>, word: u64| words.push(word), &mut words);
    assert_eq!(words, [3, 1, 2, 9]);
}

#[test]
fn samples_can_be_members_of_a_set() {
    let mut set = HashSet::new();
    assert!(set.insert(sample(&[1, 2], 1)));
    assert!(!set.insert(sample(&[1, 2], 1)));
    assert!(set.insert(sample(&[1, 2], 2)));
    assert_eq!(set.len(), 2);
}

#[test]
fn clone_keeps_everything() {
    let time = SystemTime::UNIX_EPOCH + Duration::from_secs(5);
    let sample = UnresolvedFrames::new(stack(&[10, 20]), b"main", 77, time);
    let copy = sample.clone();
    assert!(copy == sample);
    assert_eq!(addresses(&copy), [10, 20]);
    assert_eq!(copy.frames.as_frames()[0].ip, 13);
    assert_eq!(copy.thread_name, sample.thread_name);
    assert_eq!(copy.thread_name_length, 4);
    assert_eq!(copy.thread_id, 77);
    assert_eq!(copy.sample_timestamp, time);
}
