use pprof::criterion::{Output, PProfProfiler};

#[test]
fn protobuf_profiles_have_their_file() {
    assert_eq!(Output::Protobuf.filename(), "profile.pb");
}

#[test]
fn profiler_of_a_benchmark_is_handed_back_once() {
    let mut profiler = PProfProfiler::new(99, Output::Protobuf);
    assert_eq!(profiler.frequency(), 99);
    assert_eq!(profiler.output(), Output::Protobuf);
    profiler.start_profiling("first");
    assert_eq!(profiler.stop_profiling(), Some("first"));
    assert_eq!(profiler.stop_profiling(), None);
    assert_eq!(profiler.frequency(), 99);
}

#[test]
fn later_profiler_takes_the_place_of_an_earlier_one() {
    let mut profiler = PProfProfiler::new(-1, Output::Protobuf);
    profiler.start_profiling(1u8);
    profiler.start_profiling(2u8);
    assert_eq!(profiler.stop_profiling(), Some(2));
    assert_eq!(profiler.frequency(), -1);
}

#[test]
fn file_is_named_even_without_a_profiler() {
    let mut profiler: PProfProfiler<u8> = PProfProfiler::new(1, Output::Protobuf);
    assert_eq!(profiler.filename(), "profile.pb");
    assert_eq!(profiler.stop_profiling(), None);
    assert_eq!(profiler.filename(), "profile.pb");
}
