# pprof

The verified core of a sampling CPU profiler, written in Verus.

- `src/` is the library. Verus proves the contracts of its functions,
  except for those of `src/external.rs`, which state what the library
  expects of other crates and of the standard library.
  - `frames.rs`: samples, and when two of them are equal
  - `hash_counter.rs`, `temp_fd_array.rs`, `collector.rs`: counting of samples in
    a table of fixed size, with what the table has no room for in a file
  - `counting_up.rs`: collectors without negative counts
  - `counts.rs`: how often each stack was sampled
  - `report.rs`: building a report and resetting the profiler
  - `criterion.rs`: which profiler runs during a benchmark
  - `key.rs`, `tally.rs`: what can be counted, and sums of counts
- `tests/` runs the library.
- `app/` is ordinary Rust around it: the file system, the log, and the traits of
  other crates.

The laws of the library are the public proof functions whose names start with
`law_`.

The collector's file is not part of the library. A collector hands out the blocks
that are to be appended to it, and a report takes the file with a function that
reads it and one that truncates it.
