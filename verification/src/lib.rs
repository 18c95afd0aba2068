//! The verified core of a sampling CPU profiler.
//!
//! A sample is a call stack with the thread that ran it
//! ([`UnresolvedFrames`]). Samples are counted in a [`Collector`], which keeps
//! the counts of recent stacks in memory and hands the others out in blocks to
//! be stored elsewhere. A [`ReportBuilder`] turns what was collected into an
//! [`UnresolvedReport`] and empties the collector.

pub mod backtrace;
pub mod collector;
pub mod counting_laws;
pub mod counting_up;
pub mod counts;
pub mod criterion;
pub mod error;
pub mod external;
pub mod frames;
pub mod hash_counter;
pub mod key;
pub mod laws;
pub mod profiler;
pub mod report;
pub mod report_laws;
pub mod tally;
pub mod temp_fd_array;
pub mod timer;

use vstd::prelude::*;

pub use crate::collector::{Collector, Entry, HashCounter, TempFdArray};
pub use crate::error::Error;
pub use crate::frames::UnresolvedFrames;
pub use crate::profiler::Profiler;
pub use crate::report::{ReportBuilder, UnresolvedReport};

verus! {

/// Stacks up to this depth are stored without a heap allocation.
pub const MAX_DEPTH: usize = 128;

/// The room for a thread's name, in bytes.
pub const MAX_THREAD_NAME: usize = 16;

} // verus!
