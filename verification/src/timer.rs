//! When, how often and for how long samples were taken.

use std::time::{Duration, SystemTime};
use vstd::prelude::*;

verus! {

/// Collection frequency, start time and duration of a report.
#[derive(Clone, Copy, Debug)]
pub struct ReportTiming {
    /// How often samples were taken, per second.
    pub frequency: i32,
    /// When the collection started.
    pub start_time: SystemTime,
    /// How long it took.
    pub duration: Duration,
}

} // verus!
