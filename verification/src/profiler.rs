//! A running profiler.

use crate::collector::{Collector, Entry};
use crate::frames::UnresolvedFrames;
use vstd::prelude::*;

verus! {

/// A running profiler, with the samples that it has taken.
pub struct Profiler {
    /// The samples, counted.
    pub data: Collector<UnresolvedFrames>,
}

impl Profiler {
    /// A profiler that has taken no samples.
    pub fn new() -> (profiler: Self)
        ensures
            profiler.data.wf(),
            profiler.data.is_empty(),
    {
        Profiler { data: Collector::new() }
    }

    /// Forgets all samples.
    pub fn clear(&mut self)
        ensures
            final(self).data.wf(),
            final(self).data.is_empty(),
            final(self).data.entries() == Seq::<Entry<UnresolvedFrames>>::empty(),
    {
        self.data.clear();
    }
}

} // verus!
