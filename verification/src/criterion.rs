//! Profiling of benchmarks: when a profiler runs, and where its profile goes.

use vstd::prelude::*;

verus! {

/// The format in which a profile is written.
#[derive(Clone, Copy, Debug, PartialEq, Eq, Structural)]
pub enum Output {
    /// The `pprof` format, which is a protobuf message.
    Protobuf,
}

/// The name of the file that holds a profile in the given format.
pub open spec fn filename_of(output: Output) -> Seq<char> {
    match output {
        Output::Protobuf => "profile.pb"@,
    }
}

impl Output {
    /// The name of the file that a profile is written to.
    pub fn filename(&self) -> (name: &'static str)
        ensures
            name@ == filename_of(*self),
    {
        match self {
            Output::Protobuf => "profile.pb",
        }
    }
}

/// Profiles benchmarks, one at a time. `G` is the handle of a running profiler.
pub struct PProfProfiler<G> {
    frequency: i32,
    output: Output,
    active_profiler: Option<G>,
}

impl<G> PProfProfiler<G> {
    /// How often a profiler is to take samples, per second.
    pub closed spec fn frequency_spec(&self) -> i32 {
        self.frequency
    }

    /// The format in which profiles are written.
    pub closed spec fn output_spec(&self) -> Output {
        self.output
    }

    /// The profiler that is running.
    pub closed spec fn active_spec(&self) -> Option<G> {
        self.active_profiler
    }

    /// Profiles with `frequency` samples per second, written as `output`. No
    /// profiler is running yet.
    pub fn new(frequency: i32, output: Output) -> (profiler: Self)
        ensures
            profiler.frequency_spec() == frequency,
            profiler.output_spec() == output,
            profiler.active_spec() is None,
    {
        PProfProfiler { frequency, output, active_profiler: None }
    }

    /// The frequency with which a profiler is to be started.
    pub fn frequency(&self) -> (frequency: i32)
        ensures
            frequency == self.frequency_spec(),
    {
        self.frequency
    }

    /// The format in which a profile is to be written.
    pub fn output(&self) -> (output: Output)
        ensures
            output == self.output_spec(),
    {
        self.output
    }

    /// The name of the file that the profile of a benchmark goes to.
    pub fn filename(&self) -> (name: &'static str)
        ensures
            name@ == filename_of(self.output_spec()),
    {
        self.output.filename()
    }

    /// Takes over the profiler that was started for a benchmark, in place of
    /// one that is still running.
    pub fn start_profiling(&mut self, profiler: G)
        ensures
            started(*old(self), profiler, *final(self)),
    {
        self.active_profiler = Some(profiler);
    }

    /// Hands back the profiler that was running, whose profile is to be written.
    /// No profiler is running afterwards.
    pub fn stop_profiling(&mut self) -> (profiler: Option<G>)
        ensures
            stopped(*old(self), *final(self), profiler),
    {
        self.active_profiler.take()
    }
}

/// What starting to profile a benchmark does: `profiler` is running.
pub open spec fn started<G>(
    before: PProfProfiler<G>,
    profiler: G,
    after: PProfProfiler<G>,
) -> bool {
    &&& after.active_spec() == Some(profiler)
    &&& after.frequency_spec() == before.frequency_spec()
    &&& after.output_spec() == before.output_spec()
}

/// What stopping to profile a benchmark does: the profiler that was running is
/// handed back, and none is running any more.
pub open spec fn stopped<G>(
    before: PProfProfiler<G>,
    after: PProfProfiler<G>,
    profiler: Option<G>,
) -> bool {
    &&& profiler == before.active_spec()
    &&& after.active_spec() is None
    &&& after.frequency_spec() == before.frequency_spec()
    &&& after.output_spec() == before.output_spec()
}

/// The profiler that is started for a benchmark is the one whose profile is
/// written when the benchmark stops; it is not written a second time.
pub proof fn law_profile_is_written_once<G>(
    idle: PProfProfiler<G>,
    profiler: G,
    running: PProfProfiler<G>,
    after: PProfProfiler<G>,
    first: Option<G>,
    later: PProfProfiler<G>,
    second: Option<G>,
)
    requires
        started(idle, profiler, running),
        stopped(running, after, first),
        stopped(after, later, second),
    ensures
        first == Some(profiler),
        second is None,
{
}

} // verus!
