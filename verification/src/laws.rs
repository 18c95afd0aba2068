//! What the functions of the library do, in terms of what goes into them and what
//! comes out. The laws in this file rest on the contracts of the functions: a
//! premise `call_ensures(f, arguments, result)` says that `result` is what a call
//! of `f` with `arguments` may return.

use crate::backtrace::Frame;
use crate::criterion::{Output, PProfProfiler};
use crate::external::FrameStack;
use crate::frames::{law_equal_samples_are_counted_together, law_equality, UnresolvedFrames};
use crate::key::{fed, is_chain, CounterKey};
use crate::MAX_THREAD_NAME;
use std::time::SystemTime;
use vstd::prelude::*;

verus! {

/// A new sample holds what it was given: the frames, the bytes of the thread's name
/// with zeroes behind them, their number, the thread's identifier and the time.
pub proof fn law_new_sample(
    frames: FrameStack,
    tn: &[u8],
    thread_id: u64,
    sample_timestamp: SystemTime,
    sample: UnresolvedFrames,
)
    requires
        tn@.len() <= MAX_THREAD_NAME,
        call_ensures(UnresolvedFrames::new, (frames, tn, thread_id, sample_timestamp), sample),
    ensures
        sample.frames@ == frames@,
        sample.thread_name_length == tn@.len(),
        sample.thread_name@.len() == 16,
        forall|i: int| 0 <= i < 16 ==> #[trigger] sample.thread_name@[i] == if i < tn@.len() {
            tn@[i]
        } else {
            0
        },
        sample.thread_id == thread_id,
        sample.sample_timestamp == sample_timestamp,
{
}

/// A sample can be made of any frames, thread and time, with any name that there is room
/// for, and samples can be compared and hashed whatever they hold.
pub proof fn law_samples_can_be_made(
    frames: FrameStack,
    tn: &[u8],
    thread_id: u64,
    sample_timestamp: SystemTime,
    a: UnresolvedFrames,
    b: UnresolvedFrames,
)
    ensures
        tn@.len() <= 16 ==> call_requires(
            UnresolvedFrames::new,
            (frames, tn, thread_id, sample_timestamp),
        ),
        call_requires(<UnresolvedFrames as PartialEq>::eq, (&a, &b)),
        call_requires(<UnresolvedFrames as Clone>::clone, (&a,)),
        call_requires(<UnresolvedFrames as Default>::default, ()),
        call_requires(<UnresolvedFrames as CounterKey>::is_same, (&a, &b)),
        call_requires(<UnresolvedFrames as CounterKey>::hash_key, (&a,)),
{
}

/// A default sample has no frames, no name and the thread identifier 0, and its time
/// is an outcome of asking the system's clock.
pub proof fn law_default_sample(sample: UnresolvedFrames)
    requires
        call_ensures(<UnresolvedFrames as Default>::default, (), sample),
    ensures
        sample.frames@.len() == 0,
        sample.thread_name@.len() == 16,
        forall|i: int| 0 <= i < 16 ==> #[trigger] sample.thread_name@[i] == 0,
        sample.thread_name_length == 0,
        sample.thread_id == 0,
        call_ensures(SystemTime::now, (), sample.sample_timestamp),
{
}

/// A clone holds what the sample holds, frame by frame and byte by byte.
pub proof fn law_clone_holds_the_same(sample: UnresolvedFrames, copy: UnresolvedFrames)
    requires
        call_ensures(<UnresolvedFrames as Clone>::clone, (&sample,), copy),
    ensures
        copy.frames@.len() == sample.frames@.len(),
        forall|i: int|
            0 <= i < sample.frames@.len() ==> {
                &&& (#[trigger] copy.frames@[i]).ip == sample.frames@[i].ip
                &&& copy.frames@[i].address == sample.frames@[i].address
            },
        forall|i: int|
            0 <= i < 16 ==> #[trigger] copy.thread_name@[i] == sample.thread_name@[i],
        copy.thread_name_length == sample.thread_name_length,
        copy.thread_id == sample.thread_id,
        copy.sample_timestamp == sample.sample_timestamp,
{
}

/// A stack gives back the frames that it was made of, in order, and a frame the
/// address of its function.
pub proof fn law_stack_gives_back_its_frames(
    frames: &[Frame],
    stack: FrameStack,
    back: &[Frame],
    i: int,
    address: u64,
)
    requires
        call_ensures(FrameStack::from_frames, (frames,), stack),
        call_ensures(FrameStack::as_frames, (&stack,), back),
        0 <= i < back@.len(),
        call_ensures(Frame::symbol_address, (&back@[i],), address),
    ensures
        back@ == frames@,
        stack@ == frames@,
        address == frames@[i].address,
{
}

/// `==` on samples, and whether they are counted together, is whether they are of
/// the same thread, as deep, and of the same function at every depth. The hash that
/// they are counted by is then the same, too.
pub proof fn law_equality_and_counting_agree(
    a: UnresolvedFrames,
    b: UnresolvedFrames,
    equal: bool,
    together: bool,
    hash_a: u64,
    hash_b: u64,
)
    requires
        call_ensures(<UnresolvedFrames as PartialEq>::eq, (&a, &b), equal),
        call_ensures(<UnresolvedFrames as CounterKey>::is_same, (&a, &b), together),
        call_ensures(<UnresolvedFrames as CounterKey>::hash_key, (&a,), hash_a),
        call_ensures(<UnresolvedFrames as CounterKey>::hash_key, (&b,), hash_b),
    ensures
        equal == {
            &&& a.thread_id == b.thread_id
            &&& a.frames@.len() == b.frames@.len()
            &&& forall|i: int|
                0 <= i < a.frames@.len() ==> (#[trigger] a.frames@[i]).address
                    == b.frames@[i].address
        },
        together == equal,
        equal ==> hash_a == hash_b,
{
    law_equality(a, b);
    law_equal_samples_are_counted_together(a, b);
}

/// Numbers are counted together if and only if they are equal.
pub proof fn law_equal_numbers_are_counted_together(a: usize, b: usize, together: bool)
    requires
        call_ensures(<usize as CounterKey>::is_same, (&a, &b), together),
    ensures
        together == (a == b),
        a.same(&b) == (a == b),
{
}

/// What a sample is hashed by: a hasher goes from state to state with the address of
/// the function of each frame, in order, and with the thread's identifier last.
pub proof fn law_hash_takes_every_frame_and_the_thread<H>(
    sample: UnresolvedFrames,
    step: spec_fn(H, u64, H) -> bool,
    before: H,
    after: H,
)
    requires
        fed(step, sample.hash_input(), before, after),
    ensures
        exists|states: Seq<H>|
            #![trigger states.len()]
            {
                &&& states.len() == sample.frames@.len() + 2
                &&& states.first() == before
                &&& states.last() == after
                &&& forall|i: int|
                    0 <= i < sample.frames@.len() ==> step(
                        states[i],
                        (#[trigger] sample.frames@[i]).address,
                        states[i + 1],
                    )
                &&& step(
                    states[sample.frames@.len() as int],
                    sample.thread_id,
                    states.last(),
                )
            },
{
    let words = sample.hash_input();
    let depth = sample.frames@.len() as int;
    let states = choose|states: Seq<H>|
        {
            &&& #[trigger] is_chain(step, words, states)
            &&& states.first() == before
            &&& states.last() == after
        };
    assert forall|i: int| 0 <= i < depth implies step(
        states[i],
        (#[trigger] sample.frames@[i]).address,
        states[i + 1],
    ) by {
        assert(words[i] == sample.frames@[i].address);
    }
    assert(words[depth] == sample.thread_id);
    assert(states.len() == depth + 2);
}

/// A sample feeds a hasher, by way of `write`, the address of the function of each
/// frame, in order, and the thread's identifier last. `step` tells what a call of
/// `write` can make of a hasher.
pub proof fn law_feed_takes_every_frame_and_the_thread<H, F: Fn(&mut H, u64)>(
    sample: UnresolvedFrames,
    write: F,
    step: spec_fn(H, u64, H) -> bool,
    before: H,
    after: H,
)
    requires
        forall|state: H, word: u64, next: H| #[trigger]
            step(state, word, next) == exists|hasher: &mut H|
                {
                    &&& *hasher == state
                    &&& *final(hasher) == next
                    &&& #[trigger] call_ensures(write, (hasher, word), ())
                },
        exists|state: &mut H|
            {
                &&& *state == before
                &&& *final(state) == after
                &&& #[trigger] call_ensures(
                    UnresolvedFrames::feed::<H, F>,
                    (&sample, &write, state),
                    (),
                )
            },
    ensures
        exists|states: Seq<H>|
            #![trigger states.len()]
            {
                &&& states.len() == sample.frames@.len() + 2
                &&& states.first() == before
                &&& states.last() == after
                &&& forall|i: int|
                    0 <= i < sample.frames@.len() ==> step(
                        states[i],
                        (#[trigger] sample.frames@[i]).address,
                        states[i + 1],
                    )
                &&& step(
                    states[sample.frames@.len() as int],
                    sample.thread_id,
                    states.last(),
                )
            },
{
    let called = |before: H, word: u64, after: H|
        exists|hasher: &mut H|
            {
                &&& *hasher == before
                &&& *final(hasher) == after
                &&& #[trigger] call_ensures(write, (hasher, word), ())
            };
    assert(called =~= step);
    law_hash_takes_every_frame_and_the_thread(sample, step, before, after);
}

/// A profiler of benchmarks gives back the frequency and the format that it was made
/// with; its profiles go to `profile.pb`. As long as none was started, it has no
/// profiler to write a profile of.
pub proof fn law_settings_come_back<G>(
    frequency: i32,
    output: Output,
    profiler: PProfProfiler<G>,
    frequency_back: i32,
    output_back: Output,
    name: &'static str,
    after: PProfProfiler<G>,
    stopped: Option<G>,
)
    requires
        call_ensures(PProfProfiler::<G>::new, (frequency, output), profiler),
        call_ensures(PProfProfiler::<G>::frequency, (&profiler,), frequency_back),
        call_ensures(PProfProfiler::<G>::output, (&profiler,), output_back),
        call_ensures(PProfProfiler::<G>::filename, (&profiler,), name),
        exists|p: &mut PProfProfiler<G>|
            {
                &&& *p == profiler
                &&& *final(p) == after
                &&& #[trigger] call_ensures(PProfProfiler::<G>::stop_profiling, (p,), stopped)
            },
    ensures
        frequency_back == frequency,
        output_back == output,
        name@ == seq!['p', 'r', 'o', 'f', 'i', 'l', 'e', '.', 'p', 'b'],
        stopped is None,
{
    reveal_strlit("profile.pb");
    assert("profile.pb"@ =~= seq!['p', 'r', 'o', 'f', 'i', 'l', 'e', '.', 'p', 'b']);
}

/// Starting and stopping change neither the frequency nor the format.
pub proof fn law_settings_stay<G>(
    before: PProfProfiler<G>,
    handle: G,
    stopped: Option<G>,
    after: PProfProfiler<G>,
    frequency: i32,
    output: Output,
    frequency_after: i32,
    output_after: Output,
)
    requires
        exists|p: &mut PProfProfiler<G>|
            {
                &&& *p == before
                &&& *final(p) == after
                &&& (#[trigger] call_ensures(PProfProfiler::<G>::start_profiling, (p, handle), ())
                    || #[trigger] call_ensures(PProfProfiler::<G>::stop_profiling, (p,), stopped))
            },
        call_ensures(PProfProfiler::<G>::frequency, (&before,), frequency),
        call_ensures(PProfProfiler::<G>::output, (&before,), output),
        call_ensures(PProfProfiler::<G>::frequency, (&after,), frequency_after),
        call_ensures(PProfProfiler::<G>::output, (&after,), output_after),
    ensures
        frequency_after == frequency,
        output_after == output,
{
}

/// Stopping hands back the profiler that was started last, whatever was running
/// before, and hands it back once.
pub proof fn law_stop_hands_back_what_was_started<G>(
    before: PProfProfiler<G>,
    handle: G,
    running: PProfProfiler<G>,
    first: Option<G>,
    idle: PProfProfiler<G>,
    second: Option<G>,
    later: PProfProfiler<G>,
)
    requires
        exists|p: &mut PProfProfiler<G>|
            {
                &&& *p == before
                &&& *final(p) == running
                &&& #[trigger] call_ensures(PProfProfiler::<G>::start_profiling, (p, handle), ())
            },
        exists|p: &mut PProfProfiler<G>|
            {
                &&& *p == running
                &&& *final(p) == idle
                &&& #[trigger] call_ensures(PProfProfiler::<G>::stop_profiling, (p,), first)
            },
        exists|p: &mut PProfProfiler<G>|
            {
                &&& *p == idle
                &&& *final(p) == later
                &&& #[trigger] call_ensures(PProfProfiler::<G>::stop_profiling, (p,), second)
            },
    ensures
        first == Some(handle),
        second is None,
{
}

} // verus!
