//! A sample: the call stack of a thread at one moment, not yet resolved to the
//! names of functions.

use crate::backtrace::Frame;
use crate::external::{
    hasher_write_u64, stack_as_slice, stack_clone, stack_from_slice, stack_with_capacity,
    FrameStack,
};
use crate::key::{
    digest_of, fed, feed_word, lemma_fed_deterministic, lemma_fed_nothing, lemma_fed_push,
    lemma_fed_written, words_written, write_word, CounterKey,
};
use crate::{MAX_DEPTH, MAX_THREAD_NAME};
use std::collections::hash_map::DefaultHasher;
use std::hash::{Hash, Hasher};
use std::time::SystemTime;
use vstd::prelude::*;
use vstd::std_specs::cmp::PartialEqSpec;

verus! {

impl FrameStack {
    /// A stack of the given frames.
    pub fn from_frames(frames: &[Frame]) -> (stack: Self)
        ensures
            stack@ == frames@,
    {
        stack_from_slice(frames)
    }

    /// The frames of the stack.
    pub fn as_frames(&self) -> (frames: &[Frame])
        ensures
            frames@ == self@,
    {
        stack_as_slice(self)
    }
}

/// The call stack of a thread at one moment.
pub struct UnresolvedFrames {
    /// The frames of the stack.
    pub frames: FrameStack,
    /// The name of the thread, padded with zeroes.
    pub thread_name: [u8; MAX_THREAD_NAME],
    /// The number of bytes of `thread_name` that are the name.
    pub thread_name_length: usize,
    /// The thread's identifier.
    pub thread_id: u64,
    /// When the sample was taken.
    pub sample_timestamp: SystemTime,
}

/// The addresses of the functions that the frames belong to.
pub open spec fn symbol_addresses(frames: Seq<Frame>) -> Seq<u64> {
    frames.map_values(|frame: Frame| frame.address)
}

impl UnresolvedFrames {
    /// The addresses of the functions on the stack.
    pub open spec fn addresses(&self) -> Seq<u64> {
        symbol_addresses(self.frames@)
    }

    /// What a sample is hashed by: the addresses of the functions on the stack,
    /// then the thread's identifier.
    pub open spec fn hash_input(&self) -> Seq<u64> {
        self.addresses().push(self.thread_id)
    }

    /// The thread's name.
    pub open spec fn name(&self) -> Seq<u8> {
        self.thread_name@.take(self.thread_name_length as int)
    }

    /// Whether the two samples agree in everything that they hold.
    pub open spec fn is_copy_of(&self, other: &Self) -> bool {
        &&& self.frames@ == other.frames@
        &&& self.thread_name == other.thread_name
        &&& self.thread_name_length == other.thread_name_length
        &&& self.thread_id == other.thread_id
        &&& self.sample_timestamp == other.sample_timestamp
    }

    /// A sample of the thread `thread_id`, whose name is `tn`.
    pub fn new(
        frames: FrameStack,
        tn: &[u8],
        thread_id: u64,
        sample_timestamp: SystemTime,
    ) -> (sample: Self)
        requires
            tn@.len() <= MAX_THREAD_NAME,
        ensures
            sample.frames == frames,
            sample.thread_name_length == tn@.len(),
            sample.name() == tn@,
            forall|i: int|
                0 <= i < tn@.len() ==> #[trigger] sample.thread_name@[i] == tn@[i],
            forall|i: int|
                tn@.len() <= i < MAX_THREAD_NAME ==> #[trigger] sample.thread_name@[i] == 0,
            sample.thread_id == thread_id,
            sample.sample_timestamp == sample_timestamp,
    {
        let thread_name_length: usize = tn.len();
        let mut thread_name: [u8; MAX_THREAD_NAME] = [0;MAX_THREAD_NAME];
        let mut i: usize = 0;
        while i < thread_name_length
            invariant
                i <= thread_name_length == tn@.len() <= MAX_THREAD_NAME,
                forall|j: int| 0 <= j < i ==> #[trigger] thread_name@[j] == tn@[j],
                forall|j: int| i <= j < MAX_THREAD_NAME ==> #[trigger] thread_name@[j] == 0,
            decreases thread_name_length - i,
        {
            thread_name[i] = tn[i];
            i += 1;
        }
        assert(thread_name@.take(thread_name_length as int) =~= tn@);
        UnresolvedFrames { frames, thread_name, thread_name_length, thread_id, sample_timestamp }
    }

    /// Gives a hasher what the sample is hashed by, word by word, by way of
    /// `write`.
    pub fn feed<H, F: Fn(&mut H, u64)>(&self, write: &F, state: &mut H)
        requires
            forall|hasher: &mut H, word: u64| #[trigger] call_requires(*write, (hasher, word)),
        ensures
            fed(
                |before: H, word: u64, after: H|
                    exists|hasher: &mut H|
                        {
                            &&& *hasher == before
                            &&& *final(hasher) == after
                            &&& #[trigger] call_ensures(*write, (hasher, word), ())
                        },
                self.hash_input(),
                *old(state),
                *final(state),
            ),
    {
        let frames: &[Frame] = stack_as_slice(&self.frames);
        let ghost step = |before: H, word: u64, after: H|
            exists|hasher: &mut H|
                {
                    &&& *hasher == before
                    &&& *final(hasher) == after
                    &&& #[trigger] call_ensures(*write, (hasher, word), ())
                };
        let ghost start = *state;
        let mut i: usize = 0;
        proof {
            lemma_fed_nothing(step, start, start);
            assert(self.addresses().take(0) =~= Seq::empty());
        }
        while i < frames.len()
            invariant
                i <= frames@.len(),
                frames@ == self.frames@,
                forall|hasher: &mut H, word: u64| #[trigger]
                    call_requires(*write, (hasher, word)),
                step == (|before: H, word: u64, after: H|
                    exists|hasher: &mut H|
                        {
                            &&& *hasher == before
                            &&& *final(hasher) == after
                            &&& #[trigger] call_ensures(*write, (hasher, word), ())
                        }),
                fed(step, self.addresses().take(i as int), start, *state),
            decreases frames@.len() - i,
        {
            let address: u64 = frames[i].symbol_address();
            let ghost middle = *state;
            feed_word(write, state, address);
            proof {
                let words = self.addresses().take(i as int);
                assert(step(middle, address, *state));
                lemma_fed_push(step, words, start, address, *state);
                assert(words.push(address) =~= self.addresses().take(i + 1));
            }
            i += 1;
        }
        let ghost middle = *state;
        feed_word(write, state, self.thread_id);
        proof {
            assert(self.addresses().take(i as int) =~= self.addresses());
            assert(step(middle, self.thread_id, *state));
            lemma_fed_push(step, self.addresses(), start, self.thread_id, *state);
        }
    }

    /// Tells whether the same thread was in the same functions.
    fn is_same_stack(&self, other: &Self) -> (result: bool)
        ensures
            result == (self.thread_id == other.thread_id && self.addresses() == other.addresses()),
    {
        let frames1: &[Frame] = stack_as_slice(&self.frames);
        let frames2: &[Frame] = stack_as_slice(&other.frames);
        if self.thread_id != other.thread_id || frames1.len() != frames2.len() {
            proof {
                if self.addresses() == other.addresses() {
                    assert(self.addresses().len() == other.addresses().len());
                }
            }
            return false;
        }
        let mut i: usize = 0;
        while i < frames1.len()
            invariant
                i <= frames1@.len() == frames2@.len(),
                frames1@ == self.frames@,
                frames2@ == other.frames@,
                forall|j: int|
                    0 <= j < i ==> #[trigger] self.addresses()[j] == other.addresses()[j],
            decreases frames1@.len() - i,
        {
            if frames1[i].symbol_address() != frames2[i].symbol_address() {
                assert(self.addresses()[i as int] != other.addresses()[i as int]);
                return false;
            }
            i += 1;
        }
        assert(self.addresses() =~= other.addresses());
        true
    }
}

impl Default for UnresolvedFrames {
    /// A sample without frames, of an unnamed thread, taken now: its time is an
    /// outcome of asking the system's clock.
    fn default() -> (sample: Self)
        ensures
            sample.frames@ == Seq::<Frame>::empty(),
            sample.thread_name@ == Seq::new(MAX_THREAD_NAME as nat, |i: int| 0u8),
            sample.thread_name_length == 0,
            sample.thread_id == 0,
            call_ensures(SystemTime::now, (), sample.sample_timestamp),
    {
        let frames: FrameStack = stack_with_capacity(MAX_DEPTH);
        let thread_name: [u8; MAX_THREAD_NAME] = [0;MAX_THREAD_NAME];
        assert(thread_name@ =~= Seq::new(MAX_THREAD_NAME as nat, |i: int| 0u8));
        UnresolvedFrames {
            frames,
            thread_name,
            thread_name_length: 0,
            thread_id: 0,
            sample_timestamp: SystemTime::now(),
        }
    }
}

impl Clone for UnresolvedFrames {
    fn clone(&self) -> (copy: Self)
        ensures
            copy.is_copy_of(self),
    {
        UnresolvedFrames {
            frames: stack_clone(&self.frames),
            thread_name: self.thread_name,
            thread_name_length: self.thread_name_length,
            thread_id: self.thread_id,
            sample_timestamp: self.sample_timestamp,
        }
    }
}

impl PartialEq for UnresolvedFrames {
    /// Samples are equal when the same thread was in the same functions. The
    /// thread's name, the time, and where in a function a frame was, do not
    /// matter.
    fn eq(&self, other: &Self) -> (result: bool) {
        self.is_same_stack(other)
    }
}

impl vstd::std_specs::cmp::PartialEqSpecImpl for UnresolvedFrames {
    open spec fn obeys_eq_spec() -> bool {
        true
    }

    open spec fn eq_spec(&self, other: &Self) -> bool {
        self.thread_id == other.thread_id && self.addresses() == other.addresses()
    }
}

impl Eq for UnresolvedFrames {

}

impl Hash for UnresolvedFrames {
    /// Feeds the hasher the addresses of the functions on the stack, then the
    /// thread's identifier, and nothing else.
    fn hash<H: Hasher>(&self, state: &mut H)
        ensures
            fed(
                |before: H, word: u64, after: H|
                    exists|hasher: &mut H|
                        {
                            &&& *hasher == before
                            &&& *final(hasher) == after
                            &&& #[trigger] call_ensures(
                                hasher_write_u64::<H>,
                                (hasher, word),
                                (),
                            )
                        },
                self.hash_input(),
                *old(state),
                *final(state),
            ),
    {
        self.feed(&hasher_write_u64::<H>, state)
    }
}

impl CounterKey for UnresolvedFrames {
    open spec fn same(&self, other: &Self) -> bool {
        self.thread_id == other.thread_id && self.addresses() == other.addresses()
    }

    open spec fn digest(&self) -> u64 {
        digest_of(self.hash_input())
    }

    proof fn law_same_reflexive(&self) {
    }

    proof fn law_same_symmetric(&self, other: &Self) {
    }

    proof fn law_same_transitive(&self, middle: &Self, other: &Self) {
    }

    proof fn law_same_digest(&self, other: &Self) {
    }

    fn is_same(&self, other: &Self) -> (result: bool) {
        self.is_same_stack(other)
    }

    fn hash_key(&self) -> (hash: u64) {
        let mut hasher = DefaultHasher::new();
        let ghost start = hasher;
        self.feed(&write_word, &mut hasher);
        proof {
            lemma_fed_written(
                |before: DefaultHasher, word: u64, after: DefaultHasher|
                    exists|hasher: &mut DefaultHasher|
                        {
                            &&& *hasher == before
                            &&& *final(hasher) == after
                            &&& #[trigger] call_ensures(write_word, (hasher, word), ())
                        },
                self.hash_input(),
                start,
                hasher,
            );
            assert(hasher@ =~= words_written(self.hash_input()));
        }
        hasher.finish()
    }
}

/// Samples are equal if and only if they are of the same thread, their stacks
/// have the same depth, and the frames at the same depth are of the same
/// function. The name of the thread, the time, and where in its function a frame
/// was, do not matter.
pub proof fn law_equality(a: UnresolvedFrames, b: UnresolvedFrames)
    ensures
        a.eq_spec(&b) <==> {
            &&& a.thread_id == b.thread_id
            &&& a.frames@.len() == b.frames@.len()
            &&& forall|i: int|
                0 <= i < a.frames@.len() ==> (#[trigger] a.frames@[i]).address
                    == b.frames@[i].address
        },
{
    if a.eq_spec(&b) {
        assert(a.addresses().len() == b.addresses().len());
        assert forall|i: int| 0 <= i < a.frames@.len() implies (
        #[trigger] a.frames@[i]).address == b.frames@[i].address by {
            assert(a.addresses()[i] == b.addresses()[i]);
        }
    } else if a.frames@.len() == b.frames@.len() && forall|i: int|
        0 <= i < a.frames@.len() ==> (#[trigger] a.frames@[i]).address == b.frames@[i].address {
        assert(a.addresses() =~= b.addresses());
    }
}

/// Equality of samples is an equivalence relation.
pub proof fn law_equality_is_an_equivalence(
    a: UnresolvedFrames,
    b: UnresolvedFrames,
    c: UnresolvedFrames,
)
    ensures
        a.eq_spec(&a),
        a.eq_spec(&b) ==> b.eq_spec(&a),
        a.eq_spec(&b) && b.eq_spec(&c) ==> a.eq_spec(&c),
{
}

/// Equal samples are hashed by the same words, and are counted together.
pub proof fn law_equal_samples_hash_alike(a: UnresolvedFrames, b: UnresolvedFrames)
    requires
        a.eq_spec(&b),
    ensures
        a.hash_input() == b.hash_input(),
        a.digest() == b.digest(),
        a.same(&b),
{
}

/// Equal samples are fed alike: what feeding one of them makes of a hasher,
/// whatever the hasher makes of a word, feeding the other makes of it too. If the
/// hasher makes one thing only of a word, then two hashers that were in the same
/// state are in the same state again.
pub proof fn law_equal_samples_feed_alike<H>(
    a: UnresolvedFrames,
    b: UnresolvedFrames,
    step: spec_fn(H, u64, H) -> bool,
    before: H,
    after_a: H,
    after_b: H,
)
    requires
        a.eq_spec(&b),
        fed(step, a.hash_input(), before, after_a),
        fed(step, b.hash_input(), before, after_b),
    ensures
        fed(step, b.hash_input(), before, after_a),
        fed(step, a.hash_input(), before, after_b),
        (forall|state: H, word: u64, next1: H, next2: H|
            #[trigger] step(state, word, next1) && #[trigger] step(state, word, next2) ==> next1
                == next2) ==> after_a == after_b,
{
    if forall|state: H, word: u64, next1: H, next2: H|
        #[trigger] step(state, word, next1) && #[trigger] step(state, word, next2) ==> next1
            == next2 {
        lemma_fed_deterministic(step, a.hash_input(), before, after_a, after_b);
    }
}

/// The thread's identifier is fed last, after the addresses of all functions on
/// the stack: what feeding a sample makes of a hasher is what the identifier
/// makes of one that was fed the addresses.
pub proof fn law_thread_is_fed_last<H>(
    sample: UnresolvedFrames,
    step: spec_fn(H, u64, H) -> bool,
    before: H,
    after: H,
)
    ensures
        fed(step, sample.hash_input(), before, after) <==> exists|middle: H|
            #[trigger] fed(step, sample.addresses(), before, middle) && step(
                middle,
                sample.thread_id,
                after,
            ),
{
    lemma_fed_push(step, sample.addresses(), before, sample.thread_id, after);
}

/// Of a sample without frames, the thread's identifier is all that is fed.
pub proof fn law_sample_without_frames_feeds_its_thread<H>(
    sample: UnresolvedFrames,
    step: spec_fn(H, u64, H) -> bool,
    before: H,
    after: H,
)
    requires
        sample.frames@.len() == 0,
    ensures
        sample.hash_input() == seq![sample.thread_id],
        fed(step, sample.hash_input(), before, after) <==> step(before, sample.thread_id, after),
{
    assert(sample.addresses() =~= Seq::empty());
    assert(sample.hash_input() =~= seq![sample.thread_id]);
    lemma_fed_push(step, sample.addresses(), before, sample.thread_id, after);
    lemma_fed_nothing(step, before, before);
    assert forall|middle: H| #[trigger]
        fed(step, sample.addresses(), before, middle) implies middle == before by {
        lemma_fed_nothing(step, before, middle);
    }
}

/// Samples are counted together if and only if they are equal: if they are of the
/// same thread, their stacks have the same depth, and the frames at the same depth
/// are of the same function.
pub proof fn law_equal_samples_are_counted_together(a: UnresolvedFrames, b: UnresolvedFrames)
    ensures
        a.same(&b) <==> a.eq_spec(&b),
        a.same(&b) <==> {
            &&& a.thread_id == b.thread_id
            &&& a.frames@.len() == b.frames@.len()
            &&& forall|i: int|
                0 <= i < a.frames@.len() ==> (#[trigger] a.frames@[i]).address
                    == b.frames@[i].address
        },
{
    law_equality(a, b);
}

/// The thread's name is what the first bytes of its room hold, one for one.
pub proof fn law_name_is_what_is_held(sample: UnresolvedFrames)
    requires
        sample.thread_name_length <= MAX_THREAD_NAME,
    ensures
        sample.name().len() == sample.thread_name_length,
        forall|i: int|
            0 <= i < sample.thread_name_length ==> #[trigger] sample.name()[i]
                == sample.thread_name@[i],
{
}

/// A clone of a sample is equal to it.
pub proof fn law_copy_is_equal(copy: UnresolvedFrames, sample: UnresolvedFrames)
    requires
        copy.is_copy_of(&sample),
    ensures
        copy.eq_spec(&sample),
{
}

} // verus!
