//! What the library has from other crates and from parts of `std` that Verus
//! has no specification for. The contracts in this file are believed, not
//! proved.

use crate::backtrace::Frame;
use crate::error::Error;
use crate::profiler::Profiler;
use crate::MAX_DEPTH;
use smallvec::SmallVec;
use spin::{RwLock, RwLockWriteGuard};
use std::hash::Hasher;
use vstd::prelude::*;

verus! {

/// A point in time, taken from the system's clock and carried along unread.
#[verifier::external_type_specification]
#[verifier::external_body]
pub struct ExSystemTime(std::time::SystemTime);

/// `std::time::SystemTime::now`. The clock decides what it returns, so nothing
/// is said of it.
pub assume_specification[ std::time::SystemTime::now ]() -> std::time::SystemTime
;

/// An error of the operating system, carried along unread.
#[verifier::external_type_specification]
#[verifier::external_body]
pub struct ExIoError(std::io::Error);

/// `spin::RwLock`.
#[verifier::external_type_specification]
#[verifier::external_body]
#[verifier::reject_recursive_types(T)]
#[verifier::reject_recursive_types(R)]
pub struct ExRwLock<T: ?Sized, R>(spin::rwlock::RwLock<T, R>);

/// `spin::RwLockWriteGuard`.
#[verifier::external_type_specification]
#[verifier::external_body]
#[verifier::reject_recursive_types(T)]
#[verifier::reject_recursive_types(R)]
pub struct ExRwLockWriteGuard<'a, T: 'a + ?Sized, R>(spin::rwlock::RwLockWriteGuard<'a, T, R>);

/// The way in which a `spin::RwLock` waits.
#[verifier::external_type_specification]
#[verifier::external_body]
pub struct ExSpin(spin::relax::Spin);

/// The lock that a guard holds.
pub uninterp spec fn lock_of(guard: RwLockWriteGuard<Result<Profiler, Error>>) -> RwLock<
    Result<Profiler, Error>,
>;

/// What is behind the lock that a guard holds.
pub uninterp spec fn guarded(guard: RwLockWriteGuard<Result<Profiler, Error>>) -> Result<
    Profiler,
    Error,
>;

/// What was behind the lock when the guard took it.
pub uninterp spec fn found(guard: RwLockWriteGuard<Result<Profiler, Error>>) -> Result<
    Profiler,
    Error,
>;

/// `spin::RwLock::write`: waits until nobody else holds the lock, and returns a
/// guard that holds it. What is behind the lock is then still what the guard
/// found there. What the others left there is unknown, so nothing else is said of
/// it. A caller that holds the lock already waits forever.
#[verifier::external_body]
pub(crate) fn lock_write<'a>(lock: &'a RwLock<Result<Profiler, Error>>) -> (guard:
    RwLockWriteGuard<'a, Result<Profiler, Error>>)
    ensures
        lock_of(guard) == *lock,
        found(guard) == guarded(guard),
{
    lock.write()
}

/// `spin::RwLockWriteGuard::deref_mut`: access to what is behind the lock. What
/// is left there is what the guard then guards. The guard holds the same lock as
/// before, and what it found there when it took it is not changed either.
#[verifier::external_body]
pub(crate) fn guard_deref_mut<'b, 'a>(
    guard: &'b mut RwLockWriteGuard<'a, Result<Profiler, Error>>,
) -> (held: &'b mut Result<Profiler, Error>)
    ensures
        *held == guarded(*old(guard)),
        guarded(*final(guard)) == *final(held),
        lock_of(*final(guard)) == lock_of(*old(guard)),
        found(*final(guard)) == found(*old(guard)),
{
    &mut *guard
}

/// `std::mem::drop` of a `spin::RwLockWriteGuard`: releases the lock and leaves
/// behind it what the guard guards. Once the lock is released others may change
/// that, so nothing is said of what is there afterwards. It is public because the
/// contract of `ReportBuilder::build_unresolved_and_reset` says which guard it was
/// called with.
#[verifier::external_body]
pub fn guard_release<'a>(guard: RwLockWriteGuard<'a, Result<Profiler, Error>>) {
    std::mem::drop(guard)
}

/// A call stack: a `smallvec::SmallVec` of frames, with room for
/// [`MAX_DEPTH`] of them before it allocates.
#[verifier::external_body]
pub struct FrameStack {
    inner: SmallVec<[Frame; MAX_DEPTH]>,
}

/// The frames that a stack holds, in the order in which they were recorded.
pub uninterp spec fn stack_frames(stack: FrameStack) -> Seq<Frame>;

impl View for FrameStack {
    type V = Seq<Frame>;

    open spec fn view(&self) -> Seq<Frame> {
        stack_frames(*self)
    }
}

/// `SmallVec::with_capacity`: a vector without items. The capacity is bounded
/// by the inline room, with which no allocation is made and no size computation
/// can overflow.
#[verifier::external_body]
pub(crate) fn stack_with_capacity(capacity: usize) -> (stack: FrameStack)
    requires
        capacity <= MAX_DEPTH,
    ensures
        stack_frames(stack) == Seq::<Frame>::empty(),
{
    FrameStack { inner: SmallVec::with_capacity(capacity) }
}

/// `SmallVec::from_slice`: a vector with the items of the slice, in order.
#[verifier::external_body]
pub(crate) fn stack_from_slice(frames: &[Frame]) -> (stack: FrameStack)
    ensures
        stack_frames(stack) == frames@,
{
    FrameStack { inner: SmallVec::from_slice(frames) }
}

/// `SmallVec::as_slice`: the items that the vector holds, in order.
#[verifier::external_body]
pub(crate) fn stack_as_slice(stack: &FrameStack) -> (frames: &[Frame])
    ensures
        frames@ == stack_frames(*stack),
{
    stack.inner.as_slice()
}

/// `SmallVec::clone`: a vector with the same items, in order. Frames are plain
/// integers, so a cloned frame is the frame itself.
#[verifier::external_body]
pub(crate) fn stack_clone(stack: &FrameStack) -> (copy: FrameStack)
    ensures
        stack_frames(copy) == stack_frames(*stack),
{
    FrameStack { inner: stack.inner.clone() }
}

/// `std::hash::Hasher::write_u64`. What a hasher makes of the word is up to its
/// type, so nothing is said of its state afterwards. It is public because the
/// contract of `UnresolvedFrames::hash` says of which calls of it a hasher's state
/// is the outcome.
#[verifier::external_body]
pub fn hasher_write_u64<H: Hasher>(state: &mut H, word: u64) {
    state.write_u64(word)
}

} // verus!
