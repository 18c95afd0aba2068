//! One frame of a call stack.

use vstd::prelude::*;

verus! {

/// A frame of a call stack, as the unwinder left it.
#[derive(Clone, Copy, Debug)]
pub struct Frame {
    /// The address of the instruction that the frame was executing.
    pub ip: u64,
    /// The address at which the function of the frame starts.
    pub address: u64,
}

impl Frame {
    /// The address at which the function of the frame starts. Two frames with
    /// one such address are frames of one function.
    pub fn symbol_address(&self) -> (address: u64)
        ensures
            address == self.address,
    {
        self.address
    }
}

} // verus!
