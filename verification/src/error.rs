//! The errors of the framework.

use vstd::prelude::*;

verus! {

/// What can go wrong in the framework as a whole.
#[derive(Debug, Clone, Copy, PartialEq, Eq, Structural)]
pub enum Error {
    /// The framework itself made a mistake.
    Bug,
    /// The container's capacity is exhausted.
    Capacity,
    /// The device was lost.
    DeviceLost,
    /// The operation timed out.
    TimedOut,
    /// The GPU API failed with this result code.
    Vulkan(i32),
}

} // verus!
