//! Capabilities, as the numbers by which the kernel knows them.
use vstd::prelude::*;

verus! {

/// A slot in the capability space.
pub type CapPtr = usize;

/// The slot of an endpoint capability.
pub type Endpoint = usize;

/// The slot that no capability is in.
pub const CAP_NULL: CapPtr = 0;

/// A buffer that is shared between processes.
#[derive(Debug, Clone, Copy, PartialEq, Eq, Structural)]
pub struct SharedMemory {
    pub frame: CapPtr,
    pub vaddr: usize,
    pub paddr: usize,
    pub size: usize,
}

/// A shared buffer as a client of the server describes it.
#[derive(Debug, Clone, Copy, PartialEq, Eq, Structural)]
pub struct ShmParams {
    pub frame: CapPtr,
    pub vaddr: usize,
    pub paddr: usize,
    pub size: usize,
    pub recv_slot: CapPtr,
}

} // verus!
