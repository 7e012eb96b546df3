//! Where things are in the server's address and capability space.
use crate::cap::{CapPtr, Endpoint};
use vstd::prelude::*;

verus! {

/// Where the server starts to map buffers.
pub const PROBE_VADDR: usize = 0x5000_0000;

/// How many entries a ring to a device has, each way.
pub const RING_ENTRIES: u32 = 4;

/// The slot of the endpoint of the init service.
pub const INIT_SLOT: CapPtr = 10;

/// The slot of the endpoint of the device service.
pub const DEVICE_SLOT: CapPtr = 11;

/// The endpoint of the init service.
pub const INIT_CAP: Endpoint = INIT_SLOT;

/// The endpoint of the device service.
pub const DEVICE_CAP: Endpoint = DEVICE_SLOT;

} // verus!
