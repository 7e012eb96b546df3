//! What a request can fail with.
use vstd::prelude::*;

verus! {

/// An error as the server reports it to its clients.
///
/// `Success` is the answer of a request whose reply is deferred. `Other` carries the code of any
/// kernel or driver error that the server only passes on.
#[derive(Debug, Clone, Copy, PartialEq, Eq, Structural)]
pub enum Error {
    Success,
    NotInitialized,
    AlreadyExists,
    OutOfMemory,
    NotFound,
    InvalidArgs,
    InvalidConfig,
    InvalidMethod,
    InvalidCapability,
    DeviceError,
    Other(usize),
}

} // verus!
