//! The verified core of a partition and volume server.
//!
//! The library decides; the program around it talks to the kernel. Capabilities, badges and
//! process ids are plain numbers here, device reads and process spawns are closures that the
//! caller hands in, and ring traffic is answered one request at a time.
pub mod cap;
pub mod config;
pub mod error;
pub mod layout;
pub mod le;
pub mod text;
pub mod utils;
pub mod probe;
pub mod policy;
pub mod fossil;
pub mod manager;
pub mod server;
