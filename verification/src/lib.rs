//! Verified core of a live process-memory scanner and monitor.
//!
//! The crate holds the logic that is worth proving: value encoding and
//! decoding, boundary-safe chunked pattern scanning, and the monitoring
//! state machine with its stability heuristic and bounded change history.
//! Reading a foreign process's memory, spawning the poll thread and all
//! presentation are left to the surrounding application, which drives the
//! state machines defined here with plain values.

pub mod codec;
pub mod region;
pub mod monitor;
pub mod scanner;
pub mod stats;
pub mod sysinfo;
