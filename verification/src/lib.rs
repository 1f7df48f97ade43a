//! Core logic of a resident memory guard: byte-count formatting, memory-size
//! parsing, parsing of port-lookup output, coupled-process selection, the
//! termination-protocol decisions, and the per-cycle violator scan.
//!
//! All I/O (process enumeration, signalling, shelling out to lookup
//! utilities, logging) lives outside this crate; the functions here work on
//! plain values and carry contracts for what they compute.

pub mod coupling;
pub mod digits;
pub mod guard;
pub mod memparse;
pub mod portscan;
pub mod protocol;
pub mod units;
