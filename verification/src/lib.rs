//! A verified TCP port scanner core.
//!
//! The crate holds the logic of a one-shot port scanner: parsing a textual
//! port range, validating a target address, driving a bounded-concurrency
//! sweep over the range, and formatting the per-port report lines. The
//! network probes themselves are performed by the surrounding binary; the
//! library decides what to probe, accounts for every outcome, and proves
//! that a completed scan classifies each port of the range exactly once.

pub mod addr;
pub mod cli;
pub mod num;
pub mod probe;
pub mod range;
pub mod report;
pub mod session;
