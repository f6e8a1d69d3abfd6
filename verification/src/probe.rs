//! Probe outcomes: the classification of one connection attempt against one
//! port. The connection itself is made by the surrounding binary; the
//! classification rule lives here, verified.

use vstd::prelude::*;

verus! {

/// The classification of one probed port.
#[derive(Clone, Copy, Debug, PartialEq, Eq, Structural)]
pub enum PortStatus {
    Open,
    Closed,
}

/// The outcome of one probe: the port, its classification, and — when the
/// connection failed — the underlying cause, kept as diagnostic detail
/// only, never as a user-visible status of its own.
#[derive(Clone, Debug)]
pub struct ProbeResult {
    pub port: u16,
    pub status: PortStatus,
    pub detail: Option<String>,
}

/// Classifies one connection attempt: success means the port is open; any
/// failure — refused, timed out, unreachable — means closed, with the cause
/// recorded as diagnostic detail. Failure is data, not an error path.
pub fn classify(port: u16, connected: bool, cause: Option<String>) -> (r: ProbeResult)
    ensures
        r.port == port,
        r.status == (if connected {
            PortStatus::Open
        } else {
            PortStatus::Closed
        }),
        r.detail == (if connected {
            Option::<String>::None
        } else {
            cause
        }),
{
    if connected {
        ProbeResult { port, status: PortStatus::Open, detail: None }
    } else {
        ProbeResult { port, status: PortStatus::Closed, detail: cause }
    }
}

} // verus!
