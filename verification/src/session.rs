//! The scan scheduler's state machine. A `ScanSession` owns the bookkeeping
//! of one sweep: which port is dispatched next, which probes are
//! outstanding, and the results collected so far. The surrounding binary
//! performs the probes; every decision — what to dispatch, when the cap is
//! reached, when the scan is finished — is taken here and verified. The
//! invariant guarantees that no port is skipped or duplicated, and the laws
//! at the end state the whole-scan properties.

use vstd::prelude::*;
use crate::probe::{PortStatus, ProbeResult};
use crate::range::PortRange;

verus! {

/// The state of one scan over an inclusive port range.
pub struct ScanSession {
    /// The target range, fixed at creation.
    pub range: PortRange,
    /// The concurrency cap: how many probes may be outstanding at once.
    pub cap: usize,
    /// The next port to dispatch; `range.high + 1` once all are dispatched.
    pub next: u32,
    /// Ports dispatched whose probe has not completed yet.
    pub in_flight: Vec<u16>,
    /// Completed probes, in completion order.
    pub results: Vec<ProbeResult>,
    /// Whether dispatching has been stopped before the end of the range.
    pub cancelled: bool,
}

impl ScanSession {
    /// There is a result recorded for port `p`.
    pub open spec fn has_result(self, p: u16) -> bool {
        exists|i: int| 0 <= i < self.results@.len() && (#[trigger] self.results@[i]).port == p
    }

    /// A result recorded for port `p` carries status `st`.
    pub open spec fn records(self, p: u16, st: PortStatus) -> bool {
        exists|i: int|
            0 <= i < self.results@.len() && (#[trigger] self.results@[i]).port == p
                && self.results@[i].status == st
    }

    /// Port `p` is accounted for: outstanding or completed.
    pub open spec fn covered(self, p: u16) -> bool {
        self.in_flight@.contains(p) || self.has_result(p)
    }

    /// The session invariant: the range is sound, the cap is respected,
    /// and every dispatched port is accounted for exactly once — either
    /// outstanding or completed, never both, never twice.
    pub open spec fn wf(self) -> bool {
        &&& self.range.wf()
        &&& self.cap >= 1
        &&& self.range.low <= self.next <= self.range.high + 1
        &&& self.in_flight@.len() + self.results@.len() == self.next - self.range.low
        &&& self.in_flight@.len() <= self.cap
        &&& (forall|i: int|
            0 <= i < self.in_flight@.len() ==> self.range.low <= #[trigger] self.in_flight@[i]
                < self.next)
        &&& (forall|i: int|
            0 <= i < self.results@.len() ==> self.range.low <= (#[trigger] self.results@[i]).port
                < self.next)
        &&& (forall|i: int, j: int|
            0 <= i < j < self.in_flight@.len() ==> #[trigger] self.in_flight@[i]
                != #[trigger] self.in_flight@[j])
        &&& (forall|i: int, j: int|
            0 <= i < j < self.results@.len() ==> (#[trigger] self.results@[i]).port
                != (#[trigger] self.results@[j]).port)
        &&& (forall|i: int, j: int|
            0 <= i < self.in_flight@.len() && 0 <= j < self.results@.len()
                ==> #[trigger] self.in_flight@[i] != (#[trigger] self.results@[j]).port)
        &&& (forall|p: u16| self.range.low <= p < self.next ==> #[trigger] self.covered(p))
    }

    /// The scan is finished: nothing is outstanding, and either the whole
    /// range has been dispatched or the session was cancelled.
    pub open spec fn is_done(self) -> bool {
        self.in_flight@.len() == 0 && (self.cancelled || self.next > self.range.high)
    }

    /// Starts a session over a validated range with a positive cap.
    pub fn new(range: PortRange, cap: usize) -> (s: ScanSession)
        requires
            range.wf(),
            cap >= 1,
        ensures
            s.wf(),
            s.range == range,
            s.cap == cap,
            s.next == range.low,
            s.in_flight@.len() == 0,
            s.results@.len() == 0,
            !s.cancelled,
    {
        ScanSession {
            range,
            cap,
            next: range.low as u32,
            in_flight: Vec::new(),
            results: Vec::new(),
            cancelled: false,
        }
    }

    /// Hands out the next port to probe, or nothing when the session is
    /// cancelled, the range is exhausted, or the concurrency cap is
    /// saturated. Exactly in the remaining cases a port is handed out, in
    /// ascending order, and marked outstanding.
    pub fn dispatch(&mut self) -> (r: Option<u16>)
        requires
            old(self).wf(),
        ensures
            final(self).wf(),
            final(self).range == old(self).range,
            final(self).cap == old(self).cap,
            final(self).cancelled == old(self).cancelled,
            final(self).results@ == old(self).results@,
            match r {
                Some(p) => {
                    &&& !old(self).cancelled
                    &&& old(self).next <= old(self).range.high
                    &&& old(self).in_flight@.len() < old(self).cap
                    &&& p == old(self).next
                    &&& final(self).next == old(self).next + 1
                    &&& final(self).in_flight@ == old(self).in_flight@.push(p)
                },
                None => {
                    &&& *final(self) == *old(self)
                    &&& (old(self).cancelled || old(self).next > old(self).range.high || old(
                        self,
                    ).in_flight@.len() >= old(self).cap)
                },
            },
    {
        if self.cancelled {
            return None;
        }
        if self.next > self.range.high as u32 {
            return None;
        }
        if self.in_flight.len() >= self.cap {
            return None;
        }
        let p: u16 = self.next as u16;
        self.in_flight.push(p);
        self.next = self.next + 1;
        proof {
            let s = *self;
            assert forall|q: u16| s.range.low <= q < s.next implies #[trigger] s.covered(q) by {
                if q == p {
                    assert(s.in_flight@[s.in_flight@.len() - 1] == q);
                } else {
                    assert(old(self).covered(q));
                    if old(self).in_flight@.contains(q) {
                        let w = choose|w: int|
                            0 <= w < old(self).in_flight@.len() && old(self).in_flight@[w] == q;
                        assert(s.in_flight@[w] == q);
                    }
                }
            }
        }
        Some(p)
    }

    /// Whether a probe for port `p` is outstanding.
    pub fn is_in_flight(&self, p: u16) -> (r: bool)
        ensures
            r == self.in_flight@.contains(p),
    {
        let mut i: usize = 0;
        let n = self.in_flight.len();
        while i < n
            invariant
                i <= n == self.in_flight@.len(),
                forall|j: int| 0 <= j < i ==> self.in_flight@[j] != p,
            decreases n - i,
        {
            if self.in_flight[i] == p {
                return true;
            }
            i += 1;
        }
        false
    }

    /// Records the outcome of an outstanding probe: the port stops being
    /// outstanding and its result is appended, exactly once.
    pub fn complete(&mut self, outcome: ProbeResult)
        requires
            old(self).wf(),
            old(self).in_flight@.contains(outcome.port),
        ensures
            final(self).wf(),
            final(self).range == old(self).range,
            final(self).cap == old(self).cap,
            final(self).cancelled == old(self).cancelled,
            final(self).next == old(self).next,
            final(self).results@ == old(self).results@.push(outcome),
            final(self).in_flight@.len() == old(self).in_flight@.len() - 1,
            !final(self).in_flight@.contains(outcome.port),
            forall|q: u16|
                q != outcome.port ==> (final(self).in_flight@.contains(q) <==> old(
                    self,
                ).in_flight@.contains(q)),
    {
        let ghost prev = *self;
        let mut idx: usize = 0;
        let n = self.in_flight.len();
        while idx < n && self.in_flight[idx] != outcome.port
            invariant
                idx <= n == self.in_flight@.len(),
                self.in_flight@.contains(outcome.port),
                forall|j: int| 0 <= j < idx ==> self.in_flight@[j] != outcome.port,
            decreases n - idx,
        {
            idx += 1;
        }
        proof {
            if idx >= n {
                let w = choose|w: int|
                    0 <= w < self.in_flight@.len() && self.in_flight@[w] == outcome.port;
                assert(false);
            }
            assert(self.in_flight@[idx as int] == outcome.port);
        }
        self.in_flight.remove(idx);
        self.results.push(outcome);
        proof {
            let s = *self;
            assert(s.in_flight@ == prev.in_flight@.subrange(0, idx as int) + prev.in_flight@
                .subrange(idx + 1, prev.in_flight@.len() as int));
            assert forall|i: int| 0 <= i < s.in_flight@.len() implies #[trigger] s.in_flight@[i]
                == (if i < idx {
                prev.in_flight@[i]
            } else {
                prev.in_flight@[i + 1]
            }) by {}
            assert(!s.in_flight@.contains(outcome.port)) by {
                if s.in_flight@.contains(outcome.port) {
                    let w = choose|w: int|
                        0 <= w < s.in_flight@.len() && s.in_flight@[w] == outcome.port;
                    if w < idx {
                        assert(prev.in_flight@[w] == prev.in_flight@[idx as int]);
                    } else {
                        assert(prev.in_flight@[w + 1] == prev.in_flight@[idx as int]);
                    }
                }
            }
            assert forall|q: u16| q != outcome.port implies (s.in_flight@.contains(q) <==> prev
                .in_flight@.contains(q)) by {
                if s.in_flight@.contains(q) {
                    let w = choose|w: int|
                        0 <= w < s.in_flight@.len() && s.in_flight@[w] == q;
                    if w < idx {
                        assert(prev.in_flight@[w] == q);
                    } else {
                        assert(prev.in_flight@[w + 1] == q);
                    }
                }
                if prev.in_flight@.contains(q) {
                    let w = choose|w: int|
                        0 <= w < prev.in_flight@.len() && prev.in_flight@[w] == q;
                    if w < idx {
                        assert(s.in_flight@[w] == q);
                    } else {
                        assert(w != idx);
                        assert(s.in_flight@[w - 1] == q);
                    }
                }
            }
            assert forall|q: u16| s.range.low <= q < s.next implies #[trigger] s.covered(q) by {
                assert(prev.covered(q));
                if q == outcome.port {
                    assert(s.results@[s.results@.len() - 1].port == q);
                } else if prev.in_flight@.contains(q) {
                    assert(s.in_flight@.contains(q));
                } else {
                    let w = choose|w: int|
                        0 <= w < prev.results@.len() && (#[trigger] prev.results@[w]).port == q;
                    assert(s.results@[w].port == q);
                }
            }
        }
    }

    /// Stops dispatching new probes; outstanding ones may still complete.
    pub fn cancel(&mut self)
        requires
            old(self).wf(),
        ensures
            final(self).wf(),
            final(self).cancelled,
            final(self).range == old(self).range,
            final(self).cap == old(self).cap,
            final(self).next == old(self).next,
            final(self).in_flight@ == old(self).in_flight@,
            final(self).results@ == old(self).results@,
    {
        self.cancelled = true;
        proof {
            let s = *self;
            assert forall|p: u16| s.range.low <= p < s.next implies #[trigger] s.covered(p) by {
                assert(old(self).covered(p));
            }
        }
    }

    /// Whether the scan is finished: nothing outstanding and nothing left
    /// to dispatch (or the session was cancelled).
    pub fn is_finished(&self) -> (r: bool)
        ensures
            r == self.is_done(),
    {
        self.in_flight.len() == 0 && (self.cancelled || self.next > self.range.high as u32)
    }

    /// The completed probe results, in completion order.
    pub fn results(&self) -> (r: &Vec<ProbeResult>)
        ensures
            r@ == self.results@,
    {
        &self.results
    }
}

/// Law: a finished, uncancelled scan of the range `[low, high]` holds
/// exactly `high - low + 1` results — one per port of the range, no port
/// skipped, none duplicated, none from outside the range. This holds
/// whatever concurrency cap drove the dispatching.
pub proof fn lemma_scan_complete(s: ScanSession)
    requires
        s.wf(),
        s.is_done(),
        !s.cancelled,
    ensures
        s.results@.len() == s.range.size(),
        forall|p: u16| s.range.low <= p <= s.range.high ==> #[trigger] s.has_result(p),
        forall|i: int|
            0 <= i < s.results@.len() ==> s.range.low <= (#[trigger] s.results@[i]).port
                <= s.range.high,
        forall|i: int, j: int|
            0 <= i < j < s.results@.len() ==> (#[trigger] s.results@[i]).port
                != (#[trigger] s.results@[j]).port,
{
    assert(s.next == s.range.high + 1);
    assert forall|p: u16| s.range.low <= p <= s.range.high implies #[trigger] s.has_result(p) by {
        assert(s.covered(p));
    }
}

/// Law: the classification is a function of the per-port outcomes alone.
/// Two finished, uncancelled scans of the same range that recorded the
/// same status for every port of the range report the same set of open
/// ports — completion order, interleaving and concurrency cap do not
/// matter.
pub proof fn lemma_scan_deterministic(s1: ScanSession, s2: ScanSession)
    requires
        s1.wf(),
        s2.wf(),
        s1.is_done(),
        s2.is_done(),
        !s1.cancelled,
        !s2.cancelled,
        s1.range == s2.range,
        forall|p: u16, st: PortStatus|
            s1.range.low <= p <= s1.range.high ==> (s1.records(p, st) <==> s2.records(p, st)),
    ensures
        s1.results@.len() == s2.results@.len(),
        forall|p: u16| #[trigger]
            s1.records(p, PortStatus::Open) <==> s2.records(p, PortStatus::Open),
{
    lemma_scan_complete(s1);
    lemma_scan_complete(s2);
    assert forall|p: u16| #[trigger] s1.records(p, PortStatus::Open) <==> s2.records(
        p,
        PortStatus::Open,
    ) by {
        if s1.records(p, PortStatus::Open) {
            let i = choose|i: int|
                0 <= i < s1.results@.len() && (#[trigger] s1.results@[i]).port == p
                    && s1.results@[i].status == PortStatus::Open;
            assert(s1.range.low <= p <= s1.range.high);
        }
        if s2.records(p, PortStatus::Open) {
            let i = choose|i: int|
                0 <= i < s2.results@.len() && (#[trigger] s2.results@[i]).port == p
                    && s2.results@[i].status == PortStatus::Open;
            assert(s2.range.low <= p <= s2.range.high);
        }
    }
}

} // verus!

