use portscan::probe::{classify, PortStatus};
use portscan::range::PortRange;
use portscan::report::{count_open, open_ports};
use portscan::session::ScanSession;

/// Drives a whole scan under the given cap, marking the listed ports open,
/// completing each batch in the order given by `reverse`.
fn run_scan(low: u16, high: u16, cap: usize, open: &[u16], reverse: bool) -> ScanSession {
    let range = PortRange { low, high };
    let mut session = ScanSession::new(range, cap);
    loop {
        let mut batch: Vec<u16> = Vec::new();
        while let Some(p) = session.dispatch() {
            batch.push(p);
        }
        if batch.is_empty() {
            break;
        }
        assert!(batch.len() <= cap);
        if reverse {
            batch.reverse();
        }
        for p in batch {
            assert!(session.is_in_flight(p));
            let is_open = open.contains(&p);
            let cause = if is_open {
                None
            } else {
                Some("connection refused".to_string())
            };
            session.complete(classify(p, is_open, cause));
            assert!(!session.is_in_flight(p));
        }
    }
    assert!(session.is_finished());
    session
}

fn assert_one_result_per_port(session: &ScanSession, low: u16, high: u16) {
    let results = session.results();
    assert_eq!(results.len(), (high - low + 1) as usize);
    for p in low..=high {
        assert_eq!(results.iter().filter(|r| r.port == p).count(), 1);
    }
}

#[test]
fn scan_yields_one_result_per_port_cap_one() {
    let s = run_scan(8000, 8009, 1, &[8003], false);
    assert_one_result_per_port(&s, 8000, 8009);
}

#[test]
fn scan_yields_one_result_per_port_cap_half() {
    let s = run_scan(8000, 8009, 5, &[8003], false);
    assert_one_result_per_port(&s, 8000, 8009);
}

#[test]
fn scan_yields_one_result_per_port_cap_exact() {
    let s = run_scan(8000, 8009, 10, &[8003], false);
    assert_one_result_per_port(&s, 8000, 8009);
}

#[test]
fn scan_yields_one_result_per_port_cap_double() {
    let s = run_scan(8000, 8009, 20, &[8003], false);
    assert_one_result_per_port(&s, 8000, 8009);
}

#[test]
fn scan_classifies_listener_open_and_rest_closed() {
    let s = run_scan(8000, 8002, 2, &[8001], false);
    for r in s.results() {
        match r.port {
            8001 => assert_eq!(r.status, PortStatus::Open),
            _ => assert_eq!(r.status, PortStatus::Closed),
        }
    }
    assert_eq!(count_open(s.results()), 1);
    assert_eq!(open_ports(s.results()), vec![8001]);
}

#[test]
fn repeated_scan_of_unchanged_target_classifies_identically() {
    let first = run_scan(8000, 8009, 3, &[8001, 8007], false);
    let second = run_scan(8000, 8009, 7, &[8001, 8007], true);
    let mut open_first = open_ports(first.results());
    let mut open_second = open_ports(second.results());
    open_first.sort();
    open_second.sort();
    assert_eq!(open_first, open_second);
    assert_eq!(open_first, vec![8001, 8007]);
}

#[test]
fn dispatch_respects_concurrency_cap() {
    let range = PortRange { low: 1, high: 100 };
    let mut session = ScanSession::new(range, 4);
    let mut outstanding: Vec<u16> = Vec::new();
    while let Some(p) = session.dispatch() {
        outstanding.push(p);
    }
    assert_eq!(outstanding, vec![1, 2, 3, 4]);
    session.complete(classify(2, false, None));
    assert_eq!(session.dispatch(), Some(5));
    assert_eq!(session.dispatch(), None);
}

#[test]
fn cancel_stops_dispatching_and_keeps_results() {
    let range = PortRange { low: 1, high: 9 };
    let mut session = ScanSession::new(range, 2);
    let a = session.dispatch().unwrap();
    let b = session.dispatch().unwrap();
    session.complete(classify(a, true, None));
    session.cancel();
    assert_eq!(session.dispatch(), None);
    assert!(!session.is_finished());
    session.complete(classify(b, false, None));
    assert!(session.is_finished());
    assert_eq!(session.results().len(), 2);
    assert_eq!(count_open(session.results()), 1);
}

#[test]
fn classify_folds_every_failure_into_closed() {
    let ok = classify(80, true, Some("ignored".to_string()));
    assert_eq!(ok.status, PortStatus::Open);
    assert_eq!(ok.detail, None);
    let refused = classify(81, false, Some("connection refused".to_string()));
    assert_eq!(refused.status, PortStatus::Closed);
    assert_eq!(refused.detail, Some("connection refused".to_string()));
    let timed_out = classify(82, false, Some("timed out".to_string()));
    assert_eq!(timed_out.status, PortStatus::Closed);
}

#[test]
fn single_port_range_scans_once() {
    let s = run_scan(443, 443, 16, &[], false);
    assert_eq!(s.results().len(), 1);
    assert_eq!(s.results()[0].port, 443);
    assert_eq!(s.results()[0].status, PortStatus::Closed);
}
