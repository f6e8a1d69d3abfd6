use portscan::addr::{parse_ipv4, IpAddress};
use portscan::cli::{validate_target, wants_usage, UsageError};
use portscan::probe::{classify, PortStatus};
use portscan::range::RangeError;
use portscan::report::{format_header, format_result_line, paint_status, status_text};
use portscan::session::ScanSession;

#[test]
fn plain_result_line_is_exact() {
    let open = classify(8001, true, None);
    assert_eq!(format_result_line(&open, false), "8001 is OPEN".to_string());
    let closed = classify(8000, false, Some("refused".to_string()));
    assert_eq!(format_result_line(&closed, false), "8000 is CLOSE".to_string());
}

#[test]
fn painted_result_line_keeps_prefix_and_status_word() {
    colored::control::set_override(true);
    let open = classify(8001, true, None);
    let line = format_result_line(&open, true);
    assert!(line.starts_with("8001 is "));
    assert!(line.contains("OPEN"));
    assert!(line.contains('\u{1b}'));
    let closed = classify(8000, false, None);
    let painted = format_result_line(&closed, true);
    assert!(painted.starts_with("8000 is "));
    assert!(painted.contains("CLOSE"));
    assert!(painted.contains('\u{1b}'));
    colored::control::unset_override();
}

#[test]
fn status_words_match_the_original_output() {
    assert_eq!(status_text(PortStatus::Open), "OPEN".to_string());
    assert_eq!(status_text(PortStatus::Closed), "CLOSE".to_string());
    assert_eq!(paint_status(PortStatus::Open, false), "OPEN".to_string());
    assert_eq!(paint_status(PortStatus::Closed, false), "CLOSE".to_string());
}

#[test]
fn header_names_address_and_bounds() {
    assert_eq!(
        format_header("127.0.0.1", 8000, 8002),
        "Checking port(s) on 127.0.0.1 from 8000 to 8002".to_string()
    );
}

#[test]
fn scenario_three_ports_one_listener() {
    let target = validate_target("127.0.0.1", "8000-8002").unwrap();
    let mut session = ScanSession::new(target.range, 3);
    let mut lines: Vec<String> = Vec::new();
    while let Some(p) = session.dispatch() {
        let is_open = p == 8001;
        let outcome = classify(p, is_open, None);
        lines.push(format_result_line(&outcome, false));
        session.complete(outcome);
    }
    assert!(session.is_finished());
    assert_eq!(lines.len(), 3);
    assert!(lines.contains(&"8000 is CLOSE".to_string()));
    assert!(lines.contains(&"8001 is OPEN".to_string()));
    assert!(lines.contains(&"8002 is CLOSE".to_string()));
}

#[test]
fn ipv4_literals_parse_to_their_octets() {
    assert_eq!(
        parse_ipv4("127.0.0.1"),
        Some(IpAddress::V4 { a: 127, b: 0, c: 0, d: 1 })
    );
    assert_eq!(
        parse_ipv4("0.0.0.0"),
        Some(IpAddress::V4 { a: 0, b: 0, c: 0, d: 0 })
    );
    assert_eq!(
        parse_ipv4("255.255.255.255"),
        Some(IpAddress::V4 { a: 255, b: 255, c: 255, d: 255 })
    );
    assert_eq!(
        parse_ipv4("192.168.10.254"),
        Some(IpAddress::V4 { a: 192, b: 168, c: 10, d: 254 })
    );
}

#[test]
fn malformed_addresses_are_rejected() {
    assert_eq!(parse_ipv4("not-an-ip"), None);
    assert_eq!(parse_ipv4(""), None);
    assert_eq!(parse_ipv4("1.2.3"), None);
    assert_eq!(parse_ipv4("1.2.3.4.5"), None);
    assert_eq!(parse_ipv4("256.0.0.1"), None);
    assert_eq!(parse_ipv4("01.2.3.4"), None);
    assert_eq!(parse_ipv4("1.2.3.x"), None);
    assert_eq!(parse_ipv4("1..2.3"), None);
    assert_eq!(parse_ipv4(".1.2.3"), None);
    assert_eq!(parse_ipv4("1.2.3."), None);
}

#[test]
fn bad_address_is_a_usage_error_before_any_scan() {
    assert_eq!(
        validate_target("not-an-ip", "8000-8002"),
        Err(UsageError::BadAddress)
    );
    assert_eq!(
        validate_target("not-an-ip", "80"),
        Err(UsageError::BadAddress)
    );
}

#[test]
fn bad_range_is_a_usage_error_with_its_reason() {
    assert_eq!(
        validate_target("127.0.0.1", "nope"),
        Err(UsageError::BadRange(RangeError::InvalidFormat))
    );
    assert_eq!(
        validate_target("127.0.0.1", "70000"),
        Err(UsageError::BadRange(RangeError::OutOfRange))
    );
    assert_eq!(
        validate_target("127.0.0.1", "2-1"),
        Err(UsageError::BadRange(RangeError::InvertedRange))
    );
}

#[test]
fn usage_error_messages_are_pinned() {
    assert_eq!(UsageError::BadAddress.message(), "invalid IP address".to_string());
    assert_eq!(
        UsageError::BadRange(RangeError::InvalidFormat).message(),
        "invalid port range".to_string()
    );
    assert_eq!(
        UsageError::BadRange(RangeError::OutOfRange).message(),
        "port out of range".to_string()
    );
    assert_eq!(
        UsageError::BadRange(RangeError::InvertedRange).message(),
        "inverted port range".to_string()
    );
}

#[test]
fn help_or_missing_arguments_ask_for_usage() {
    assert!(wants_usage(true, 0));
    assert!(wants_usage(true, 2));
    assert!(wants_usage(false, 0));
    assert!(wants_usage(false, 1));
    assert!(!wants_usage(false, 2));
    assert!(!wants_usage(false, 3));
}
