use portscan::range::{parse_port_range, PortRange, RangeError};

fn ok_range(low: u16, high: u16) -> Result<PortRange, RangeError> {
    Ok(PortRange { low, high })
}

#[test]
fn single_port_yields_degenerate_range() {
    assert_eq!(parse_port_range("80"), ok_range(80, 80));
    assert_eq!(parse_port_range("0"), ok_range(0, 0));
    assert_eq!(parse_port_range("65535"), ok_range(65535, 65535));
}

#[test]
fn single_port_accepts_leading_zeros() {
    assert_eq!(parse_port_range("007"), ok_range(7, 7));
    assert_eq!(parse_port_range("000"), ok_range(0, 0));
}

#[test]
fn dash_separated_pair_yields_range() {
    assert_eq!(parse_port_range("8000-8002"), ok_range(8000, 8002));
    assert_eq!(parse_port_range("0-65535"), ok_range(0, 65535));
    assert_eq!(parse_port_range("5-5"), ok_range(5, 5));
}

#[test]
fn colon_separated_pair_yields_range() {
    assert_eq!(parse_port_range("8000:8002"), ok_range(8000, 8002));
    assert_eq!(parse_port_range("1:1024"), ok_range(1, 1024));
}

#[test]
fn inverted_pair_is_rejected_not_swapped() {
    assert_eq!(parse_port_range("2-1"), Err(RangeError::InvertedRange));
    assert_eq!(parse_port_range("65535:0"), Err(RangeError::InvertedRange));
}

#[test]
fn empty_string_is_invalid_format() {
    assert_eq!(parse_port_range(""), Err(RangeError::InvalidFormat));
}

#[test]
fn non_numeric_segments_are_invalid_format() {
    assert_eq!(parse_port_range("abc"), Err(RangeError::InvalidFormat));
    assert_eq!(parse_port_range("8o"), Err(RangeError::InvalidFormat));
    assert_eq!(parse_port_range("80-x"), Err(RangeError::InvalidFormat));
    assert_eq!(parse_port_range("x-80"), Err(RangeError::InvalidFormat));
    assert_eq!(parse_port_range(" 80"), Err(RangeError::InvalidFormat));
}

#[test]
fn empty_segments_are_invalid_format() {
    assert_eq!(parse_port_range("-80"), Err(RangeError::InvalidFormat));
    assert_eq!(parse_port_range("80-"), Err(RangeError::InvalidFormat));
    assert_eq!(parse_port_range("-"), Err(RangeError::InvalidFormat));
    assert_eq!(parse_port_range(":"), Err(RangeError::InvalidFormat));
}

#[test]
fn three_or_more_segments_are_invalid_format() {
    assert_eq!(parse_port_range("1-2-3"), Err(RangeError::InvalidFormat));
    assert_eq!(parse_port_range("1:2:3"), Err(RangeError::InvalidFormat));
    assert_eq!(parse_port_range("1-2:3"), Err(RangeError::InvalidFormat));
    assert_eq!(parse_port_range("--"), Err(RangeError::InvalidFormat));
}

#[test]
fn oversized_values_are_out_of_range() {
    assert_eq!(parse_port_range("65536"), Err(RangeError::OutOfRange));
    assert_eq!(parse_port_range("0-65536"), Err(RangeError::OutOfRange));
    assert_eq!(parse_port_range("70000:80000"), Err(RangeError::OutOfRange));
    assert_eq!(
        parse_port_range("99999999999999999999"),
        Err(RangeError::OutOfRange)
    );
}

#[test]
fn format_errors_take_priority_over_bounds() {
    assert_eq!(parse_port_range("65536-x"), Err(RangeError::InvalidFormat));
    assert_eq!(parse_port_range("1-2-99999"), Err(RangeError::InvalidFormat));
}

#[test]
fn formatted_port_parses_back() {
    for n in [0u16, 1, 9, 10, 80, 8001, 65535] {
        let text = portscan::num::u16_to_string(n);
        assert_eq!(parse_port_range(text.as_str()), ok_range(n, n));
    }
}

#[test]
fn u16_to_string_renders_decimal() {
    assert_eq!(portscan::num::u16_to_string(0), "0".to_string());
    assert_eq!(portscan::num::u16_to_string(7), "7".to_string());
    assert_eq!(portscan::num::u16_to_string(80), "80".to_string());
    assert_eq!(portscan::num::u16_to_string(8001), "8001".to_string());
    assert_eq!(portscan::num::u16_to_string(65535), "65535".to_string());
}
