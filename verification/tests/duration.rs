//! Duration handling: ISO-8601 durations in, zero-padded HH:MM:SS out.

use srcom_book::duration::duration_to_hms;
use srcom_book::duration::format_hms;
use srcom_book::duration::parse_duration;

#[test]
fn hours_minutes_seconds() {
    assert_eq!(duration_to_hms("PT1H2M3S"), Some("01:02:03".to_string()));
}

#[test]
fn seconds_overflow_into_minutes() {
    assert_eq!(duration_to_hms("PT90S"), Some("00:01:30".to_string()));
}

#[test]
fn single_components() {
    assert_eq!(duration_to_hms("PT1M"), Some("00:01:00".to_string()));
    assert_eq!(duration_to_hms("PT5S"), Some("00:00:05".to_string()));
    assert_eq!(duration_to_hms("PT3H"), Some("03:00:00".to_string()));
}

#[test]
fn days_become_hours() {
    assert_eq!(duration_to_hms("P1D"), Some("24:00:00".to_string()));
    assert_eq!(duration_to_hms("P1DT2H3M4S"), Some("26:03:04".to_string()));
}

#[test]
fn hours_field_widens_past_two_digits() {
    assert_eq!(duration_to_hms("PT100H"), Some("100:00:00".to_string()));
    assert_eq!(duration_to_hms("PT999H59M59S"), Some("999:59:59".to_string()));
}

#[test]
fn fractional_seconds_are_truncated() {
    assert_eq!(duration_to_hms("PT1.5S"), Some("00:00:01".to_string()));
    assert_eq!(duration_to_hms("PT1H2M3.999S"), Some("01:02:03".to_string()));
    assert_eq!(duration_to_hms("PT0.25S"), Some("00:00:00".to_string()));
}

#[test]
fn parse_gives_whole_seconds() {
    assert_eq!(parse_duration("PT90S"), Some(90));
    assert_eq!(parse_duration("PT1H2M3S"), Some(3723));
    assert_eq!(parse_duration("P2DT1S"), Some(172801));
    assert_eq!(parse_duration("PT0S"), Some(0));
}

#[test]
fn format_pads_every_field() {
    assert_eq!(format_hms(0), "00:00:00");
    assert_eq!(format_hms(3723), "01:02:03");
    assert_eq!(format_hms(2 * 86400), "48:00:00");
    assert_eq!(format_hms(59), "00:00:59");
    assert_eq!(format_hms(600), "00:10:00");
}

#[test]
fn malformed_durations_are_rejected() {
    assert_eq!(parse_duration(""), None);
    assert_eq!(parse_duration("P"), None);
    assert_eq!(parse_duration("PT"), None);
    assert_eq!(parse_duration("1H"), None);
    assert_eq!(parse_duration("PT1X"), None);
    assert_eq!(parse_duration("PTS"), None);
    assert_eq!(parse_duration("PT1.S"), None);
    assert_eq!(parse_duration("PT1H2M3S "), None);
    assert_eq!(parse_duration("PT3M2H"), None);
    assert_eq!(parse_duration("P1DT"), None);
}

#[test]
fn overlong_components_are_rejected() {
    // Thirteen digits go past the accepted width.
    assert_eq!(parse_duration("PT1000000000000S"), None);
    // Twelve digits are still fine.
    assert_eq!(parse_duration("PT100000000000S"), Some(100_000_000_000));
}
