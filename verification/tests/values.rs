//! Timestamp rendering, byte-order comparison and cost extraction.

use naia_shell::clock::{format_timestamp, now_timestamp, u64_to_dec};
use naia_shell::cost::decimal_micros;
use naia_shell::text::{str_eq, str_le};

#[test]
fn timestamp_epoch_start() {
    assert_eq!(format_timestamp(0), "1970-01-01T00:00:00.000");
}

#[test]
fn timestamp_known_instants() {
    // 2023-11-14 22:13:20 UTC
    assert_eq!(format_timestamp(1_700_000_000_000), "2023-11-14T22:13:20.000");
    // leap day
    assert_eq!(format_timestamp(1_582_934_400_000), "2020-02-29T00:00:00.000");
    // end of a year, with milliseconds
    assert_eq!(format_timestamp(1_704_067_199_999), "2023-12-31T23:59:59.999");
}

#[test]
fn timestamp_clamped_at_far_future() {
    assert_eq!(format_timestamp(u64::MAX), "9999-12-31T23:59:59.999");
}

#[test]
fn now_timestamp_is_in_range() {
    let ts = now_timestamp();
    assert!(ts.as_str() >= "2020-01-01T00:00:00.000");
    assert!(ts.as_str() <= "9999-12-31T23:59:59.999");
}

#[test]
fn decimal_rendering() {
    assert_eq!(u64_to_dec(0), "0");
    assert_eq!(u64_to_dec(7), "7");
    assert_eq!(u64_to_dec(100), "100");
    assert_eq!(u64_to_dec(18_446_744_073_709_551_615), "18446744073709551615");
}

#[test]
fn byte_order_matches_timestamp_order() {
    assert!(str_le("2020-01-01T00:00:00", "2020-01-02T00:00:00"));
    assert!(str_le("2020-01-01", "2020-01-01"));
    assert!(!str_le("2021-01-01", "2020-12-31"));
    assert!(str_le("", "anything"));
}

#[test]
fn string_equality_by_characters() {
    assert!(str_eq("usage", "usage"));
    assert!(!str_eq("usage", "usagE"));
    assert!(!str_eq("usage", "usage "));
    assert!(str_eq("", ""));
}

#[test]
fn decimal_text_to_micros() {
    assert_eq!(decimal_micros("0.005"), 5_000);
    assert_eq!(decimal_micros("0.010"), 10_000);
    assert_eq!(decimal_micros("12"), 12_000_000);
    assert_eq!(decimal_micros("1.5"), 1_500_000);
    assert_eq!(decimal_micros("0.0000019"), 1);
    assert_eq!(decimal_micros(""), 0);
    assert_eq!(decimal_micros("text"), 0);
    assert_eq!(decimal_micros("-3"), 0);
}
