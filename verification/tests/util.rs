use spike_spy::util::{format_duration, format_memory, format_millis, push_decimal, push_two_digits};
use std::time::Duration;

#[test]
fn memory_in_bytes() {
    assert_eq!(format_memory(0), "0B");
    assert_eq!(format_memory(512), "512B");
    assert_eq!(format_memory(9998), "9998B");
}

#[test]
fn memory_in_kilobytes() {
    assert_eq!(format_memory(9999), "9KB");
    assert_eq!(format_memory(10_000_000), "9765KB");
    assert_eq!(format_memory(9998 * 1024 + 1023), "9998KB");
}

#[test]
fn memory_in_megabytes() {
    assert_eq!(format_memory(9999 * 1024), "9MB");
    assert_eq!(format_memory(20_000_000), "19MB");
    assert_eq!(format_memory(9998 * 1024 * 1024), "9998MB");
}

#[test]
fn memory_in_gigabytes() {
    assert_eq!(format_memory(9999 * 1024 * 1024), "9GB");
    assert_eq!(format_memory(20_000_000_000), "18GB");
    assert_eq!(format_memory(u64::MAX), "17179869183GB");
}

#[test]
fn duration_in_millis() {
    assert_eq!(format_duration(Duration::from_millis(0)), "0ms");
    assert_eq!(format_duration(Duration::from_millis(1500)), "1500ms");
    assert_eq!(format_duration(Duration::from_millis(9998)), "9998ms");
}

#[test]
fn duration_drops_what_is_under_a_millisecond() {
    assert_eq!(format_duration(Duration::from_micros(1999)), "1ms");
}

#[test]
fn duration_in_seconds() {
    assert_eq!(format_duration(Duration::from_millis(9999)), "9s");
    assert_eq!(format_duration(Duration::from_secs(59)), "59s");
}

#[test]
fn duration_in_minutes() {
    assert_eq!(format_duration(Duration::from_secs(60)), "1m 0s");
    assert_eq!(format_duration(Duration::from_millis(61_999)), "1m 1s");
    assert_eq!(format_duration(Duration::from_secs(3600)), "60m 0s");
}

#[test]
fn millis_agree_with_duration() {
    for millis in [0u64, 7, 9998, 9999, 59_999, 60_000, 123_456_789] {
        assert_eq!(format_millis(millis as u128), format_duration(Duration::from_millis(millis)));
    }
}

#[test]
fn decimal_numerals() {
    let mut text = String::from("n=");
    push_decimal(&mut text, 0);
    push_decimal(&mut text, 10);
    push_decimal(&mut text, 907);
    assert_eq!(text, "n=010907");
    let mut large = String::new();
    push_decimal(&mut large, u128::MAX);
    assert_eq!(large, "340282366920938463463374607431768211455");
}

#[test]
fn two_digit_numerals() {
    let mut text = String::new();
    push_two_digits(&mut text, 0);
    push_two_digits(&mut text, 5);
    push_two_digits(&mut text, 42);
    push_two_digits(&mut text, 100);
    assert_eq!(text, "000542100");
}
