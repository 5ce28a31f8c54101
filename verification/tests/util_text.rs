use speedrun_records::run::RunTime;
use speedrun_records::util::{format_duration, incr, incr_by, natjoin, natjoin_fallback};

fn t(secs: u64, nanos: u32) -> RunTime {
    RunTime { secs, nanos }
}

#[test]
fn zero_duration_formats_as_zero_seconds() {
    assert_eq!(format_duration(t(0, 0)), "0s");
}

#[test]
fn short_durations_format_as_bare_seconds() {
    assert_eq!(format_duration(t(45, 0)), "45s");
    assert_eq!(format_duration(t(9, 0)), "9s");
}

#[test]
fn minutes_format_with_two_digit_seconds() {
    assert_eq!(format_duration(t(125, 0)), "2m 05s");
    assert_eq!(format_duration(t(60, 0)), "1m 00s");
    assert_eq!(format_duration(t(3599, 0)), "59m 59s");
}

#[test]
fn hours_format_with_two_digit_minutes_and_seconds() {
    assert_eq!(format_duration(t(3723, 0)), "1h 02m 03s");
    assert_eq!(format_duration(t(3600, 0)), "1h 00m 00s");
    assert_eq!(format_duration(t(36_000_000, 0)), "10000h 00m 00s");
}

#[test]
fn subseconds_use_shortest_lossless_precision() {
    assert_eq!(format_duration(t(45, 500_000_000)), "45.500s");
    assert_eq!(format_duration(t(45, 123_000_000)), "45.123s");
    assert_eq!(format_duration(t(45, 500_000)), "45.000500s");
    assert_eq!(format_duration(t(45, 500)), "45.000000500s");
    assert_eq!(format_duration(t(45, 123_456_789)), "45.123456789s");
    assert_eq!(format_duration(t(0, 1_000_000)), "0.001s");
    assert_eq!(format_duration(t(3723, 7_000_000)), "1h 02m 03.007s");
}

#[test]
fn natjoin_handles_each_list_shape() {
    assert_eq!(natjoin(&Vec::<String>::new()), None);
    assert_eq!(natjoin(&vec!["a".to_string()]), Some("a".to_string()));
    assert_eq!(
        natjoin(&vec!["a".to_string(), "b".to_string()]),
        Some("a and b".to_string()),
    );
    assert_eq!(
        natjoin(&vec!["a".to_string(), "b".to_string(), "c".to_string()]),
        Some("a, b, and c".to_string()),
    );
    assert_eq!(
        natjoin(&vec!["a".to_string(), "b".to_string(), "c".to_string(), "d".to_string()]),
        Some("a, b, c, and d".to_string()),
    );
}

#[test]
fn natjoin_fallback_covers_the_empty_list() {
    assert_eq!(natjoin_fallback(&Vec::<String>::new(), "nobody"), "nobody");
    assert_eq!(natjoin_fallback(&vec!["a".to_string()], "nobody"), "a");
}

#[test]
fn incr_by_propagates_unknown_counts() {
    assert_eq!(incr_by(Some(2), Some(3)), Some(5));
    assert_eq!(incr_by(Some(2), None), None);
    assert_eq!(incr_by(None, Some(3)), None);
    assert_eq!(incr_by(None, None), None);
}

#[test]
fn incr_counts_one_more() {
    assert_eq!(incr(Some(0)), Some(1));
    assert_eq!(incr(Some(41)), Some(42));
    assert_eq!(incr(None), None);
}
