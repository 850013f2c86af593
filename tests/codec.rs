use quran_shorts::clip::{format_duration as format_clip_duration, subtitle_generator, CLIP_HEADER};
use quran_shorts::time::{parse_duration, parse_timestamp, TimePoint};
use quran_shorts::timeline::format_duration;

fn tp(hours: u64, minutes: u64, seconds: u64, millis: u64) -> TimePoint {
    TimePoint { hours, minutes, seconds, millis }
}

#[test]
fn accumulate_carries_into_minutes() {
    let a = tp(0, 0, 59, 900);
    let b = tp(0, 0, 0, 200);
    assert_eq!(a.accumulate(b), tp(0, 1, 0, 100));
}

#[test]
fn accumulate_carries_into_hours() {
    assert_eq!(tp(0, 59, 59, 999).accumulate(tp(0, 0, 0, 1)), tp(1, 0, 0, 0));
    assert_eq!(tp(99, 30, 30, 500).accumulate(tp(1, 30, 29, 500)), tp(101, 1, 0, 0));
}

#[test]
fn zero_is_zero() {
    assert_eq!(TimePoint::zero(), tp(0, 0, 0, 0));
}

#[test]
fn centisecond_form_truncates() {
    assert_eq!(format_duration(tp(0, 0, 3, 456)), "00:00:03.45");
    assert_eq!(format_duration(tp(0, 0, 2, 789)), "00:00:02.78");
    assert_eq!(format_duration(tp(1, 2, 3, 999)), "01:02:03.99");
}

#[test]
fn centisecond_form_of_short_fractions() {
    // The fraction is the first two digits of the three-digit milliseconds.
    assert_eq!(format_duration(tp(0, 0, 0, 45)), "00:00:00.04");
    assert_eq!(format_duration(tp(0, 0, 0, 5)), "00:00:00.00");
    assert_eq!(format_duration(tp(0, 0, 0, 0)), "00:00:00.00");
    assert_eq!(format_duration(tp(1, 1, 1, 50)), "01:01:01.05");
    assert_eq!(format_duration(tp(0, 0, 0, 56)), format_duration(tp(0, 0, 0, 50)));
}

#[test]
fn centisecond_form_sorts_in_time_order() {
    assert!(format_duration(tp(0, 0, 0, 99)) < format_duration(tp(0, 0, 0, 100)));
    assert!(format_duration(tp(0, 0, 1, 9)) < format_duration(tp(0, 0, 1, 10)));
}

#[test]
fn centisecond_form_of_long_hours() {
    assert_eq!(format_duration(tp(123, 4, 5, 600)), "123:04:05.60");
}

#[test]
fn timestamp_round_trip() {
    for t in [tp(0, 0, 0, 0), tp(0, 0, 0, 50), tp(0, 0, 0, 10), tp(0, 0, 3, 450), tp(12, 34, 56, 780), tp(100, 59, 59, 990)] {
        assert_eq!(parse_timestamp(&format_duration(t)), Some(t));
    }
}

#[test]
fn timestamp_round_trip_loses_what_is_not_shown() {
    let t = tp(0, 0, 3, 456);
    assert_eq!(parse_timestamp(&format_duration(t)), Some(tp(0, 0, 3, 450)));
}

#[test]
fn parse_timestamp_reads_fields() {
    assert_eq!(parse_timestamp("00:00:03.456"), Some(tp(0, 0, 3, 456)));
    assert_eq!(parse_timestamp("1:2:3.4"), Some(tp(1, 2, 3, 400)));
    assert_eq!(parse_timestamp("00:00:03.456789"), Some(tp(0, 0, 3, 456)));
}

#[test]
fn parse_timestamp_rejects_bad_structure() {
    assert_eq!(parse_timestamp("00:00:03"), None);
    assert_eq!(parse_timestamp("00:60:00.00"), None);
    assert_eq!(parse_timestamp("00:00:60.00"), None);
    assert_eq!(parse_timestamp("00-00-03.45"), None);
    assert_eq!(parse_timestamp(""), None);
    assert_eq!(parse_timestamp("00:00:03.45 "), None);
    assert_eq!(parse_timestamp("99999999999999999999:00:00.0"), None);
}

#[test]
fn parse_duration_reads_seconds() {
    assert_eq!(parse_duration("3.456000"), Some(tp(0, 0, 3, 456)));
    assert_eq!(parse_duration("3"), Some(tp(0, 0, 3, 0)));
    assert_eq!(parse_duration("3725.5"), Some(tp(1, 2, 5, 500)));
    assert_eq!(parse_duration("0.07"), Some(tp(0, 0, 0, 70)));
}

#[test]
fn parse_duration_rejects_non_numbers() {
    assert_eq!(parse_duration("N/A"), None);
    assert_eq!(parse_duration(""), None);
    assert_eq!(parse_duration("3."), None);
    assert_eq!(parse_duration(".5"), None);
    assert_eq!(parse_duration("-1.0"), None);
    assert_eq!(parse_duration("1e3"), None);
    assert_eq!(parse_duration("18446744073709551616"), None);
}

#[test]
fn clip_duration_in_millisecond_form() {
    assert_eq!(format_clip_duration("00:01:02.50"), Some("00:01:02,500".to_string()));
    assert_eq!(format_clip_duration("00:00:03.456"), Some("00:00:03,456".to_string()));
    assert_eq!(format_clip_duration("00:00:03.05"), Some("00:00:03,050".to_string()));
    assert_eq!(format_clip_duration("garbage"), None);
}

#[test]
fn clip_subtitle_document() {
    let doc = subtitle_generator("X", "00:00:03.45").unwrap();
    assert_eq!(doc, format!("{}Dialogue: 0,0:00:00.00,00:00:03,450,Default,,0,0,0,,X\n", CLIP_HEADER));
    assert!(doc.contains("0, 2, 10, 10, 10, 1\n"));
    assert_eq!(subtitle_generator("X", "3.45"), None);
}

#[test]
fn millisecond_form_reads_back() {
    for t in [tp(0, 0, 0, 0), tp(0, 0, 0, 5), tp(1, 2, 3, 456), tp(23, 59, 59, 999)] {
        let text = format_clip_duration(&format!(
            "{:02}:{:02}:{:02}.{:03}",
            t.hours, t.minutes, t.seconds, t.millis
        ))
        .unwrap();
        assert_eq!(parse_timestamp(&text.replace(',', ".")), Some(t));
    }
}
