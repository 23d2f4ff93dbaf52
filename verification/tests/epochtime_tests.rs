use chrono::{DateTime, Utc};
use hdct::commands::HdctCommand;
use hdct::epochtime::{
    epoch_report, epoch_report_at, format_epoch_report, format_epoch_summary, timestamp_in_range,
    EpochTime, TimeSpan, MAX_TIMESTAMP, MIN_TIMESTAMP,
};

/// The converter's report written with the date-time crate and `format!`.
fn report_by_chrono(input: i64, now: DateTime<Utc>) -> String {
    let dt: DateTime<Utc> = DateTime::<Utc>::from_timestamp(input, 0).expect("invalid timestamp");
    let diff = dt.signed_duration_since(now);
    let mut result = String::new();
    result.push_str(&format!("Epoch time: {}\n", input));
    result.push_str(&format!("UTC time: {}\n", dt));
    let sign = if now.timestamp_millis() - dt.timestamp_millis() > 0 { "-" } else { "" };
    result.push_str(&format!(
        "Relative to now: {sign}{:?}d {:02}h {:02}m {:02}.{:04}s\n",
        diff.num_days().abs(),
        diff.num_hours().abs(),
        diff.num_minutes().abs(),
        diff.num_seconds().abs() % 60,
        diff.num_milliseconds().abs() % 60_000
    ));
    result
}

/// The suite's summary written with the date-time crate and `format!`.
fn summary_by_chrono(input: i64, now: DateTime<Utc>) -> String {
    let converted = DateTime::<Utc>::from_timestamp(input, 0).unwrap();
    let diff = converted.signed_duration_since(now);
    let mut result = String::new();
    result.push_str(&format!("Epoch time: {}\n", input));
    result.push_str(&format!("UTC time: {}\n", converted));
    result.push_str(&format!(
        "Relative to now: {:?}d {:02}h {:02}m {:02}.{:04}s\n",
        diff.num_days(),
        diff.num_hours(),
        diff.num_minutes(),
        diff.num_seconds(),
        diff.num_milliseconds()
    ));
    result
}

const NOWS: [(i64, u32); 6] = [
    (0, 0),
    (1700000000, 0),
    (1700000000, 1),
    (1700000000, 999_999_999),
    (1431648000, 500_500),
    (1431648000, 123_456_789),
];

const INPUTS: [i64; 9] = [0, 1, -1, 1431648000, 1431647999, 1700000000, -86401, 4102444800, -62135596800];

#[test]
fn report_matches_the_date_time_crate() {
    for (s, n) in NOWS {
        let now = DateTime::<Utc>::from_timestamp(s, n).unwrap();
        for input in INPUTS {
            let expected = report_by_chrono(input, now);
            assert_eq!(epoch_report_at(input, s, n).unwrap(), expected, "{} {} {}", input, s, n);
            let utc = DateTime::<Utc>::from_timestamp(input, 0).unwrap().to_string();
            assert_eq!(format_epoch_report(input, &utc, s, n), expected);
        }
    }
}

#[test]
fn summary_matches_the_date_time_crate() {
    for (s, n) in NOWS {
        let now = DateTime::<Utc>::from_timestamp(s, n).unwrap();
        for input in INPUTS {
            let utc = DateTime::<Utc>::from_timestamp(input, 0).unwrap().to_string();
            assert_eq!(format_epoch_summary(input, &utc, s, n), summary_by_chrono(input, now));
        }
    }
}

#[test]
fn report_of_a_known_timestamp() {
    let r = epoch_report_at(1431648000, 1431648000 + 86400 + 3661, 250_000_000).unwrap();
    assert_eq!(
        r,
        "Epoch time: 1431648000\nUTC time: 2015-05-15 00:00:00 UTC\nRelative to now: -1d 25h 1501m 01.1250s\n"
    );
}

#[test]
fn time_spans_match_the_date_time_crate() {
    for (s, n) in NOWS {
        let now = DateTime::<Utc>::from_timestamp(s, n).unwrap();
        for input in INPUTS {
            let diff = DateTime::<Utc>::from_timestamp(input, 0).unwrap().signed_duration_since(now);
            let span = TimeSpan::between(input, s, n);
            assert_eq!(span.num_seconds(), diff.num_seconds());
            assert_eq!(span.num_minutes(), diff.num_minutes());
            assert_eq!(span.num_hours(), diff.num_hours());
            assert_eq!(span.num_days(), diff.num_days());
            assert_eq!(span.num_milliseconds(), diff.num_milliseconds());
        }
    }
}

#[test]
fn timestamps_with_dates_are_exactly_the_accepted_ones() {
    for t in [MIN_TIMESTAMP, MAX_TIMESTAMP, 0, MIN_TIMESTAMP - 1, MAX_TIMESTAMP + 1, i64::MIN, i64::MAX] {
        let has_date = DateTime::<Utc>::from_timestamp(t, 0).is_some();
        assert_eq!(timestamp_in_range(t), has_date, "{}", t);
        assert_eq!(epoch_report_at(t, 0, 0).is_some(), has_date, "{}", t);
    }
    assert!(epoch_report(MAX_TIMESTAMP + 1).is_none());
}

#[test]
fn report_against_the_clock() {
    let r = epoch_report(0).unwrap();
    assert!(r.starts_with("Epoch time: 0\nUTC time: 1970-01-01 00:00:00 UTC\nRelative to now: -"));
    assert!(r.ends_with("s\n"));
}

#[test]
fn summary_command_against_the_clock() {
    let r = EpochTime { input: -1 }.run(0).unwrap();
    assert!(r.starts_with("Epoch time: -1\nUTC time: 1969-12-31 23:59:59 UTC\nRelative to now: -"));
}
