use khronos::{format_seconds, OutputFormat, Precision, Timestamp, Unit};

// 2001-02-15T12:34:56.123456789 as epoch seconds and nanoseconds.
fn some_date() -> Timestamp {
    Timestamp::new(982_240_496, 123_456_789)
}

#[test]
fn output_iso8601() {
    assert_eq!(
        khronos::write::write(
            OutputFormat::Iso8601 { prec: Precision(0), time_only: false },
            some_date(),
            None
        ),
        "2001-02-15T12:34:56"
    );
    assert_eq!(
        khronos::write::write(
            OutputFormat::Iso8601 { prec: Precision(1), time_only: false },
            some_date(),
            None
        ),
        "2001-02-15T12:34:56.1"
    );
    assert_eq!(
        khronos::write::write(
            OutputFormat::Iso8601 { prec: Precision(3), time_only: false },
            some_date(),
            None
        ),
        "2001-02-15T12:34:56.123"
    );
    assert_eq!(
        khronos::write::write(
            OutputFormat::Iso8601 { prec: Precision(0), time_only: true },
            some_date(),
            None
        ),
        "12:34:56"
    );
    assert_eq!(
        khronos::write::write(
            OutputFormat::Iso8601 { prec: Precision(3), time_only: true },
            some_date(),
            None
        ),
        "12:34:56.123"
    );
}

#[test]
fn output_unix() {
    assert_eq!(
        khronos::write::write(
            OutputFormat::Unix(Unit::Seconds, Precision(0)),
            some_date(),
            None
        ),
        "982240496"
    );
    assert_eq!(
        khronos::write::write(
            OutputFormat::Unix(Unit::Milliseconds, Precision(0)),
            some_date(),
            None
        ),
        "982240496123"
    );
    assert_eq!(
        khronos::write::write(
            OutputFormat::Unix(Unit::Microseconds, Precision(3)),
            some_date(),
            None
        ),
        "982240496123456.789"
    );
    assert_eq!(
        khronos::write::write(
            OutputFormat::Unix(Unit::Nanoseconds, Precision(9)),
            some_date(),
            None
        ),
        "982240496123456789.000000000"
    );
}

// `some_date` minus the given number of seconds and nanoseconds.
fn earlier(secs: i64, nanos: u32) -> Timestamp {
    let t = some_date();
    if t.nanos >= nanos {
        Timestamp::new(t.secs - secs, t.nanos - nanos)
    } else {
        Timestamp::new(t.secs - secs - 1, 1_000_000_000 + t.nanos - nanos)
    }
}

#[test]
fn output_delta() {
    assert_eq!(
        khronos::write::write(
            OutputFormat::Delta(Unit::Seconds, Precision(0)),
            some_date(),
            None
        ),
        "0"
    );
    assert_eq!(
        khronos::write::write(
            OutputFormat::Delta(Unit::Seconds, Precision(0)),
            some_date(),
            Some(earlier(130, 0))
        ),
        "130"
    );
    assert_eq!(
        khronos::write::write(
            OutputFormat::Delta(Unit::Milliseconds, Precision(0)),
            some_date(),
            Some(earlier(0, 130_000_000))
        ),
        "130"
    );
    assert_eq!(
        khronos::write::write(
            OutputFormat::Delta(Unit::Microseconds, Precision(0)),
            some_date(),
            Some(earlier(0, 130_000))
        ),
        "130"
    );
    assert_eq!(
        khronos::write::write(
            OutputFormat::Delta(Unit::Nanoseconds, Precision(3)),
            some_date(),
            Some(earlier(0, 130))
        ),
        "130.000"
    );
}

#[test]
fn negative_delta_carries_the_sign() {
    // The previous timestamp lies 0.4 seconds in the future.
    let prev = Timestamp::new(982_240_496, 523_456_789);
    assert_eq!(
        khronos::write::write(OutputFormat::Delta(Unit::Seconds, Precision(1)), some_date(), Some(prev)),
        "-0.4"
    );
    assert_eq!(
        khronos::write::write(OutputFormat::Delta(Unit::Milliseconds, Precision(0)), some_date(), Some(prev)),
        "-400"
    );
}

#[test]
fn pre_epoch_unix_output() {
    let t = Timestamp::new(-1, 600_000_000);
    assert_eq!(
        khronos::write::write(OutputFormat::Unix(Unit::Seconds, Precision(1)), t, None),
        "-0.4"
    );
    assert_eq!(
        khronos::write::write(OutputFormat::Unix(Unit::Milliseconds, Precision(0)), t, None),
        "-400"
    );
}

#[test]
fn integer_seconds() {
    assert_eq!("0", format_seconds(0, 0, Unit::Seconds, Precision(0)));
    assert_eq!("123", format_seconds(123, 0, Unit::Seconds, Precision(0)));
    assert_eq!(
        "42",
        format_seconds(42, 123_456_789, Unit::Seconds, Precision(0))
    );
    assert_eq!("0", format_seconds(0, 456_000, Unit::Seconds, Precision(0)));
    assert_eq!(
        "10000000000",
        format_seconds(10_000_000_000, 123_456_789, Unit::Seconds, Precision(0))
    );
}

#[test]
fn integer_microseconds() {
    assert_eq!("0", format_seconds(0, 0, Unit::Microseconds, Precision(0)));
    assert_eq!(
        "123000000",
        format_seconds(123, 0, Unit::Microseconds, Precision(0))
    );
    assert_eq!(
        "456",
        format_seconds(0, 456_000, Unit::Microseconds, Precision(0))
    );
    assert_eq!(
        "42123456",
        format_seconds(42, 123_456_789, Unit::Microseconds, Precision(0))
    );
}

#[test]
fn fractional_seconds() {
    assert_eq!("0.0", format_seconds(0, 0, Unit::Seconds, Precision(1)));
    assert_eq!("0.000", format_seconds(0, 0, Unit::Seconds, Precision(3)));
    assert_eq!(
        "0.000000000",
        format_seconds(0, 0, Unit::Seconds, Precision(9))
    );
    assert_eq!(
        "42.123",
        format_seconds(42, 123_456_789, Unit::Seconds, Precision(3))
    );
    assert_eq!(
        "42.123456789",
        format_seconds(42, 123_456_789, Unit::Seconds, Precision(9))
    );
    assert_eq!(
        "0.000456",
        format_seconds(0, 456_000, Unit::Seconds, Precision(6))
    );
    assert_eq!(
        "10000000000.123456789",
        format_seconds(10_000_000_000, 123_456_789, Unit::Seconds, Precision(9))
    );
}

#[test]
fn fractional_microseconds() {
    assert_eq!(
        "0.0",
        format_seconds(0, 0, Unit::Microseconds, Precision(1))
    );
    assert_eq!(
        "0.000",
        format_seconds(0, 0, Unit::Microseconds, Precision(3))
    );
    assert_eq!(
        "0.000000000",
        format_seconds(0, 0, Unit::Microseconds, Precision(9))
    );
    assert_eq!(
        "10000000000123456.789000000",
        format_seconds(10_000_000_000, 123_456_789, Unit::Microseconds, Precision(9))
    );
}

#[test]
fn fractional_nanoseconds() {
    assert_eq!(
        "10000000000123456789.000000000",
        format_seconds(10_000_000_000, 123_456_789, Unit::Nanoseconds, Precision(9))
    );
}

#[test]
fn fraction_never_exceeds_precision() {
    for p in 0..=9usize {
        let s = format_seconds(42, 123_456_789, Unit::Milliseconds, Precision(p));
        match s.find('.') {
            None => assert_eq!(p, 0),
            Some(i) => assert_eq!(s.len() - i - 1, p),
        }
    }
    let extremes = [
        (i64::MAX, 999_999_999u32),
        (i64::MIN, 999_999_999u32),
        (0, 0u32),
        (-1, 1u32),
    ];
    for (secs, nanos) in extremes {
        for p in 0..=9usize {
            let s = format_seconds(secs, nanos, Unit::Nanoseconds, Precision(p));
            assert!(!s.is_empty());
            if p > 0 {
                let i = s.find('.').unwrap();
                assert_eq!(s.len() - i - 1, p);
            }
        }
    }
}

#[test]
fn padding_then_truncating_gains_nothing() {
    let low = format_seconds(42, 123_456_789, Unit::Seconds, Precision(3));
    let high = format_seconds(42, 123_456_789, Unit::Seconds, Precision(7));
    assert_eq!(low.as_str(), &high[..high.len() - 4]);
    let zero = format_seconds(42, 123_456_789, Unit::Seconds, Precision(0));
    assert_eq!(zero.as_str(), &high[..high.len() - 8]);
}

#[test]
fn unix_seconds_round_trip() {
    for secs in [0i64, 1, -1, 982_240_496, -982_240_496, i64::MAX, i64::MIN] {
        let t = Timestamp::new(secs, 0);
        let text = khronos::write::write(OutputFormat::Unix(Unit::Seconds, Precision(0)), t, None);
        assert_eq!(
            khronos::parse_string(&text, &khronos::InputFormat::Unix),
            Some(t)
        );
    }
}
