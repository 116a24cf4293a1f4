use khronos::{parse_string, parse_line, detect_format, InputFormat, Timestamp};

#[test]
fn lib_test_parse_string_unix() {
    assert_eq!(
        parse_string("1000", &InputFormat::Unix),
        Some(Timestamp::new(1000, 0))
    );
    assert_eq!(
        parse_string("1000.000123456", &InputFormat::Unix),
        Some(Timestamp::new(1000, 123456))
    );
    assert_eq!(parse_string("abc", &InputFormat::Unix), None);
}

#[test]
fn parse_test_parse_string_unix() {
    assert_eq!(
        parse_string("1000", &InputFormat::Unix),
        Some(Timestamp::new(1000, 0))
    );
    assert_eq!(
        parse_string("1000.000123456", &InputFormat::Unix),
        Some(Timestamp::new(1000, 123456))
    );
    assert_eq!(parse_string("abc", &InputFormat::Unix), None);
}

#[test]
fn test_parse_string_unixms() {
    assert_eq!(
        parse_string("1234", &InputFormat::UnixMs),
        Some(Timestamp::new(1, 234_000_000))
    );
    assert_eq!(
        parse_string("1000.000123456", &InputFormat::UnixMs),
        Some(Timestamp::new(1, 123))
    );
    assert_eq!(parse_string("abc", &InputFormat::UnixMs), None);
}

// Midnight 2000-01-01 as epoch seconds.
const Y2K: i64 = 946_684_800;

#[test]
fn lib_test_parse_string_epoc() {
    let epoc = Timestamp::new(Y2K, 0);
    // One day and one minute past the base.
    assert_eq!(
        parse_string("86460", &InputFormat::Epoc(epoc)),
        Some(Timestamp::new(Y2K + 86460, 0))
    );
    assert_eq!(
        parse_string("86460.001", &InputFormat::Epoc(epoc)),
        Some(Timestamp::new(Y2K + 86460, 1_000_000))
    );
    assert_eq!(parse_string("abc", &InputFormat::Epoc(epoc)), None);
}

#[test]
fn parse_test_parse_string_epoc() {
    let epoc = Timestamp::new(Y2K, 0);
    assert_eq!(
        parse_string("86460", &InputFormat::Epoc(epoc)),
        Some(Timestamp::new(Y2K + 86460, 0))
    );
    assert_eq!(
        parse_string("86460.001", &InputFormat::Epoc(epoc)),
        Some(Timestamp::new(Y2K + 86460, 1_000_000))
    );
    assert_eq!(parse_string("abc", &InputFormat::Epoc(epoc)), None);
}

// 2001-02-13T12:34:00 as epoch seconds.
const T_2001_02_13_123400: i64 = 982_067_640;

#[test]
fn lib_test_parse_string_custom() {
    assert_eq!(
        parse_string(
            "2001-02-13 12:34",
            &InputFormat::Custom("%Y-%m-%d %H:%M".to_string())
        ),
        Some(Timestamp::new(T_2001_02_13_123400, 0))
    );
    assert_eq!(
        parse_string(
            "2001-02-13 12:34:56.123456",
            &InputFormat::Custom("%Y-%m-%d %H:%M:%S%.f".to_string())
        ),
        Some(Timestamp::new(T_2001_02_13_123400 + 56, 123_456_000))
    );
    assert_eq!(
        parse_string(
            "2001x02x13 12x34",
            &InputFormat::Custom("%Y-%m-%d %H:%M".to_string())
        ),
        None
    );
    assert_eq!(
        parse_string(
            "2001x02x13",
            &InputFormat::Custom("%Y-%m-%d %H:%M".to_string())
        ),
        None
    );
}

#[test]
fn parse_test_parse_string_custom() {
    assert_eq!(
        parse_string(
            "2001-02-13 12:34",
            &InputFormat::Custom("%Y-%m-%d %H:%M".to_string())
        ),
        Some(Timestamp::new(T_2001_02_13_123400, 0))
    );
    assert_eq!(
        parse_string(
            "2001-02-13 12:34:56.123456",
            &InputFormat::Custom("%Y-%m-%d %H:%M:%S%.f".to_string())
        ),
        Some(Timestamp::new(T_2001_02_13_123400 + 56, 123_456_000))
    );
    assert_eq!(
        parse_string(
            "2001x02x13 12x34",
            &InputFormat::Custom("%Y-%m-%d %H:%M".to_string())
        ),
        None
    );
    assert_eq!(
        parse_string(
            "2001x02x13",
            &InputFormat::Custom("%Y-%m-%d %H:%M".to_string())
        ),
        None
    );
}

#[test]
fn test_parse_string_iso8601() {
    // With milliseconds
    assert_eq!(
        parse_string("2001-02-13T12:34:56.123", &InputFormat::Iso8601),
        Some(Timestamp::new(T_2001_02_13_123400 + 56, 123_000_000))
    );
    // With nanoseconds
    assert_eq!(
        parse_string("2001-02-13T12:34:56.123456789", &InputFormat::Iso8601),
        Some(Timestamp::new(T_2001_02_13_123400 + 56, 123_456_789))
    );
    // No fractional seconds
    assert_eq!(
        parse_string("2001-02-13T12:34:56", &InputFormat::Iso8601),
        Some(Timestamp::new(T_2001_02_13_123400 + 56, 0))
    );
    // Space as date-time separator.
    assert_eq!(parse_string("2001-02-13 12:34:56", &InputFormat::Iso8601), None);
}

#[test]
fn lib_test_parse_line() {
    // Space separator
    assert_eq!(
        parse_line("123.4 Log message", &InputFormat::Unix),
        (Some(Timestamp::new(123, 400_000_000)), " Log message")
    );
    // Tab separator
    assert_eq!(
        parse_line("123.4\tLog message", &InputFormat::Unix),
        (Some(Timestamp::new(123, 400_000_000)), "\tLog message")
    );
    // No timestamp, message contains separator.
    assert_eq!(
        parse_line("Log message", &InputFormat::Unix),
        (None, "Log message")
    );
    // No whitespace
    assert_eq!(
        parse_line("Logmessage", &InputFormat::Unix),
        (None, "Logmessage")
    );
    // Start with space
    assert_eq!(
        parse_line(" Logmessage", &InputFormat::Unix),
        (None, " Logmessage")
    );
    // Empty
    assert_eq!(parse_line("", &InputFormat::Unix), (None, ""));
}

#[test]
fn parse_test_parse_line() {
    assert_eq!(
        parse_line("123.4 Log message", &InputFormat::Unix),
        (Some(Timestamp::new(123, 400_000_000)), " Log message")
    );
    assert_eq!(
        parse_line("123.4\tLog message", &InputFormat::Unix),
        (Some(Timestamp::new(123, 400_000_000)), "\tLog message")
    );
    assert_eq!(
        parse_line("Log message", &InputFormat::Unix),
        (None, "Log message")
    );
    assert_eq!(
        parse_line("Logmessage", &InputFormat::Unix),
        (None, "Logmessage")
    );
    assert_eq!(
        parse_line(" Logmessage", &InputFormat::Unix),
        (None, " Logmessage")
    );
    assert_eq!(parse_line("", &InputFormat::Unix), (None, ""));
}

#[test]
fn lib_test_detect_format() {
    assert_eq!(detect_format("123.4 Log message"), Some(InputFormat::Unix));
    assert_eq!(detect_format("Log message"), None);
    assert_eq!(detect_format("Logmessage"), None);
    assert_eq!(detect_format(" Logmessage"), None);
    assert_eq!(detect_format(" "), None);
    assert_eq!(detect_format(""), None);
}

#[test]
fn parse_test_detect_format() {
    assert_eq!(
        detect_format("982240496.123 Log message"),
        Some(InputFormat::Unix)
    );
    assert_eq!(
        detect_format("1650400500.123 Log message"),
        Some(InputFormat::Unix)
    );
    assert_eq!(
        detect_format("982240496123.456 Log message"),
        Some(InputFormat::UnixMs)
    );
    assert_eq!(
        detect_format("1650400500123.456 Log message"),
        Some(InputFormat::UnixMs)
    );
    assert_eq!(
        detect_format("2001-12-13T12:34:56 Log message"),
        Some(InputFormat::Iso8601)
    );
    assert_eq!(
        detect_format("2001-12-13T12:34:56.123 Log message"),
        Some(InputFormat::Iso8601)
    );
    assert_eq!(detect_format("Log message"), None);
    assert_eq!(detect_format("Logmessage"), None);
    assert_eq!(detect_format(" Logmessage"), None);
    assert_eq!(detect_format(" "), None);
    assert_eq!(detect_format(""), None);
}

#[test]
fn iso8601_leap_second_rolls_over() {
    // Midnight 2001-02-14 as epoch seconds.
    let midnight: i64 = 982_108_800;
    assert_eq!(
        parse_string("2001-02-13T23:59:60.5", &InputFormat::Iso8601),
        Some(Timestamp::new(midnight, 500_000_000))
    );
}

#[test]
fn input_format_equality() {
    assert_eq!(InputFormat::Unix, InputFormat::Unix);
    assert_ne!(InputFormat::Unix, InputFormat::UnixMs);
    assert_eq!(
        InputFormat::Custom("%Y".to_string()),
        InputFormat::Custom("%Y".to_string())
    );
    assert_ne!(
        InputFormat::Custom("%Y".to_string()),
        InputFormat::Custom("%m".to_string())
    );
    assert_eq!(
        InputFormat::Epoc(Timestamp::new(7, 0)),
        InputFormat::Epoc(Timestamp::new(7, 0))
    );
    assert_ne!(
        InputFormat::Epoc(Timestamp::new(7, 0)),
        InputFormat::Epoc(Timestamp::new(8, 0))
    );
}

#[test]
fn epoc_offset_overflow_fails() {
    let base = Timestamp::new(i64::MAX, 0);
    assert_eq!(parse_string("1", &InputFormat::Epoc(base)), None);
}

#[test]
fn epoc_offset_carries_fraction() {
    let base = Timestamp::new(10, 900_000_000);
    assert_eq!(
        parse_string("0.2", &InputFormat::Epoc(base)),
        Some(Timestamp::new(11, 100_000_000))
    );
}
