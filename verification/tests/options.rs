use khronos::{
    parse_input_format, parse_output_format, try_parse_precision, try_parse_unit, InputFormat,
    OutputFormat, Precision, Unit,
};

#[test]
fn test_parse_output_format_iso8601() {
    assert_eq!(
        parse_output_format("iso"),
        Ok(OutputFormat::Iso8601 { prec: Precision(0), time_only: false })
    );
    assert_eq!(
        parse_output_format("iso,.1"),
        Ok(OutputFormat::Iso8601 { prec: Precision(1), time_only: false })
    );
    assert_eq!(
        parse_output_format("iso,.3"),
        Ok(OutputFormat::Iso8601 { prec: Precision(3), time_only: false })
    );
    assert_eq!(
        parse_output_format("iso,.3,nodate"),
        Ok(OutputFormat::Iso8601 { prec: Precision(3), time_only: true })
    );
}

#[test]
fn test_parse_output_format_unix() {
    assert_eq!(
        parse_output_format("unix"),
        Ok(OutputFormat::Unix(Unit::Seconds, Precision(0)))
    );
    assert_eq!(
        parse_output_format("unix,s"),
        Ok(OutputFormat::Unix(Unit::Seconds, Precision(0)))
    );
    assert_eq!(
        parse_output_format("unix,ms"),
        Ok(OutputFormat::Unix(Unit::Milliseconds, Precision(0)))
    );
    assert_eq!(
        parse_output_format("unix,us"),
        Ok(OutputFormat::Unix(Unit::Microseconds, Precision(0)))
    );
    assert_eq!(
        parse_output_format("unix,ns"),
        Ok(OutputFormat::Unix(Unit::Nanoseconds, Precision(0)))
    );
    assert_eq!(
        parse_output_format("unix,.3"),
        Ok(OutputFormat::Unix(Unit::Seconds, Precision(3)))
    );
    assert_eq!(
        parse_output_format("unix,ns,.1"),
        Ok(OutputFormat::Unix(Unit::Nanoseconds, Precision(1)))
    );
    assert_eq!(
        parse_output_format("unix,.1,ns"),
        Ok(OutputFormat::Unix(Unit::Nanoseconds, Precision(1)))
    );
}

#[test]
fn test_parse_output_format_delta() {
    assert_eq!(
        parse_output_format("delta,ms"),
        Ok(OutputFormat::Delta(Unit::Milliseconds, Precision(0)))
    );
    assert_eq!(
        parse_output_format("delta,.9"),
        Ok(OutputFormat::Delta(Unit::Seconds, Precision(9)))
    );
}

#[test]
fn output_format_errors() {
    assert_eq!(
        parse_output_format("bogus"),
        Err("Invalid output format".to_string())
    );
    assert_eq!(
        parse_output_format("unix,xyz"),
        Err("Invalid format argument \"xyz\"".to_string())
    );
    assert_eq!(
        parse_output_format("iso,.10"),
        Err("Invalid format argument \".10\"".to_string())
    );
    assert_eq!(
        parse_output_format("delta,nodate"),
        Err("Invalid format argument \"nodate\"".to_string())
    );
}

#[test]
fn input_format_names() {
    assert_eq!(parse_input_format("unix"), Ok(InputFormat::Unix));
    assert_eq!(parse_input_format("unixms"), Ok(InputFormat::UnixMs));
    assert_eq!(parse_input_format("iso"), Ok(InputFormat::Iso8601));
    assert_eq!(parse_input_format("epoch"), Err("Invalid format".to_string()));
}

#[test]
fn unit_names() {
    assert_eq!(try_parse_unit("s"), Some(Unit::Seconds));
    assert_eq!(try_parse_unit("ms"), Some(Unit::Milliseconds));
    assert_eq!(try_parse_unit("us"), Some(Unit::Microseconds));
    assert_eq!(try_parse_unit("ns"), Some(Unit::Nanoseconds));
    assert_eq!(try_parse_unit("m"), None);
}

#[test]
fn precision_options() {
    assert_eq!(try_parse_precision(".0"), Some(Precision(0)));
    assert_eq!(try_parse_precision(".9"), Some(Precision(9)));
    assert_eq!(try_parse_precision(".10"), None);
    assert_eq!(try_parse_precision("3"), None);
    assert_eq!(try_parse_precision("."), None);
    assert_eq!(try_parse_precision(".x"), None);
}
