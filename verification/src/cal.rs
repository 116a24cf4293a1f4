//! Calendar parsing and rendering, delegated to chrono.
//!
//! The library keeps time as plain epoch seconds and nanoseconds; only
//! the conversion between that pair and a calendar text (a pattern
//! match, or a rendered date and time) is done by chrono, behind the
//! trusted items of this module.

use vstd::prelude::*;

verus! {

/// Magnitude bound on epoch seconds accepted by the calendar renderer:
/// about 253,000 years, safely inside chrono's documented range of
/// roughly 262,000 years around the common era.
pub const ISO_SECS_LIMIT: i64 = 8_000_000_000_000;

/// The outcome of chrono's pattern parse of an input string: epoch
/// seconds and subsecond nanoseconds, or nothing when the input does
/// not match the pattern. A function of the pattern and input alone.
pub uninterp spec fn datetime_parse(pattern: Seq<char>, s: Seq<char>) -> Option<(int, int)>;

/// The text chrono renders for an instant under the fixed pattern
/// `%Y-%m-%dT%H:%M:%S%.9f` (or `%H:%M:%S%.9f` when `time_only`).
/// A function of the instant and the flag alone.
pub uninterp spec fn iso_render(secs: int, nanos: int, time_only: bool) -> Seq<char>;

/// The fixed pattern against which ISO-8601 input tokens are matched.
pub open spec fn iso_pattern() -> Seq<char> {
    "%Y-%m-%dT%H:%M:%S%.f"@
}

/// Relies on `chrono::NaiveDateTime::parse_from_str` and the accessors
/// `and_utc().timestamp()` and `and_utc().timestamp_subsec_nanos()`:
/// the outcome depends on the pattern and input alone; the subsecond
/// field stays below two seconds (leap seconds included), and chrono's
/// dates span only about 262,000 years around the common era, so the
/// seconds stay well within the stated bound.
#[verifier::external_body]
pub(crate) fn chrono_parse(s: &str, pattern: &str) -> (r: Option<(i64, u32)>)
    ensures
        ({
            let d = datetime_parse(pattern@, s@);
            match r {
                Some((sec, nanos)) => d == Some((sec as int, nanos as int))
                    && -8_400_000_000_000 <= sec <= 8_400_000_000_000 && nanos < 2_000_000_000,
                None => d is None,
            }
        }),
{
    match chrono::NaiveDateTime::parse_from_str(s, pattern) {
        Ok(dt) => Some((dt.and_utc().timestamp(), dt.and_utc().timestamp_subsec_nanos())),
        Err(_) => None,
    }
}

/// Relies on `chrono::DateTime::<Utc>::from_timestamp` and chrono's
/// `format`: the rendering depends on the instant and the flag alone;
/// the pattern always emits hours, minutes, seconds and a dot followed
/// by exactly nine fraction digits, so at least 18 characters.
#[verifier::external_body]
pub(crate) fn chrono_render(secs: i64, nanos: u32, time_only: bool) -> (r: String)
    requires
        -ISO_SECS_LIMIT <= secs <= ISO_SECS_LIMIT,
        nanos < 1_000_000_000,
    ensures
        r@ == iso_render(secs as int, nanos as int, time_only),
        r@.len() >= 18,
{
    let dt = chrono::DateTime::<chrono::Utc>::from_timestamp(secs, nanos)
        .expect("timestamp within the calendar range");
    let pattern = if time_only {
        "%H:%M:%S%.9f"
    } else {
        "%Y-%m-%dT%H:%M:%S%.9f"
    };
    dt.naive_utc().format(pattern).to_string()
}

} // verus!
