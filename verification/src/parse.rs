//! Reading timestamps: decimal fixed-point parsing, format-directed
//! token parsing, line splitting and format auto-detection.

use vstd::prelude::*;
use vstd::arithmetic::power::{pow, lemma_pow_adds, lemma_pow_increases, lemma_pow_positive};
use crate::numeral::{
    all_digits, digits_val, digit_val, is_digit_char, pow10, pow10_u64, lemma_digits_val_bounds,
    lemma_digits_val_prefix_le,
};
use crate::text::{first_dot, find_dot, first_ws, find_ws, str_eq};
use crate::timestamp::{
    Timestamp, NANOS_PER_SEC, timestamp_from_nanos, nanos_representable, split_nanos,
};
use crate::cal::{datetime_parse, iso_pattern, chrono_parse};

verus! {

/// How the timestamp token of a line is to be interpreted.
#[derive(Clone, Debug)]
pub enum InputFormat {
    /// Seconds since midnight 1970-01-01, optionally fractional.
    Unix,
    /// Milliseconds since midnight 1970-01-01, optionally fractional.
    UnixMs,
    /// Seconds relative to a caller-supplied base timestamp.
    Epoc(Timestamp),
    /// The fixed pattern `YYYY-MM-DDThh:mm:ss` with an optional fraction.
    Iso8601,
    /// A caller-supplied pattern, e.g. `%Y-%m-%d %H:%M`. Date, hour and
    /// minute fields are mandatory.
    Custom(String),
}

impl PartialEq for InputFormat {
    fn eq(&self, other: &InputFormat) -> bool {
        match (self, other) {
            (InputFormat::Unix, InputFormat::Unix) => true,
            (InputFormat::UnixMs, InputFormat::UnixMs) => true,
            (InputFormat::Epoc(a), InputFormat::Epoc(b)) => a == b,
            (InputFormat::Iso8601, InputFormat::Iso8601) => true,
            (InputFormat::Custom(a), InputFormat::Custom(b)) => str_eq(a.as_str(), b.as_str()),
            _ => false,
        }
    }
}

impl vstd::std_specs::cmp::PartialEqSpecImpl for InputFormat {
    open spec fn obeys_eq_spec() -> bool {
        true
    }

    open spec fn eq_spec(&self, other: &InputFormat) -> bool {
        match (self, other) {
            (InputFormat::Unix, InputFormat::Unix) => true,
            (InputFormat::UnixMs, InputFormat::UnixMs) => true,
            (InputFormat::Epoc(a), InputFormat::Epoc(b)) => a == b,
            (InputFormat::Iso8601, InputFormat::Iso8601) => true,
            (InputFormat::Custom(a), InputFormat::Custom(b)) => a@ == b@,
            _ => false,
        }
    }
}

/// A well-formed input format: an offset base must be well-formed.
pub open spec fn input_wf(format: InputFormat) -> bool {
    match format {
        InputFormat::Epoc(base) => base.wf(),
        _ => true,
    }
}

/// The value of a signed integer token: an optional leading sign
/// followed by at least one decimal digit, within the `i64` range.
pub open spec fn int_token_val(s: Seq<char>) -> Option<int> {
    if s.len() == 0 {
        None
    } else {
        let neg = s[0] == '-';
        let ds = if s[0] == '-' || s[0] == '+' {
            s.drop_first()
        } else {
            s
        };
        if ds.len() == 0 || !all_digits(ds) {
            None
        } else {
            let v = if neg {
                -digits_val(ds)
            } else {
                digits_val(ds)
            };
            if i64::MIN <= v <= i64::MAX {
                Some(v)
            } else {
                None
            }
        }
    }
}

/// The value of a decimal token as integer seconds and nanoseconds.
///
/// Without a dot the whole token is a signed integer and the fraction
/// is zero. With a dot, the part before it is the signed integer part,
/// and of the part after it only the first nine characters count: they
/// must be plain digits (at least one), and are right-padded with
/// zeros to nine digits to give the nanosecond value. Characters after
/// the ninth fractional position are ignored entirely.
pub open spec fn parse_decimal_spec(s: Seq<char>) -> Option<(int, int)> {
    match first_dot(s) {
        None => match int_token_val(s) {
            Some(v) => Some((v, 0)),
            None => None,
        },
        Some(i) => {
            let ip = s.take(i);
            let fend = if s.len() < i + 10 {
                s.len() as int
            } else {
                i + 10
            };
            let fp = s.subrange(i + 1, fend);
            match int_token_val(ip) {
                Some(v) => if fp.len() >= 1 && all_digits(fp) {
                    Some((v, digits_val(fp) * pow10((9 - fp.len()) as nat)))
                } else {
                    None
                },
                None => None,
            }
        },
    }
}

/// Parses the digit run `s[from..to]` into its value, bailing out as
/// soon as the value would exceed `limit`.
pub(crate) fn parse_digits_bounded(s: &str, from: usize, to: usize, limit: u128) -> (r: Option<
    u128,
>)
    requires
        from <= to <= s@.len(),
        limit <= 0x8000_0000_0000_0000,
    ensures
        ({
            let ds = s@.subrange(from as int, to as int);
            match r {
                Some(v) => all_digits(ds) && v == digits_val(ds) && v <= limit,
                None => !(all_digits(ds) && digits_val(ds) <= limit),
            }
        }),
{
    let ghost ds = s@.subrange(from as int, to as int);
    let mut mag: u128 = 0;
    let mut i: usize = from;
    while i < to
        invariant
            from <= i <= to <= s@.len(),
            limit <= 0x8000_0000_0000_0000,
            ds == s@.subrange(from as int, to as int),
            all_digits(ds.take(i - from)),
            mag == digits_val(ds.take(i - from)),
            mag <= limit,
        decreases to - i,
    {
        let c = s.get_char(i);
        let u = c as u32;
        proof {
            assert(ds[i - from] == s@[i as int]);
            assert(ds.take(i - from + 1).drop_last() =~= ds.take(i - from));
            assert(ds.take(i - from + 1).last() == ds[i - from]);
        }
        if u < 48 || u > 57 {
            proof {
                assert(!is_digit_char(ds[i - from]));
            }
            return None;
        }
        let d = (u - 48) as u128;
        let next = mag * 10 + d;
        proof {
            assert(is_digit_char(ds[i - from]));
            assert(d == digit_val(ds[i - from]));
            assert(digits_val(ds.take(i - from + 1)) == mag * 10 + d);
        }
        if next > limit {
            proof {
                if all_digits(ds) && digits_val(ds) <= limit {
                    lemma_digits_val_prefix_le(ds, i - from + 1);
                    assert(false);
                }
            }
            return None;
        }
        mag = next;
        i = i + 1;
    }
    proof {
        assert(ds.take(to - from) =~= ds);
    }
    Some(mag)
}

/// Parses a decimal number into integer and nano parts.
pub fn parse_decimal(s: &str) -> (r: Option<(i64, u32)>)
    ensures
        ({
            let sp = parse_decimal_spec(s@);
            match r {
                Some((sec, nanos)) => sp == Some((sec as int, nanos as int)),
                None => sp is None,
            }
        }),
        r matches Some(p) ==> p.1 < crate::timestamp::NANOS_PER_SEC,
{
    let n = s.unicode_len();
    let dot = find_dot(s);
    let int_to: usize = match dot {
        Some(i) => i,
        None => n,
    };

    // Signed integer part over the characters before the dot (or all).
    let ghost ip = s@.take(int_to as int);
    let (neg, dstart): (bool, usize) = if int_to >= 1 {
        let c0 = s.get_char(0);
        if c0 == '-' {
            (true, 1)
        } else if c0 == '+' {
            (false, 1)
        } else {
            (false, 0)
        }
    } else {
        (false, 0)
    };
    if int_to == dstart {
        // Empty token or a bare sign: no digits to parse.
        proof {
            if dot is None {
                assert(ip =~= s@);
            }
        }
        return None;
    }
    let ghost ds = if dstart == 1 {
        ip.drop_first()
    } else {
        ip
    };
    proof {
        assert(ds =~= s@.subrange(dstart as int, int_to as int));
    }
    let limit: u128 = if neg {
        9_223_372_036_854_775_808
    } else {
        9_223_372_036_854_775_807
    };
    let mag = match parse_digits_bounded(s, dstart, int_to, limit) {
        Some(m) => m,
        None => {
            proof {
                if dot is None {
                    assert(ip =~= s@);
                }
                if all_digits(ds) {
                    if neg {
                        assert(-digits_val(ds) < i64::MIN);
                    } else {
                        assert(digits_val(ds) > i64::MAX);
                    }
                }
            }
            return None;
        },
    };
    let sec: i64 = if neg {
        (-(mag as i128)) as i64
    } else {
        mag as i64
    };

    match dot {
        None => {
            proof {
                assert(ip =~= s@);
            }
            Some((sec, 0))
        },
        Some(i) => {
            // Fractional part: up to nine characters after the dot.
            let fstart = i + 1;
            let fend: usize = if n - i - 1 <= 9 {
                n
            } else {
                i + 10
            };
            let ghost fp = s@.subrange(fstart as int, fend as int);
            if fend == fstart {
                return None;
            }
            let fval = match parse_digits_bounded(s, fstart, fend, 999_999_999) {
                Some(v) => v,
                None => {
                    proof {
                        if all_digits(fp) {
                            lemma_digits_val_bounds(fp);
                            lemma_pow_increases(10, fp.len(), 9);
                            assert(pow10(9) == 1_000_000_000) by {
                                reveal_with_fuel(pow, 10);
                            }
                        }
                    }
                    return None;
                },
            };
            let flen = (fend - fstart) as u32;
            let scale = pow10_u64(9 - flen);
            proof {
                lemma_digits_val_bounds(fp);
                lemma_pow_positive(10, (9 - flen) as nat);
                lemma_pow_adds(10, flen as nat, (9 - flen) as nat);
                assert(pow10(9) == 1_000_000_000) by {
                    reveal_with_fuel(pow, 10);
                }
                assert((fval as int) * (scale as int) <= pow10(9) - scale) by (nonlinear_arith)
                    requires
                        fval as int <= pow10(flen as nat) - 1,
                        scale as int >= 1,
                        pow10(flen as nat) * (scale as int) == pow10(9),
                ;
            }
            let nanos: u32 = ((fval as u64) * scale) as u32;
            Some((sec, nanos))
        },
    }
}

/// A chrono parse outcome carried into a timestamp: a leap-second
/// subsecond field (one second or more) rolls over into the seconds.
pub open spec fn lift_chrono(r: Option<(int, int)>) -> Option<Timestamp> {
    match r {
        Some((sec, nanos)) => if nanos >= NANOS_PER_SEC {
            Some(Timestamp { secs: (sec + 1) as i64, nanos: (nanos - NANOS_PER_SEC) as u32 })
        } else {
            Some(Timestamp { secs: sec as i64, nanos: nanos as u32 })
        },
        None => None,
    }
}

/// What parsing a token under a format yields.
///
/// `Unix` reads the token as decimal seconds; `UnixMs` as decimal
/// milliseconds converted exactly to seconds and nanoseconds; `Epoc`
/// as decimal seconds added to the base, failing when the sum leaves
/// the representable range; `Iso8601` and `Custom` go by chrono's
/// pattern match.
pub open spec fn parse_string_spec(s: Seq<char>, format: InputFormat) -> Option<Timestamp> {
    match format {
        InputFormat::Unix => match parse_decimal_spec(s) {
            Some((sec, nanos)) => Some(Timestamp { secs: sec as i64, nanos: nanos as u32 }),
            None => None,
        },
        InputFormat::UnixMs => match parse_decimal_spec(s) {
            Some((msec, psec)) => Some(timestamp_from_nanos(msec * 1_000_000 + psec / 1000)),
            None => None,
        },
        InputFormat::Epoc(base) => match parse_decimal_spec(s) {
            Some((sec, nanos)) => {
                let total = base.as_nanos() + sec * (NANOS_PER_SEC as int) + nanos;
                if nanos_representable(total) {
                    Some(timestamp_from_nanos(total))
                } else {
                    None
                }
            },
            None => None,
        },
        InputFormat::Iso8601 => lift_chrono(datetime_parse(iso_pattern(), s)),
        InputFormat::Custom(pattern) => lift_chrono(datetime_parse(pattern@, s)),
    }
}

/// Parses a string to a timestamp according to the given format.
pub fn parse_string(s: &str, format: &InputFormat) -> (r: Option<Timestamp>)
    requires
        input_wf(*format),
    ensures
        r == parse_string_spec(s@, *format),
        r matches Some(t) ==> t.wf(),
{
    match format {
        InputFormat::Unix => match parse_decimal(s) {
            Some((sec, nanos)) => Some(Timestamp::new(sec, nanos)),
            None => None,
        },
        InputFormat::UnixMs => match parse_decimal(s) {
            Some((msec, psec)) => {
                let total: i128 = (msec as i128) * 1_000_000 + (psec / 1000) as i128;
                Some(split_nanos(total))
            },
            None => None,
        },
        InputFormat::Epoc(base) => match parse_decimal(s) {
            Some((sec, nanos)) => {
                let total: i128 = (base.secs as i128) * 1_000_000_000 + (base.nanos as i128) + (
                sec as i128) * 1_000_000_000 + (nanos as i128);
                if -9_223_372_036_854_775_808_000_000_000i128 <= total
                    && total <= 9_223_372_036_854_775_807_999_999_999i128 {
                    Some(split_nanos(total))
                } else {
                    None
                }
            },
            None => None,
        },
        InputFormat::Iso8601 => {
            let raw = chrono_parse(s, "%Y-%m-%dT%H:%M:%S%.f");
            match raw {
                Some((sec, nanos)) => if nanos >= 1_000_000_000 {
                    Some(Timestamp::new(sec + 1, nanos - 1_000_000_000))
                } else {
                    Some(Timestamp::new(sec, nanos))
                },
                None => None,
            }
        },
        InputFormat::Custom(pattern) => {
            let raw = chrono_parse(s, pattern.as_str());
            match raw {
                Some((sec, nanos)) => if nanos >= 1_000_000_000 {
                    Some(Timestamp::new(sec + 1, nanos - 1_000_000_000))
                } else {
                    Some(Timestamp::new(sec, nanos))
                },
                None => None,
            }
        },
    }
}

/// What splitting and parsing a whole line yields: the timestamp of
/// the leading token, and the remainder of the line.
///
/// The token runs up to (not including) the first space or tab; that
/// separator starts the remainder. Without a separator, or when the
/// token does not parse, there is no timestamp and the remainder is
/// the whole line.
pub open spec fn parse_line_spec(s: Seq<char>, format: InputFormat) -> (Option<Timestamp>, Seq<
    char,
>) {
    match first_ws(s) {
        None => (None::<Timestamp>, s),
        Some(i) => match parse_string_spec(s.take(i), format) {
            Some(t) => (Some(t), s.subrange(i, s.len() as int)),
            None => (None::<Timestamp>, s),
        },
    }
}

/// Parses a line to a timestamp and the remainder of the line.
///
/// Assumes the timestamp is in the beginning of the line, does not
/// contain whitespace (space or tab), and is followed by whitespace.
/// This whitespace is included in the remainder. If the timestamp
/// cannot be parsed, returns no timestamp and the whole line as the
/// remainder.
pub fn parse_line<'a>(s: &'a str, format: &InputFormat) -> (r: (Option<Timestamp>, &'a str))
    requires
        input_wf(*format),
    ensures
        r.0 == parse_line_spec(s@, *format).0,
        r.1@ == parse_line_spec(s@, *format).1,
        r.0 matches Some(t) ==> t.wf(),
{
    match find_ws(s) {
        None => (None, s),
        Some(i) => {
            let token = s.substring_char(0, i);
            proof {
                assert(token@ =~= s@.take(i as int));
            }
            match parse_string(token, format) {
                Some(t) => {
                    let rest = s.substring_char(i, s.unicode_len());
                    (Some(t), rest)
                },
                None => (None, s),
            }
        },
    }
}

/// What inspecting the leading token of a line detects.
///
/// A token matching the ISO-8601 pattern detects `Iso8601`. Otherwise
/// a decimal token detects `UnixMs` when its integer part exceeds one
/// hundred billion (implausibly large for seconds, plausible for
/// milliseconds) and `Unix` otherwise. Anything else detects nothing.
pub open spec fn detect_format_spec(s: Seq<char>) -> Option<InputFormat> {
    match first_ws(s) {
        None => None,
        Some(i) => {
            let token = s.take(i);
            if datetime_parse(iso_pattern(), token) is Some {
                Some(InputFormat::Iso8601)
            } else {
                match parse_decimal_spec(token) {
                    Some((x, _)) => if x > 100_000_000_000 {
                        Some(InputFormat::UnixMs)
                    } else {
                        Some(InputFormat::Unix)
                    },
                    None => None,
                }
            }
        },
    }
}

/// Tries to automatically detect the timestamp format used.
///
/// Assumes the timestamp is in the beginning of the line, does not
/// contain whitespace (space or tab), and is followed by whitespace.
pub fn detect_format(s: &str) -> (r: Option<InputFormat>)
    ensures
        r == detect_format_spec(s@),
        r matches Some(f) ==> input_wf(f),
        // Detection never produces an offset or a custom pattern: those
        // take caller-supplied parameters.
        r matches Some(f) ==> (f is Unix || f is UnixMs || f is Iso8601),
{
    match find_ws(s) {
        None => None,
        Some(i) => {
            let token = s.substring_char(0, i);
            proof {
                assert(token@ =~= s@.take(i as int));
            }
            if chrono_parse(token, "%Y-%m-%dT%H:%M:%S%.f").is_some() {
                Some(InputFormat::Iso8601)
            } else {
                match parse_decimal(token) {
                    Some((x, _)) => if x > 100_000_000_000 {
                        Some(InputFormat::UnixMs)
                    } else {
                        Some(InputFormat::Unix)
                    },
                    None => None,
                }
            }
        },
    }
}

} // verus!
