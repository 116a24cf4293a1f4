//! Writing timestamps: exact integer fixed-point rendering in a chosen
//! unit and precision, and the output-format dispatch.

use vstd::prelude::*;
use vstd::arithmetic::power::{pow, lemma_pow_adds, lemma_pow_positive};
use vstd::arithmetic::div_mod::lemma_multiply_divide_lt;
use crate::numeral::{pow10, pow10_u64, u128_to_string, padded_to_string, dec_str, padded_str};
use crate::timestamp::{Timestamp, NANOS_PER_SEC, split_nanos, nanos_representable};
use crate::cal::{iso_render, chrono_render, ISO_SECS_LIMIT};

verus! {

/// The unit in which the writer scales a value.
#[derive(Clone, Copy, Debug, PartialEq, Eq, Structural)]
pub enum Unit {
    Seconds,
    Milliseconds,
    Microseconds,
    Nanoseconds,
}

/// How many fractional digits the writer renders, between 0 and 9.
#[derive(Clone, Copy, Debug, PartialEq, Eq, Structural)]
pub struct Precision(pub usize);

/// The output representation of a timestamp.
#[derive(Clone, Copy, Debug, PartialEq, Eq, Structural)]
pub enum OutputFormat {
    /// Calendar date and time, or time alone, with a fixed-width fraction.
    Iso8601 { prec: Precision, time_only: bool },
    /// The timestamp itself, unit-scaled.
    Unix(Unit, Precision),
    /// The signed duration since the previous timestamp, unit-scaled.
    Delta(Unit, Precision),
}

/// The ordinal of a unit: how many factors of one thousand it is
/// finer than seconds.
pub open spec fn unit_ord(u: Unit) -> int {
    match u {
        Unit::Seconds => 0,
        Unit::Milliseconds => 1,
        Unit::Microseconds => 2,
        Unit::Nanoseconds => 3,
    }
}

/// How many decimal digits of a nanosecond count lie below one unit.
pub open spec fn frac_width(u: Unit) -> nat {
    (9 - 3 * unit_ord(u)) as nat
}

/// The fixed-point rendering of a value of `v` nanoseconds in the
/// given unit with the given precision.
///
/// The integer part is the unit-scaled magnitude, truncated; a `-`
/// sign precedes it for negative values (the sign belongs to the whole
/// value). With positive precision a dot follows, then exactly `prec`
/// digits: the sub-unit remainder truncated to `prec` digits when it
/// has more, or right-padded with zeros when it has fewer.
pub open spec fn fixed_point_str(v: int, u: Unit, prec: int) -> Seq<char> {
    let m = if v < 0 {
        -v
    } else {
        v
    };
    let fw = frac_width(u);
    let full = m / pow10(fw);
    let frac = m % pow10(fw);
    let sign: Seq<char> = if v < 0 {
        seq!['-']
    } else {
        Seq::<char>::empty()
    };
    if prec <= 0 {
        sign + dec_str(full as nat)
    } else {
        let scaled = if fw >= prec {
            frac / pow10((fw - prec) as nat)
        } else {
            frac * pow10((prec - fw) as nat)
        };
        sign + dec_str(full as nat) + seq!['.'] + padded_str(scaled as nat, prec as nat)
    }
}

/// Renders `seconds` and `nanos` in the given unit and precision using
/// exact integer arithmetic. The nanosecond fraction counts forward
/// from `seconds` even when `seconds` is negative.
pub fn format_seconds(seconds: i64, nanos: u32, units: Unit, prec: Precision) -> (r: String)
    requires
        prec.0 <= 9,
        nanos < NANOS_PER_SEC,
    ensures
        r@ == fixed_point_str(seconds * (NANOS_PER_SEC as int) + nanos, units, prec.0 as int),
{
    let p: usize = prec.0;
    let v: i128 = (seconds as i128) * 1_000_000_000 + (nanos as i128);
    let neg = v < 0;
    let m: u128 = if neg {
        (-v) as u128
    } else {
        v as u128
    };
    let uord: u32 = match units {
        Unit::Seconds => 0,
        Unit::Milliseconds => 1,
        Unit::Microseconds => 2,
        Unit::Nanoseconds => 3,
    };
    let fw: u32 = 9 - 3 * uord;
    let rmag: u64 = pow10_u64(fw);
    let full: u128 = m / (rmag as u128);
    let frac: u64 = (m % (rmag as u128)) as u64;
    proof {
        lemma_pow_positive(10, fw as nat);
    }

    let mut out = String::new();
    if neg {
        out.append("-");
        proof {
            reveal_strlit("-");
            assert(out@ =~= seq!['-']);
        }
    }
    let int_part = u128_to_string(full);
    out.append(int_part.as_str());
    if p > 0 {
        out.append(".");
        let scaled: u64 = if fw >= p as u32 {
            frac / pow10_u64(fw - p as u32)
        } else {
            proof {
                lemma_pow_positive(10, (p - fw) as nat);
                lemma_pow_adds(10, fw as nat, (p - fw) as nat);
                assert(pow10(9) == 1_000_000_000) by {
                    reveal_with_fuel(pow, 10);
                }
                assert((frac as int) * pow10((p - fw) as nat) <= pow10(p as nat) - pow10(
                    (p - fw) as nat,
                )) by (nonlinear_arith)
                    requires
                        frac as int <= pow10(fw as nat) - 1,
                        pow10((p - fw) as nat) >= 1,
                        pow10(fw as nat) * pow10((p - fw) as nat) == pow10(p as nat),
                ;
                vstd::arithmetic::power::lemma_pow_increases(10, p as nat, 9);
            }
            frac * pow10_u64(p as u32 - fw)
        };
        proof {
            if fw >= p as u32 {
                lemma_pow_positive(10, (fw - p) as nat);
                lemma_pow_adds(10, (fw - p) as nat, p as nat);
                lemma_multiply_divide_lt(frac as int, pow10((fw - p) as nat), pow10(p as nat));
            }
        }
        let fpart = padded_to_string(scaled, p as u32);
        out.append(fpart.as_str());
        proof {
            reveal_strlit(".");
            assert(out@ =~= fixed_point_str(
                seconds * (NANOS_PER_SEC as int) + nanos,
                units,
                prec.0 as int,
            ));
        }
        out
    } else {
        proof {
            assert(out@ =~= fixed_point_str(
                seconds * (NANOS_PER_SEC as int) + nanos,
                units,
                prec.0 as int,
            ));
        }
        out
    }
}

/// The timestamp a delta is measured against: the previous one, or the
/// timestamp itself when there is none (a zero delta).
pub open spec fn prev_or(t: Timestamp, prev: Option<Timestamp>) -> Timestamp {
    match prev {
        Some(p) => p,
        None => t,
    }
}

/// The signed duration, in nanoseconds, from the previous timestamp.
pub open spec fn delta_nanos(t: Timestamp, prev: Option<Timestamp>) -> int {
    t.as_nanos() - prev_or(t, prev).as_nanos()
}

/// A calendar rendering cut down to the requested precision: the dot
/// and all nine fraction digits go at precision zero, otherwise all
/// but the first `prec` fraction digits go.
pub open spec fn iso_trunc(s: Seq<char>, prec: int) -> Seq<char> {
    if prec == 0 {
        s.take(s.len() - 10)
    } else {
        s.take(s.len() - 9 + prec)
    }
}

/// The precision a format asks for.
pub open spec fn format_prec(format: OutputFormat) -> int {
    match format {
        OutputFormat::Iso8601 { prec, .. } => prec.0 as int,
        OutputFormat::Unix(_, prec) => prec.0 as int,
        OutputFormat::Delta(_, prec) => prec.0 as int,
    }
}

/// Whether the writer can render `t` under `format` at all: a calendar
/// rendering needs the timestamp within the calendar range, and a
/// delta must fit a signed 64-bit nanosecond count.
pub open spec fn renderable(format: OutputFormat, t: Timestamp, prev_t: Option<Timestamp>) -> bool {
    match format {
        OutputFormat::Iso8601 { .. } => -ISO_SECS_LIMIT <= t.secs <= ISO_SECS_LIMIT,
        OutputFormat::Unix(..) => true,
        OutputFormat::Delta(..) => -i64::MAX <= delta_nanos(t, prev_t) <= i64::MAX,
    }
}

/// What the writer may be asked to render: well-formed timestamps, a
/// precision of at most nine, and a renderable value.
pub open spec fn write_req(format: OutputFormat, t: Timestamp, prev_t: Option<Timestamp>) -> bool {
    &&& t.wf()
    &&& (prev_t matches Some(p) ==> p.wf())
    &&& format_prec(format) <= 9
    &&& renderable(format, t, prev_t)
}

/// Decides whether `t` is renderable under `format`.
pub fn write_allowed(format: OutputFormat, t: Timestamp, prev_t: Option<Timestamp>) -> (r: bool)
    requires
        t.wf(),
        prev_t matches Some(p) ==> p.wf(),
    ensures
        r == renderable(format, t, prev_t),
{
    match format {
        OutputFormat::Iso8601 { .. } => -ISO_SECS_LIMIT <= t.secs && t.secs <= ISO_SECS_LIMIT,
        OutputFormat::Unix(..) => true,
        OutputFormat::Delta(..) => {
            let base = match prev_t {
                Some(p) => p,
                None => t,
            };
            let d: i128 = ((t.secs as i128) - (base.secs as i128)) * 1_000_000_000 + (
            t.nanos as i128) - (base.nanos as i128);
            -(i64::MAX as i128) <= d && d <= i64::MAX as i128
        },
    }
}

/// What the writer renders for each output format.
pub open spec fn write_spec(format: OutputFormat, t: Timestamp, prev_t: Option<Timestamp>) -> Seq<
    char,
> {
    match format {
        OutputFormat::Iso8601 { prec, time_only } => iso_trunc(
            iso_render(t.secs as int, t.nanos as int, time_only),
            prec.0 as int,
        ),
        OutputFormat::Unix(unit, prec) => fixed_point_str(t.as_nanos(), unit, prec.0 as int),
        OutputFormat::Delta(unit, prec) => fixed_point_str(
            delta_nanos(t, prev_t),
            unit,
            prec.0 as int,
        ),
    }
}

/// Renders `t` (or its delta against `prev_t`) under the given output
/// format.
pub fn write(format: OutputFormat, t: Timestamp, prev_t: Option<Timestamp>) -> (r: String)
    requires
        write_req(format, t, prev_t),
    ensures
        r@ == write_spec(format, t, prev_t),
{
    match format {
        OutputFormat::Iso8601 { prec, time_only } => {
            let full = chrono_render(t.secs, t.nanos, time_only);
            let n = full.as_str().unicode_len();
            let end: usize = if prec.0 == 0 {
                n - 10
            } else {
                n - 9 + prec.0
            };
            let cut = full.as_str().substring_char(0, end);
            let r = cut.to_owned();
            proof {
                assert(r@ =~= write_spec(format, t, prev_t));
            }
            r
        },
        OutputFormat::Unix(unit, prec) => format_seconds(t.secs, t.nanos, unit, prec),
        OutputFormat::Delta(unit, prec) => {
            let base = match prev_t {
                Some(p) => p,
                None => t,
            };
            let d: i128 = ((t.secs as i128) - (base.secs as i128)) * 1_000_000_000 + (
            t.nanos as i128) - (base.nanos as i128);
            let dt = split_nanos(d);
            format_seconds(dt.secs, dt.nanos, unit, prec)
        },
    }
}

} // verus!
