//! One step of the line-rewriting pipeline: detect the input format if
//! it is still unknown, split and parse the line, render the timestamp,
//! and thread the previous timestamp to the next step.

use vstd::prelude::*;
use crate::parse::{
    InputFormat, input_wf, detect_format, detect_format_spec, parse_line, parse_line_spec,
};
use crate::write::{
    OutputFormat, write_spec, write_allowed, renderable, format_prec,
};
use crate::timestamp::Timestamp;

verus! {

/// What one line-processing step yields: the input format to use from
/// now on, the rendered timestamp text (empty when there is none), the
/// untouched remainder of the line, and the previous timestamp for the
/// next step.
///
/// An unknown format is detected from the line, or stays unknown; the
/// line then passes through unchanged. A parsed timestamp is rendered
/// and becomes the new previous timestamp, except when the output
/// format cannot render it (a calendar rendering out of the calendar
/// range, or an oversized delta): such a line passes through unchanged
/// like an unparsed one, though the parsed timestamp still becomes the
/// previous one. A line without a parsed timestamp leaves the previous
/// timestamp unchanged.
pub open spec fn process_line_spec(
    informat: Option<InputFormat>,
    outformat: OutputFormat,
    prev: Option<Timestamp>,
    line: Seq<char>,
) -> (Option<InputFormat>, Seq<char>, Seq<char>, Option<Timestamp>) {
    let fmt = if informat is Some {
        informat
    } else {
        detect_format_spec(line)
    };
    match fmt {
        None => (None::<InputFormat>, Seq::<char>::empty(), line, prev),
        Some(f) => {
            let parsed = parse_line_spec(line, f);
            match parsed.0 {
                Some(t) => if renderable(outformat, t, prev) {
                    (Some(f), write_spec(outformat, t, prev), parsed.1, Some(t))
                } else {
                    (Some(f), Seq::<char>::empty(), line, Some(t))
                },
                None => (Some(f), Seq::<char>::empty(), parsed.1, prev),
            }
        },
    }
}

/// Processes one line: returns the format to keep using, the rendered
/// timestamp text, the remainder of the line, and the new previous
/// timestamp.
pub fn process_line<'a>(
    informat: Option<InputFormat>,
    outformat: &OutputFormat,
    prev: Option<Timestamp>,
    line: &'a str,
) -> (r: (Option<InputFormat>, String, &'a str, Option<Timestamp>))
    requires
        format_prec(*outformat) <= 9,
        informat matches Some(f) ==> input_wf(f),
        prev matches Some(p) ==> p.wf(),
    ensures
        ({
            let sp = process_line_spec(informat, *outformat, prev, line@);
            &&& r.0 == sp.0
            &&& r.1@ == sp.1
            &&& r.2@ == sp.2
            &&& r.3 == sp.3
        }),
        r.0 matches Some(f) ==> input_wf(f),
        r.3 matches Some(t) ==> t.wf(),
{
    let fmt: Option<InputFormat> = match informat {
        Some(f) => Some(f),
        None => detect_format(line),
    };
    match fmt {
        None => (None, String::new(), line, prev),
        Some(f) => {
            let (intime, rest) = parse_line(line, &f);
            match intime {
                Some(t) => {
                    if write_allowed(*outformat, t, prev) {
                        let out = crate::write::write(*outformat, t, prev);
                        (Some(f), out, rest, Some(t))
                    } else {
                        (Some(f), String::new(), line, Some(t))
                    }
                },
                None => (Some(f), String::new(), rest, prev),
            }
        },
    }
}

} // verus!
