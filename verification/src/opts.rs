//! The textual grammar of format choices: input-format names, output
//! formats with unit and precision options, comma-separated.

use vstd::prelude::*;
use crate::numeral::{all_digits, digits_val};
use crate::text::{first_index_in, lemma_first_index_in, find_char, str_eq};
use crate::parse::{InputFormat, parse_digits_bounded};
use crate::write::{Unit, Precision, OutputFormat};

verus! {

/// The pieces of `s` between its commas, in order; no commas gives
/// the one piece `s` itself.
pub open spec fn split_commas(s: Seq<char>) -> Seq<Seq<char>>
    decreases s.len(),
{
    match first_index_in(s, seq![',']) {
        None => seq![s],
        Some(i) => if 0 <= i < s.len() {
            seq![s.take(i)] + split_commas(s.subrange(i + 1, s.len() as int))
        } else {
            // A found index always lies inside the string; this branch
            // only convinces the termination check.
            seq![s]
        },
    }
}

/// Splits `s` at its commas.
fn split_commas_exec(s: &str) -> (r: Vec<String>)
    ensures
        r@.len() == split_commas(s@).len(),
        forall|i: int| 0 <= i < r@.len() ==> r@[i]@ == #[trigger] split_commas(s@)[i],
    decreases s@.len(),
{
    proof {
        lemma_first_index_in(s@, seq![',']);
    }
    match find_char(s, ',') {
        None => {
            let mut v: Vec<String> = Vec::new();
            v.push(s.to_owned());
            proof {
                assert(v@.len() == 1);
                assert(v@[0]@ == split_commas(s@)[0]);
            }
            v
        },
        Some(i) => {
            let n = s.unicode_len();
            let head = s.substring_char(0, i).to_owned();
            let rest = s.substring_char(i + 1, n);
            let mut v = split_commas_exec(rest);
            v.insert(0, head);
            proof {
                let parts = split_commas(s@);
                assert(parts == seq![s@.take(i as int)] + split_commas(
                    s@.subrange(i + 1, s@.len() as int),
                ));
                assert(head@ == parts[0]);
                assert forall|k: int| 0 <= k < v@.len() implies v@[k]@ == #[trigger] parts[k] by {
                    if k > 0 {
                        assert(v@[k] == v@.subrange(1, v@.len() as int)[k - 1]);
                    }
                }
            }
            v
        },
    }
}

/// The input format a name denotes.
pub open spec fn input_format_spec(s: Seq<char>) -> Result<InputFormat, Seq<char>> {
    if s == "unix"@ {
        Ok(InputFormat::Unix)
    } else if s == "unixms"@ {
        Ok(InputFormat::UnixMs)
    } else if s == "iso"@ {
        Ok(InputFormat::Iso8601)
    } else {
        Err("Invalid format"@)
    }
}

/// Parses an input-format name: `unix`, `unixms` or `iso`.
pub fn parse_input_format(s: &str) -> (r: Result<InputFormat, String>)
    ensures
        ({
            let sp = input_format_spec(s@);
            match r {
                Ok(f) => sp == Ok::<InputFormat, Seq<char>>(f),
                Err(e) => sp matches Err(m) && e@ == m,
            }
        }),
{
    if str_eq(s, "unix") {
        Ok(InputFormat::Unix)
    } else if str_eq(s, "unixms") {
        Ok(InputFormat::UnixMs)
    } else if str_eq(s, "iso") {
        Ok(InputFormat::Iso8601)
    } else {
        Err(String::from_str("Invalid format"))
    }
}

/// The unit a name denotes.
pub open spec fn unit_token(s: Seq<char>) -> Option<Unit> {
    if s == "s"@ {
        Some(Unit::Seconds)
    } else if s == "ms"@ {
        Some(Unit::Milliseconds)
    } else if s == "us"@ {
        Some(Unit::Microseconds)
    } else if s == "ns"@ {
        Some(Unit::Nanoseconds)
    } else {
        None
    }
}

/// Parses a unit name: `s`, `ms`, `us` or `ns`.
pub fn try_parse_unit(s: &str) -> (r: Option<Unit>)
    ensures
        r == unit_token(s@),
{
    if str_eq(s, "s") {
        Some(Unit::Seconds)
    } else if str_eq(s, "ms") {
        Some(Unit::Milliseconds)
    } else if str_eq(s, "us") {
        Some(Unit::Microseconds)
    } else if str_eq(s, "ns") {
        Some(Unit::Nanoseconds)
    } else {
        None
    }
}

/// The precision a token denotes: a dot, then digits denoting at most
/// nine.
pub open spec fn precision_token(s: Seq<char>) -> Option<Precision> {
    if s.len() >= 2 && s[0] == '.' && all_digits(s.subrange(1, s.len() as int)) && digits_val(
        s.subrange(1, s.len() as int),
    ) <= 9 {
        Some(Precision(digits_val(s.subrange(1, s.len() as int)) as usize))
    } else {
        None
    }
}

/// Parses a precision option such as `.3`.
pub fn try_parse_precision(s: &str) -> (r: Option<Precision>)
    ensures
        r == precision_token(s@),
        r matches Some(p) ==> p.0 <= 9,
{
    let n = s.unicode_len();
    if n < 2 {
        return None;
    }
    if s.get_char(0) != '.' {
        return None;
    }
    match parse_digits_bounded(s, 1, n, 9) {
        Some(v) => Some(Precision(v as usize)),
        None => None,
    }
}

/// The error text for an option that is neither a unit, a precision
/// nor a flag the format takes.
pub open spec fn invalid_arg_msg(a: Seq<char>) -> Seq<char> {
    "Invalid format argument \""@ + a + "\""@
}

/// Folds `iso` options over the remaining arguments: precision
/// choices and the `nodate` flag, the last occurrence winning.
pub open spec fn iso_opts(args: Seq<Seq<char>>, prec: Precision, time_only: bool) -> Result<
    OutputFormat,
    Seq<char>,
>
    decreases args.len(),
{
    if args.len() == 0 {
        Ok(OutputFormat::Iso8601 { prec, time_only })
    } else {
        let a = args[0];
        match precision_token(a) {
            Some(p2) => iso_opts(args.drop_first(), p2, time_only),
            None => if a == "nodate"@ {
                iso_opts(args.drop_first(), prec, true)
            } else {
                Err(invalid_arg_msg(a))
            },
        }
    }
}

/// Folds `unix` or `delta` options over the remaining arguments:
/// unit and precision choices, the last occurrence winning.
pub open spec fn scaled_opts(args: Seq<Seq<char>>, unit: Unit, prec: Precision) -> Result<
    (Unit, Precision),
    Seq<char>,
>
    decreases args.len(),
{
    if args.len() == 0 {
        Ok((unit, prec))
    } else {
        let a = args[0];
        match unit_token(a) {
            Some(u2) => scaled_opts(args.drop_first(), u2, prec),
            None => match precision_token(a) {
                Some(p2) => scaled_opts(args.drop_first(), unit, p2),
                None => Err(invalid_arg_msg(a)),
            },
        }
    }
}

/// The output format a comma-separated choice denotes: a format name
/// `iso`, `unix` or `delta`, then its options.
pub open spec fn output_format_spec(s: Seq<char>) -> Result<OutputFormat, Seq<char>> {
    let parts = split_commas(s);
    let rest = parts.drop_first();
    if parts[0] == "iso"@ {
        iso_opts(rest, Precision(0), false)
    } else if parts[0] == "unix"@ {
        match scaled_opts(rest, Unit::Seconds, Precision(0)) {
            Ok((u, p)) => Ok(OutputFormat::Unix(u, p)),
            Err(e) => Err(e),
        }
    } else if parts[0] == "delta"@ {
        match scaled_opts(rest, Unit::Seconds, Precision(0)) {
            Ok((u, p)) => Ok(OutputFormat::Delta(u, p)),
            Err(e) => Err(e),
        }
    } else {
        Err("Invalid output format"@)
    }
}

/// The message for an argument the format does not take.
fn invalid_arg_error(a: &str) -> (r: String)
    ensures
        r@ == invalid_arg_msg(a@),
{
    let mut msg = String::from_str("Invalid format argument \"");
    msg.append(a);
    msg.append("\"");
    msg
}

/// Parses an output-format choice such as `iso,.3,nodate` or
/// `unix,ms,.1` or `delta,.9`.
pub fn parse_output_format(s: &str) -> (r: Result<OutputFormat, String>)
    ensures
        ({
            let sp = output_format_spec(s@);
            match r {
                Ok(f) => sp == Ok::<OutputFormat, Seq<char>>(f) && format_prec_le_nine(f),
                Err(e) => sp matches Err(m) && e@ == m,
            }
        }),
{
    let parts = split_commas_exec(s);
    let ghost pviews = split_commas(s@);
    proof {
        assert(pviews.len() >= 1);
    }
    let head = &parts[0];
    if str_eq(head.as_str(), "iso") {
        let mut prec = Precision(0);
        let mut time_only = false;
        let mut k: usize = 1;
        while k < parts.len()
            invariant
                1 <= k <= parts.len(),
                pviews == split_commas(s@),
                pviews.len() >= 1,
                pviews[0] == "iso"@,
                parts@.len() == pviews.len(),
                forall|i: int| 0 <= i < parts@.len() ==> parts@[i]@ == #[trigger] pviews[i],
                prec.0 <= 9,
                iso_opts(pviews.subrange(k as int, pviews.len() as int), prec, time_only)
                    == iso_opts(pviews.drop_first(), Precision(0), false),
            decreases parts.len() - k,
        {
            let a = &parts[k];
            proof {
                assert(pviews.subrange(k as int, pviews.len() as int)[0] == pviews[k as int]);
                assert(pviews.subrange(k as int, pviews.len() as int).drop_first()
                    =~= pviews.subrange(k as int + 1, pviews.len() as int));
            }
            if let Some(p) = try_parse_precision(a.as_str()) {
                prec = p;
            } else if str_eq(a.as_str(), "nodate") {
                time_only = true;
            } else {
                return Err(invalid_arg_error(a.as_str()));
            }
            k = k + 1;
        }
        proof {
            assert(pviews.subrange(k as int, pviews.len() as int) =~= Seq::<Seq<char>>::empty());
        }
        Ok(OutputFormat::Iso8601 { prec, time_only })
    } else if str_eq(head.as_str(), "unix") {
        match scaled_options(&parts, Ghost(pviews)) {
            Ok((unit, prec)) => Ok(OutputFormat::Unix(unit, prec)),
            Err(e) => Err(e),
        }
    } else if str_eq(head.as_str(), "delta") {
        match scaled_options(&parts, Ghost(pviews)) {
            Ok((unit, prec)) => Ok(OutputFormat::Delta(unit, prec)),
            Err(e) => Err(e),
        }
    } else {
        Err(String::from_str("Invalid output format"))
    }
}

/// Precision stays within the writer's range.
pub open spec fn format_prec_le_nine(f: OutputFormat) -> bool {
    crate::write::format_prec(f) <= 9
}

/// Folds unit and precision options over the arguments after the
/// format name.
fn scaled_options(parts: &Vec<String>, pviews: Ghost<Seq<Seq<char>>>) -> (r: Result<
    (Unit, Precision),
    String,
>)
    requires
        parts@.len() == pviews@.len(),
        parts@.len() >= 1,
        forall|i: int| 0 <= i < parts@.len() ==> parts@[i]@ == #[trigger] pviews@[i],
    ensures
        ({
            let sp = scaled_opts(pviews@.drop_first(), Unit::Seconds, Precision(0));
            match r {
                Ok((u, p)) => sp == Ok::<(Unit, Precision), Seq<char>>((u, p)) && p.0 <= 9,
                Err(e) => sp matches Err(m) && e@ == m,
            }
        }),
{
    let mut unit = Unit::Seconds;
    let mut prec = Precision(0);
    let mut k: usize = 1;
    while k < parts.len()
        invariant
            1 <= k <= parts.len(),
            parts@.len() == pviews@.len(),
            forall|i: int| 0 <= i < parts@.len() ==> parts@[i]@ == #[trigger] pviews@[i],
            prec.0 <= 9,
            scaled_opts(pviews@.subrange(k as int, pviews@.len() as int), unit, prec)
                == scaled_opts(pviews@.drop_first(), Unit::Seconds, Precision(0)),
        decreases parts.len() - k,
    {
        let a = &parts[k];
        proof {
            assert(pviews@.subrange(k as int, pviews@.len() as int)[0] == pviews@[k as int]);
            assert(pviews@.subrange(k as int, pviews@.len() as int).drop_first()
                =~= pviews@.subrange(k as int + 1, pviews@.len() as int));
        }
        if let Some(u) = try_parse_unit(a.as_str()) {
            unit = u;
        } else if let Some(p) = try_parse_precision(a.as_str()) {
            prec = p;
        } else {
            return Err(invalid_arg_error(a.as_str()));
        }
        k = k + 1;
    }
    proof {
        assert(pviews@.subrange(k as int, pviews@.len() as int) =~= Seq::<Seq<char>>::empty());
    }
    Ok((unit, prec))
}

} // verus!
