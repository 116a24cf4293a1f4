//! Laws relating the parser and the writer.

use vstd::prelude::*;
use vstd::arithmetic::power::pow;
use crate::numeral::{
    pow10, all_digits, digits_val, is_digit_char, dec_str, padded_str, lemma_dec_str_digits,
    lemma_padded_str_digits, lemma_digit_not_punct, lemma_right_pad_zeros,
};
use crate::text::{first_dot, first_index_in, lemma_first_index_in, lemma_first_index_in_append};
use crate::parse::{parse_decimal_spec, parse_string_spec, int_token_val, InputFormat};
use crate::write::{fixed_point_str, write_spec, frac_width, OutputFormat, Unit, Precision};
use crate::timestamp::{Timestamp, NANOS_PER_SEC};

verus! {

/// A decimal token without a decimal point always parses with a
/// nanosecond component of exactly zero.
pub proof fn lemma_integer_token_zero_nanos(s: Seq<char>)
    requires
        first_dot(s) is None,
    ensures
        parse_decimal_spec(s) matches Some(p) ==> p.1 == 0,
{
}

/// The nanosecond value of a parsed fraction of up to nine digits is
/// the fraction right-padded with zero digits to nine, read as an
/// integer.
pub proof fn lemma_fraction_right_padding(fp: Seq<char>)
    requires
        all_digits(fp),
        1 <= fp.len() <= 9,
    ensures
        digits_val(fp) * pow10((9 - fp.len()) as nat) == digits_val(
            fp + Seq::new((9 - fp.len()) as nat, |i: int| '0'),
        ),
{
    lemma_right_pad_zeros(fp, (9 - fp.len()) as nat);
}

/// Characters beyond the ninth fraction digit are ignored: once a
/// token has a point followed by nine characters, anything appended
/// after them leaves the parse unchanged.
pub proof fn lemma_fraction_extra_ignored(s: Seq<char>, u: Seq<char>)
    requires
        match first_dot(s) {
            Some(i) => s.len() >= i + 10,
            None => false,
        },
    ensures
        parse_decimal_spec(s + u) == parse_decimal_spec(s),
{
    let i = first_dot(s)->Some_0;
    lemma_first_index_in(s, seq!['.']);
    lemma_first_index_in_append(s, u, seq!['.']);
    assert((s + u).take(i) =~= s.take(i));
    assert((s + u).subrange(i + 1, i + 10) =~= s.subrange(i + 1, i + 10));
}

/// At precision zero the fixed-point rendering has no decimal point.
/// At positive precision the rendering carries exactly one decimal
/// point, followed by exactly `prec` digits and nothing else.
pub proof fn lemma_fraction_width(v: int, u: Unit, prec: int)
    requires
        0 <= prec <= 9,
    ensures
        ({
            let s = fixed_point_str(v, u, prec);
            &&& prec == 0 ==> forall|i: int| 0 <= i < s.len() ==> #[trigger] s[i] != '.'
            &&& prec > 0 ==> {
                &&& s.len() >= prec + 2
                &&& s[s.len() - prec - 1] == '.'
                &&& (forall|j: int|
                    s.len() - prec <= j < s.len() ==> is_digit_char(#[trigger] s[j]))
                &&& (forall|j: int| 0 <= j < s.len() - prec - 1 ==> #[trigger] s[j] != '.')
            }
        }),
{
    let m = if v < 0 {
        -v
    } else {
        v
    };
    let fw = frac_width(u);
    let full = (m / pow10(fw)) as nat;
    vstd::arithmetic::power::lemma_pow_positive(10, fw);
    vstd::arithmetic::div_mod::lemma_div_pos_is_pos(m, pow10(fw));
    lemma_dec_str_digits(full);
    let sign: Seq<char> = if v < 0 {
        seq!['-']
    } else {
        Seq::<char>::empty()
    };
    let a = sign + dec_str(full);
    assert forall|i: int| 0 <= i < a.len() implies #[trigger] a[i] != '.' by {
        if v < 0 && i == 0 {
        } else {
            assert(a[i] == dec_str(full)[i - sign.len()]);
            lemma_digit_not_punct(dec_str(full)[i - sign.len()]);
        }
    }
    let s = fixed_point_str(v, u, prec);
    if prec == 0 {
        assert(s =~= a);
    } else {
        let frac = m % pow10(fw);
        let scaled = if fw >= prec {
            frac / pow10((fw - prec) as nat)
        } else {
            frac * pow10((prec - fw) as nat)
        };
        let p = padded_str(scaled as nat, prec as nat);
        lemma_padded_str_digits(scaled as nat, prec as nat);
        assert(s =~= a + seq!['.'] + p);
        assert(s.len() == a.len() + 1 + prec);
        assert(s[s.len() - prec - 1] == '.');
        assert forall|j: int| s.len() - prec <= j < s.len() implies is_digit_char(
            #[trigger] s[j],
        ) by {
            assert(s[j] == p[j - (a.len() + 1)]);
        }
        assert forall|j: int| 0 <= j < s.len() - prec - 1 implies #[trigger] s[j] != '.' by {
            assert(s[j] == a[j]);
        }
    }
}

/// Raising the precision of a fixed-point rendering and then cutting
/// the text back down to the original precision gives exactly the
/// original rendering: padding and truncation add no information.
/// Cutting to precision zero also removes the decimal point.
pub proof fn lemma_precision_truncation(v: int, u: Unit, p: int, q: int)
    requires
        0 <= p <= q <= 9,
    ensures
        ({
            let fq = fixed_point_str(v, u, q);
            let fp = fixed_point_str(v, u, p);
            fp == if p == 0 && q > 0 {
                fq.take(fq.len() - (q + 1))
            } else {
                fq.take(fq.len() - (q - p))
            }
        }),
{
    let m = if v < 0 {
        -v
    } else {
        v
    };
    let fw = frac_width(u);
    vstd::arithmetic::power::lemma_pow_positive(10, fw);
    let full = (m / pow10(fw)) as nat;
    vstd::arithmetic::div_mod::lemma_div_pos_is_pos(m, pow10(fw));
    lemma_dec_str_digits(full);
    let frac = m % pow10(fw);
    let sign: Seq<char> = if v < 0 {
        seq!['-']
    } else {
        Seq::<char>::empty()
    };
    let a = sign + dec_str(full);
    let fq = fixed_point_str(v, u, q);
    let fp = fixed_point_str(v, u, p);
    if q == 0 {
        assert(fq.take(fq.len() - 0) =~= fq);
    } else {
        let scaled_q = if fw >= q {
            frac / pow10((fw - q) as nat)
        } else {
            frac * pow10((q - fw) as nat)
        };
        let pq = padded_str(scaled_q as nat, q as nat);
        lemma_padded_str_digits(scaled_q as nat, q as nat);
        assert(fq =~= a + seq!['.'] + pq);
        if p == 0 {
            assert(fq.take(fq.len() - (q + 1)) =~= a);
            assert(fp =~= a);
        } else {
            let scaled_p = if fw >= p {
                frac / pow10((fw - p) as nat)
            } else {
                frac * pow10((p - fw) as nat)
            };
            // The first `p` padded digits of `scaled_q` render
            // `scaled_q / 10^(q-p)`, which is exactly `scaled_p`.
            crate::numeral::lemma_padded_str_prefix(scaled_q as nat, q as nat, p as nat);
            vstd::arithmetic::power::lemma_pow_positive(10, (q - p) as nat);
            if fw >= q {
                vstd::arithmetic::power::lemma_pow_positive(10, (fw - q) as nat);
                vstd::arithmetic::div_mod::lemma_div_denominator(
                    frac,
                    pow10((fw - q) as nat),
                    pow10((q - p) as nat),
                );
                vstd::arithmetic::power::lemma_pow_adds(10, (fw - q) as nat, (q - p) as nat);
                assert(scaled_q / pow10((q - p) as nat) == scaled_p);
            } else if fw >= p {
                let c = pow10((q - fw) as nat);
                let d = pow10((fw - p) as nat);
                vstd::arithmetic::power::lemma_pow_positive(10, (q - fw) as nat);
                vstd::arithmetic::power::lemma_pow_positive(10, (fw - p) as nat);
                vstd::arithmetic::power::lemma_pow_adds(10, (q - fw) as nat, (fw - p) as nat);
                assert(pow10((q - p) as nat) == c * d);
                vstd::arithmetic::div_mod::lemma_div_denominator(frac * c, c, d);
                vstd::arithmetic::div_mod::lemma_div_by_multiple(frac, c);
                assert(scaled_q / pow10((q - p) as nat) == scaled_p);
            } else {
                let c = pow10((p - fw) as nat);
                let d = pow10((q - p) as nat);
                vstd::arithmetic::power::lemma_pow_positive(10, (p - fw) as nat);
                vstd::arithmetic::power::lemma_pow_adds(10, (p - fw) as nat, (q - p) as nat);
                assert(pow10((q - fw) as nat) == c * d);
                assert(frac * (c * d) == (frac * c) * d) by (nonlinear_arith);
                vstd::arithmetic::div_mod::lemma_div_by_multiple(frac * c, d);
                assert(scaled_q / pow10((q - p) as nat) == scaled_p);
            }
            assert((scaled_q as nat) / (pow10((q - p) as nat) as nat) == scaled_p as nat);
            assert(fq.take(fq.len() - (q - p)) =~= a + seq!['.'] + pq.take(p));
            assert(fp =~= a + seq!['.'] + padded_str(scaled_p as nat, p as nat));
        }
    }
}

/// Rendering a whole-second timestamp as Unix seconds at precision
/// zero and parsing the text back as Unix input returns the original
/// timestamp.
pub proof fn lemma_unix_seconds_roundtrip(t: Timestamp)
    requires
        t.wf(),
        t.nanos == 0,
    ensures
        parse_string_spec(
            write_spec(OutputFormat::Unix(Unit::Seconds, Precision(0)), t, None),
            InputFormat::Unix,
        ) == Some(t),
{
    let v = t.as_nanos();
    let m = if v < 0 {
        -v
    } else {
        v
    };
    let mag = if t.secs < 0 {
        -(t.secs as int)
    } else {
        t.secs as int
    };
    assert(m == mag * (NANOS_PER_SEC as int));
    let fw = frac_width(Unit::Seconds);
    assert(pow10(fw) == NANOS_PER_SEC) by {
        reveal_with_fuel(pow, 10);
    }
    vstd::arithmetic::div_mod::lemma_div_by_multiple(mag, NANOS_PER_SEC as int);
    let full = (m / pow10(fw)) as nat;
    assert(full == mag);
    lemma_dec_str_digits(full);

    let sign: Seq<char> = if v < 0 {
        seq!['-']
    } else {
        Seq::<char>::empty()
    };
    let s = write_spec(OutputFormat::Unix(Unit::Seconds, Precision(0)), t, None);
    assert(s == fixed_point_str(v, Unit::Seconds, 0));
    assert(s =~= sign + dec_str(full));

    // No character of the rendering is a decimal point.
    assert forall|i: int| 0 <= i < s.len() implies #[trigger] s[i] != '.' by {
        if v < 0 && i == 0 {
        } else {
            assert(s[i] == dec_str(full)[i - sign.len()]);
            lemma_digit_not_punct(dec_str(full)[i - sign.len()]);
        }
    }
    lemma_first_index_in(s, seq!['.']);
    match first_index_in(s, seq!['.']) {
        Some(i) => {
            assert(seq!['.'].contains(s[i]));
            assert(s[i] == '.');
            assert(false);
        },
        None => {},
    }

    // The rendering is a valid signed integer token denoting `t.secs`.
    if v < 0 {
        assert(s[0] == '-');
        assert(s.drop_first() =~= dec_str(full));
        assert(int_token_val(s) == Some(-digits_val(dec_str(full))));
    } else {
        assert(s =~= dec_str(full));
        assert(s[0] == dec_str(full)[0]);
        lemma_digit_not_punct(s[0]);
        assert(digits_val(s) == mag);
        assert(int_token_val(s) == Some(digits_val(dec_str(full))));
    }
    assert(parse_decimal_spec(s) == Some((t.secs as int, 0int)));
}

} // verus!
