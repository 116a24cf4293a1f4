//! Decimal numerals: spec-level digit strings and verified rendering
//! and parsing of unsigned decimal numbers.

use vstd::prelude::*;
use vstd::arithmetic::power::{pow, lemma_pow_adds, lemma_pow_positive};
use vstd::arithmetic::div_mod::{lemma_div_denominator, lemma_fundamental_div_mod};

verus! {

/// Ten to the `e`-th power.
pub open spec fn pow10(e: nat) -> int {
    pow(10, e)
}

/// `c` is one of the ten ASCII decimal digits.
pub open spec fn is_digit_char(c: char) -> bool {
    48 <= c as u32 <= 57
}

/// Numeric value of a digit character.
pub open spec fn digit_val(c: char) -> int {
    c as u32 - 48
}

/// The digit character for a value between 0 and 9.
pub open spec fn digit_char(d: int) -> char {
    if d == 0 {
        '0'
    } else if d == 1 {
        '1'
    } else if d == 2 {
        '2'
    } else if d == 3 {
        '3'
    } else if d == 4 {
        '4'
    } else if d == 5 {
        '5'
    } else if d == 6 {
        '6'
    } else if d == 7 {
        '7'
    } else if d == 8 {
        '8'
    } else {
        '9'
    }
}

/// Every character of `s` is a decimal digit.
pub open spec fn all_digits(s: Seq<char>) -> bool {
    forall|i: int| 0 <= i < s.len() ==> is_digit_char(#[trigger] s[i])
}

/// The number denoted by a digit string, most significant digit first.
pub open spec fn digits_val(s: Seq<char>) -> int
    decreases s.len(),
{
    if s.len() == 0 {
        0
    } else {
        digits_val(s.drop_last()) * 10 + digit_val(s.last())
    }
}

/// The shortest decimal rendering of `n` (a single `0` for zero).
pub open spec fn dec_str(n: nat) -> Seq<char>
    decreases n,
{
    if n < 10 {
        seq![digit_char(n as int)]
    } else {
        dec_str(n / 10).push(digit_char((n % 10) as int))
    }
}

/// The decimal rendering of `n` zero-padded to exactly `w` digits,
/// keeping only the `w` least significant digits of `n`.
pub open spec fn padded_str(n: nat, w: nat) -> Seq<char>
    decreases w,
{
    if w == 0 {
        Seq::empty()
    } else {
        padded_str(n / 10, (w - 1) as nat).push(digit_char((n % 10) as int))
    }
}

pub proof fn lemma_digit_char_val(d: int)
    requires
        0 <= d < 10,
    ensures
        is_digit_char(digit_char(d)),
        digit_val(digit_char(d)) == d,
{
}

/// A digit is none of the punctuation characters the parsers split on.
pub proof fn lemma_digit_not_punct(c: char)
    requires
        is_digit_char(c),
    ensures
        c != '.' && c != '-' && c != '+' && c != ' ' && c != '\t' && c != ',',
{
    assert('.' as u32 == 46 && '-' as u32 == 45 && '+' as u32 == 43 && ' ' as u32 == 32
        && '\t' as u32 == 9 && ',' as u32 == 44);
}

pub proof fn lemma_digits_val_bounds(s: Seq<char>)
    requires
        all_digits(s),
    ensures
        0 <= digits_val(s) < pow10(s.len()),
    decreases s.len(),
{
    if s.len() == 0 {
        assert(pow10(0) == 1) by {
            reveal_with_fuel(pow, 1);
        }
    } else {
        assert(all_digits(s.drop_last()));
        lemma_digits_val_bounds(s.drop_last());
        assert(is_digit_char(s.last()));
        assert(pow10(s.len()) == 10 * pow10((s.len() - 1) as nat)) by {
            reveal_with_fuel(pow, 2);
            lemma_pow_adds(10, 1, (s.len() - 1) as nat);
            assert(pow(10, 1) == 10) by {
                reveal_with_fuel(pow, 2);
            }
        }
    }
}

/// A digit string denotes at least as much as any of its prefixes.
pub proof fn lemma_digits_val_prefix_le(s: Seq<char>, i: int)
    requires
        all_digits(s),
        0 <= i <= s.len(),
    ensures
        digits_val(s.take(i)) <= digits_val(s),
    decreases s.len() - i,
{
    if i < s.len() {
        lemma_digits_val_prefix_le(s, i + 1);
        assert(s.take(i + 1).drop_last() =~= s.take(i));
        assert(all_digits(s.take(i))) by {
            assert(forall|j: int| 0 <= j < i ==> s.take(i)[j] == #[trigger] s[j]);
        }
        lemma_digits_val_bounds(s.take(i));
        assert(digits_val(s.take(i + 1)) == digits_val(s.take(i)) * 10 + digit_val(s.take(i + 1).last()));
        assert(0 <= digit_val(s[i]));
        assert(digits_val(s.take(i)) <= digits_val(s.take(i)) * 10) by (nonlinear_arith)
            requires 0 <= digits_val(s.take(i)),
        ;
    } else {
        assert(s.take(i) =~= s);
    }
}

pub proof fn lemma_dec_str_digits(n: nat)
    ensures
        dec_str(n).len() >= 1,
        all_digits(dec_str(n)),
        digits_val(dec_str(n)) == n,
    decreases n,
{
    if n < 10 {
        lemma_digit_char_val(n as int);
        let s = dec_str(n);
        assert(s.drop_last() =~= Seq::<char>::empty());
        assert(digits_val(Seq::<char>::empty()) == 0);
        assert(digits_val(s) == digit_val(digit_char(n as int)));
    } else {
        lemma_dec_str_digits(n / 10);
        lemma_digit_char_val((n % 10) as int);
        let s = dec_str(n);
        assert(s.drop_last() =~= dec_str(n / 10));
        assert(s.last() == digit_char((n % 10) as int));
        assert(forall|i: int| 0 <= i < s.len() ==> is_digit_char(#[trigger] s[i])) by {
            assert(forall|i: int| 0 <= i < s.len() - 1 ==> s[i] == #[trigger] dec_str(n / 10)[i]);
        }
        assert(digits_val(s) == (n / 10) * 10 + n % 10);
        assert((n / 10) * 10 + n % 10 == n) by {
            lemma_fundamental_div_mod(n as int, 10);
        }
    }
}

pub proof fn lemma_padded_str_digits(n: nat, w: nat)
    ensures
        padded_str(n, w).len() == w,
        all_digits(padded_str(n, w)),
    decreases w,
{
    if w != 0 {
        lemma_padded_str_digits(n / 10, (w - 1) as nat);
        lemma_digit_char_val((n % 10) as int);
        let s = padded_str(n, w);
        assert(forall|i: int| 0 <= i < s.len() - 1 ==> s[i] == #[trigger] padded_str(n / 10, (w - 1) as nat)[i]);
    }
}

/// Taking a prefix of a padded rendering drops the least significant
/// digits of the value: the first `p` of `w` digits render `n / 10^(w-p)`.
pub proof fn lemma_padded_str_prefix(n: nat, w: nat, p: nat)
    requires
        p <= w,
    ensures
        padded_str(n, w).take(p as int) == padded_str(n / (pow10((w - p) as nat) as nat), p),
    decreases w,
{
    lemma_padded_str_digits(n, w);
    lemma_padded_str_digits(n / 10, (w - 1) as nat);
    if p == w {
        assert(pow10(0) == 1) by {
            reveal_with_fuel(pow, 1);
        }
        assert(n / 1 == n);
        assert(padded_str(n, w).take(p as int) =~= padded_str(n, w));
    } else {
        // p < w, so the last digit is dropped and the claim reduces to n / 10.
        lemma_padded_str_prefix(n / 10, (w - 1) as nat, p);
        assert(padded_str(n, w).take(p as int) =~= padded_str(n / 10, (w - 1) as nat).take(p as int));
        let e = (w - p - 1) as nat;
        assert(pow10((w - p) as nat) == 10 * pow10(e)) by {
            lemma_pow_adds(10, 1, e);
            assert(pow(10, 1) == 10) by {
                reveal_with_fuel(pow, 2);
            }
        }
        lemma_pow_positive(10, e);
        lemma_div_denominator(n as int, 10, pow10(e));
        assert((n / 10) as nat / (pow10(e) as nat) == n / ((10 * pow10(e)) as nat));
    }
}

pub proof fn lemma_digits_val_push(s: Seq<char>, c: char)
    ensures
        digits_val(s.push(c)) == digits_val(s) * 10 + digit_val(c),
{
    assert(s.push(c).drop_last() =~= s);
    assert(s.push(c).last() == c);
}

/// Appending `k` zero digits multiplies the denoted value by `10^k`.
pub proof fn lemma_right_pad_zeros(s: Seq<char>, k: nat)
    ensures
        digits_val(s + Seq::new(k, |i: int| '0')) == digits_val(s) * pow10(k),
    decreases k,
{
    if k == 0 {
        assert(s + Seq::new(0, |i: int| '0') =~= s);
        assert(pow10(0) == 1) by {
            reveal_with_fuel(pow, 1);
        }
    } else {
        lemma_right_pad_zeros(s, (k - 1) as nat);
        assert(s + Seq::new(k, |i: int| '0') =~= (s + Seq::new((k - 1) as nat, |i: int| '0')).push(
            '0',
        ));
        lemma_digits_val_push(s + Seq::new((k - 1) as nat, |i: int| '0'), '0');
        assert(digit_val('0') == 0);
        assert(pow10(k) == pow10((k - 1) as nat) * 10) by {
            lemma_pow_adds(10, (k - 1) as nat, 1);
            assert(pow(10, 1) == 10) by {
                reveal_with_fuel(pow, 2);
            }
        }
        assert(digits_val(s) * pow10((k - 1) as nat) * 10 == digits_val(s) * pow10(k))
            by (nonlinear_arith)
            requires
                pow10(k) == pow10((k - 1) as nat) * 10,
        ;
    }
}

/// Exact powers of ten as executable values, for exponents up to nine.
pub fn pow10_u64(e: u32) -> (r: u64)
    requires
        e <= 9,
    ensures
        r == pow10(e as nat),
        r >= 1,
{
    proof {
        reveal_with_fuel(pow, 10);
    }
    match e {
        0 => 1,
        1 => 10,
        2 => 100,
        3 => 1_000,
        4 => 10_000,
        5 => 100_000,
        6 => 1_000_000,
        7 => 10_000_000,
        8 => 100_000_000,
        _ => 1_000_000_000,
    }
}

/// The one-character string for a decimal digit.
fn digit_str(d: u8) -> (r: &'static str)
    requires
        d < 10,
    ensures
        r@ =~= seq![digit_char(d as int)],
{
    proof {
        reveal_strlit("0");
        reveal_strlit("1");
        reveal_strlit("2");
        reveal_strlit("3");
        reveal_strlit("4");
        reveal_strlit("5");
        reveal_strlit("6");
        reveal_strlit("7");
        reveal_strlit("8");
        reveal_strlit("9");
    }
    match d {
        0 => "0",
        1 => "1",
        2 => "2",
        3 => "3",
        4 => "4",
        5 => "5",
        6 => "6",
        7 => "7",
        8 => "8",
        _ => "9",
    }
}

/// Renders `n` in decimal, shortest form.
pub fn u128_to_string(n: u128) -> (r: String)
    ensures
        r@ == dec_str(n as nat),
    decreases n,
{
    if n < 10 {
        let s = digit_str(n as u8);
        let r = s.to_owned();
        assert(r@ =~= dec_str(n as nat));
        r
    } else {
        let mut r = u128_to_string(n / 10);
        let d = digit_str((n % 10) as u8);
        r.append(d);
        assert(r@ =~= dec_str(n as nat));
        r
    }
}

/// Renders `n` zero-padded to exactly `w` digits; `n` must fit.
pub fn padded_to_string(n: u64, w: u32) -> (r: String)
    requires
        w <= 9,
        n < pow10(w as nat),
    ensures
        r@ == padded_str(n as nat, w as nat),
    decreases w,
{
    if w == 0 {
        let r = String::new();
        assert(r@ =~= padded_str(n as nat, 0));
        r
    } else {
        proof {
            lemma_pow_positive(10, (w - 1) as nat);
            assert(pow10(w as nat) == 10 * pow10((w - 1) as nat)) by {
                lemma_pow_adds(10, 1, (w - 1) as nat);
                assert(pow(10, 1) == 10) by {
                    reveal_with_fuel(pow, 2);
                }
            }
            assert(n / 10 < pow10((w - 1) as nat)) by (nonlinear_arith)
                requires
                    n < 10 * pow10((w - 1) as nat),
                    pow10((w - 1) as nat) >= 1,
            ;
        }
        let mut r = padded_to_string(n / 10, w - 1);
        let d = digit_str((n % 10) as u8);
        r.append(d);
        assert(r@ =~= padded_str(n as nat, w as nat));
        r
    }
}

} // verus!
