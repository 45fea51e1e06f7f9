//! Decimal rendering for the status report: numerals and fixed-point
//! percentages as character sequences with exact contracts.

use vstd::prelude::*;

verus! {

/// Relies on `String::push` from std: it appends exactly the given
/// character to the end of the string.
pub assume_specification[ String::push ](s: &mut String, ch: char)
    ensures
        final (s)@ == old(s)@.push(ch),
;

/// The character for one decimal digit.
pub open spec fn spec_digit_char(d: nat) -> char
    recommends
        d < 10,
{
    if d == 0 {
        '0'
    } else if d == 1 {
        '1'
    } else if d == 2 {
        '2'
    } else if d == 3 {
        '3'
    } else if d == 4 {
        '4'
    } else if d == 5 {
        '5'
    } else if d == 6 {
        '6'
    } else if d == 7 {
        '7'
    } else if d == 8 {
        '8'
    } else {
        '9'
    }
}

/// The decimal numeral of `n`, most significant digit first, with no
/// leading zeros (a single zero for zero itself).
pub open spec fn spec_decimal(n: nat) -> Seq<char>
    decreases n,
{
    if n < 10 {
        seq![spec_digit_char(n)]
    } else {
        spec_decimal(n / 10).push(spec_digit_char(n % 10))
    }
}

/// A percentage with one decimal place: the tenths value split around a
/// decimal point.
pub open spec fn spec_tenths(t: nat) -> Seq<char> {
    spec_decimal(t / 10) + seq!['.'] + seq![spec_digit_char(t % 10)]
}

/// A percentage with four decimal places: the ten-thousandths value
/// split around a decimal point, the fraction zero-padded to width four.
pub open spec fn spec_ten_thousandths(v: nat) -> Seq<char> {
    let f = v % 10000;
    spec_decimal(v / 10000) + seq!['.'] + seq![
        spec_digit_char(f / 1000 % 10),
        spec_digit_char(f / 100 % 10),
        spec_digit_char(f / 10 % 10),
        spec_digit_char(f % 10),
    ]
}

/// The character for a decimal digit below ten.
fn digit_char(d: u64) -> (r: char)
    requires
        d < 10,
    ensures
        r == spec_digit_char(d as nat),
{
    if d == 0 {
        '0'
    } else if d == 1 {
        '1'
    } else if d == 2 {
        '2'
    } else if d == 3 {
        '3'
    } else if d == 4 {
        '4'
    } else if d == 5 {
        '5'
    } else if d == 6 {
        '6'
    } else if d == 7 {
        '7'
    } else if d == 8 {
        '8'
    } else {
        '9'
    }
}

/// Append the decimal numeral of `n` to `out`.
pub fn push_decimal(out: &mut String, n: u64)
    ensures
        final (out)@ == old(out)@ + spec_decimal(n as nat),
{
    let mut digits: Vec<char> = Vec::new();
    let mut cur: u64 = n;
    while cur >= 10
        invariant
            spec_decimal(n as nat) == spec_decimal(cur as nat) + digits@.reverse(),
        decreases cur,
    {
        let d: char = digit_char(cur % 10);
        proof {
            assert(digits@.push(spec_digit_char((cur % 10) as nat)).reverse() =~= seq![
                spec_digit_char((cur % 10) as nat),
            ] + digits@.reverse());
        }
        digits.push(d);
        cur = cur / 10;
    }
    let d: char = digit_char(cur);
    proof {
        assert(digits@.push(spec_digit_char(cur as nat)).reverse() =~= seq![
            spec_digit_char(cur as nat),
        ] + digits@.reverse());
        assert(spec_decimal(cur as nat) == seq![spec_digit_char(cur as nat)]);
    }
    digits.push(d);
    let n_digits: usize = digits.len();
    let mut j: usize = n_digits;
    while j > 0
        invariant
            j <= n_digits,
            n_digits == digits@.len(),
            spec_decimal(n as nat) == digits@.reverse(),
            out@ == old(out)@ + digits@.reverse().take((n_digits - j) as int),
        decreases j,
    {
        j = j - 1;
        let c: char = digits[j];
        out.push(c);
        proof {
            assert(digits@.reverse().take((n_digits - j) as int) =~= digits@.reverse().take((
            n_digits - j - 1) as int).push(digits@[j as int]));
        }
    }
    proof {
        assert(digits@.reverse().take(n_digits as int) =~= digits@.reverse());
    }
}

/// Append `t` tenths as a one-decimal percentage figure, `12.5` style.
pub fn push_tenths(out: &mut String, t: u64)
    ensures
        final (out)@ == old(out)@ + spec_tenths(t as nat),
{
    push_decimal(out, t / 10);
    out.push('.');
    let d: char = digit_char(t % 10);
    out.push(d);
}

/// Append `v` ten-thousandths as a four-decimal percentage figure,
/// `1.0000` style.
pub fn push_ten_thousandths(out: &mut String, v: u64)
    ensures
        final (out)@ == old(out)@ + spec_ten_thousandths(v as nat),
{
    push_decimal(out, v / 10000);
    out.push('.');
    let f: u64 = v % 10000;
    let c1: char = digit_char(f / 1000 % 10);
    out.push(c1);
    let c2: char = digit_char(f / 100 % 10);
    out.push(c2);
    let c3: char = digit_char(f / 10 % 10);
    out.push(c3);
    let c4: char = digit_char(f % 10);
    out.push(c4);
}

/// A rate that is a fraction of `2^32`, expressed in ten-thousandths of
/// a percent: `floor(rate * 1000000 / 2^32)`.
pub open spec fn spec_rate_micro(rate: nat) -> nat {
    (rate * 1000000) / 0x1_0000_0000
}

/// A ratio that is a fraction of `2^32`, expressed in tenths of a
/// percent: `floor(ratio * 1000 / 2^32)`.
pub open spec fn spec_ratio_tenths(ratio: nat) -> nat {
    (ratio * 1000) / 0x1_0000_0000
}

/// Tenths of a percent for a fixed-point ratio.
pub fn rate_tenths(ratio: u64) -> (r: u64)
    ensures
        r == spec_ratio_tenths(ratio as nat),
{
    (((ratio as u128) * 1000) / 0x1_0000_0000u128) as u64
}

/// Ten-thousandths of a percent for a fixed-point rate.
pub fn rate_micro(rate: u64) -> (r: u64)
    ensures
        r == spec_rate_micro(rate as nat),
{
    (((rate as u128) * 1000000) / 0x1_0000_0000u128) as u64
}

} // verus!
