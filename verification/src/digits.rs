//! Decimal digits: the canonical decimal spelling of a natural number, a
//! verified writer and reader for it, and the small display formats built
//! from it (mm:ss countdowns, "1h 25m" durations).

use vstd::prelude::*;
use crate::text::chars_to_string;

verus! {

/// The digit character of a value below ten.
pub open spec fn digit_of(d: int) -> char {
    if d == 0 {
        '0'
    } else if d == 1 {
        '1'
    } else if d == 2 {
        '2'
    } else if d == 3 {
        '3'
    } else if d == 4 {
        '4'
    } else if d == 5 {
        '5'
    } else if d == 6 {
        '6'
    } else if d == 7 {
        '7'
    } else if d == 8 {
        '8'
    } else {
        '9'
    }
}

/// The value of a digit character; ten for any other character.
pub open spec fn digit_val(c: char) -> nat {
    if c == '0' {
        0
    } else if c == '1' {
        1
    } else if c == '2' {
        2
    } else if c == '3' {
        3
    } else if c == '4' {
        4
    } else if c == '5' {
        5
    } else if c == '6' {
        6
    } else if c == '7' {
        7
    } else if c == '8' {
        8
    } else if c == '9' {
        9
    } else {
        10
    }
}

/// `c` is a decimal digit.
pub open spec fn is_digit(c: char) -> bool {
    digit_val(c) < 10
}

/// The decimal spelling of `n`, most significant digit first, without
/// leading zeros (zero itself is "0").
pub open spec fn dec_digits(n: nat) -> Seq<char>
    decreases n,
{
    if n < 10 {
        seq![digit_of(n as int)]
    } else {
        dec_digits(n / 10).push(digit_of((n % 10) as int))
    }
}

/// The value of a digit string, most significant digit first.
pub open spec fn num_of(s: Seq<char>) -> nat
    decreases s.len(),
{
    if s.len() == 0 {
        0
    } else {
        num_of(s.drop_last()) * 10 + digit_val(s.last())
    }
}

/// A decimal spelling is nonempty, made of digits, and reads back as the
/// number it spells.
pub proof fn lemma_dec_digits(n: nat)
    ensures
        dec_digits(n).len() >= 1,
        forall|i: int| 0 <= i < dec_digits(n).len() ==> is_digit(#[trigger] dec_digits(n)[i]),
        num_of(dec_digits(n)) == n,
    decreases n,
{
    if n < 10 {
        assert(dec_digits(n) == seq![digit_of(n as int)]);
        assert(dec_digits(n).drop_last() =~= Seq::<char>::empty());
        assert(dec_digits(n).last() == digit_of(n as int));
        assert(num_of(dec_digits(n)) == num_of(Seq::<char>::empty()) * 10 + digit_val(
            digit_of(n as int),
        ));
        assert(num_of(Seq::<char>::empty()) == 0);
        assert(digit_val(digit_of(n as int)) == n);
    } else {
        lemma_dec_digits(n / 10);
        assert(dec_digits(n).drop_last() =~= dec_digits(n / 10));
        assert(dec_digits(n).last() == digit_of((n % 10) as int));
        assert(digit_val(digit_of((n % 10) as int)) == n % 10);
        assert(n / 10 * 10 + n % 10 == n) by {
            vstd::arithmetic::div_mod::lemma_fundamental_div_mod(n as int, 10);
        };
        assert(forall|i: int|
            0 <= i < dec_digits(n / 10).len() ==> dec_digits(n)[i] == #[trigger] dec_digits(
                n / 10,
            )[i]);
    }
}

/// The digit character of a value below ten.
pub fn digit_char(d: u128) -> (c: char)
    requires
        d < 10,
    ensures
        c == digit_of(d as int),
{
    if d == 0 {
        '0'
    } else if d == 1 {
        '1'
    } else if d == 2 {
        '2'
    } else if d == 3 {
        '3'
    } else if d == 4 {
        '4'
    } else if d == 5 {
        '5'
    } else if d == 6 {
        '6'
    } else if d == 7 {
        '7'
    } else if d == 8 {
        '8'
    } else {
        '9'
    }
}

/// The value of a digit character; ten for any other character.
pub fn digit_value(c: char) -> (d: u32)
    ensures
        d == digit_val(c),
{
    if c == '0' {
        0
    } else if c == '1' {
        1
    } else if c == '2' {
        2
    } else if c == '3' {
        3
    } else if c == '4' {
        4
    } else if c == '5' {
        5
    } else if c == '6' {
        6
    } else if c == '7' {
        7
    } else if c == '8' {
        8
    } else if c == '9' {
        9
    } else {
        10
    }
}

/// Appends the decimal spelling of `n` to `out`.
pub fn push_dec(n: u128, out: &mut Vec<char>)
    ensures
        final(out)@ == old(out)@ + dec_digits(n as nat),
    decreases n,
{
    if n < 10 {
        out.push(digit_char(n));
        proof {
            assert(out@ =~= old(out)@ + dec_digits(n as nat));
        }
    } else {
        push_dec(n / 10, out);
        out.push(digit_char(n % 10));
        proof {
            assert(out@ =~= old(out)@ + dec_digits(n as nat));
        }
    }
}

/// The decimal spelling of `n`, zero-padded on the left to two characters
/// (wider numbers keep all their digits).
pub open spec fn spec_padded2(n: nat) -> Seq<char> {
    if n < 10 {
        seq!['0'] + dec_digits(n)
    } else {
        dec_digits(n)
    }
}

fn push_padded2(n: u64, out: &mut Vec<char>)
    ensures
        final(out)@ == old(out)@ + spec_padded2(n as nat),
{
    if n < 10 {
        out.push('0');
    }
    push_dec(n as u128, out);
    proof {
        assert(out@ =~= old(out)@ + spec_padded2(n as nat));
    }
}

/// A countdown display: minutes and seconds, each two digits wide,
/// separated by a colon.
pub open spec fn spec_mm_ss(total_secs: u64) -> Seq<char> {
    spec_padded2((total_secs / 60) as nat) + seq![':'] + spec_padded2((total_secs % 60) as nat)
}

/// Formats a remaining time, given in seconds, as "mm:ss" (minutes grow
/// past two digits rather than truncate).
pub fn formatted_time(total_secs: u64) -> (r: String)
    ensures
        r@ == spec_mm_ss(total_secs),
{
    let mut out: Vec<char> = Vec::new();
    push_padded2(total_secs / 60, &mut out);
    out.push(':');
    push_padded2(total_secs % 60, &mut out);
    proof {
        assert(out@ =~= spec_mm_ss(total_secs));
    }
    chars_to_string(&out)
}

/// A duration display: "<h>h <m>m" when at least an hour, else "<m>m",
/// minutes truncated within the hour.
pub open spec fn spec_duration_display(secs: u64) -> Seq<char> {
    let hours = secs as nat / 3600;
    let mins = (secs as nat % 3600) / 60;
    if hours > 0 {
        dec_digits(hours) + seq!['h', ' '] + dec_digits(mins) + seq!['m']
    } else {
        dec_digits(mins) + seq!['m']
    }
}

/// Formats a duration, given in seconds, as "1h 25m" (or "25m" under an
/// hour).
pub fn format_duration(secs: u64) -> (r: String)
    ensures
        r@ == spec_duration_display(secs),
{
    let hours = secs / 3600;
    let mins = (secs % 3600) / 60;
    let mut out: Vec<char> = Vec::new();
    if hours > 0 {
        push_dec(hours as u128, &mut out);
        out.push('h');
        out.push(' ');
    }
    push_dec(mins as u128, &mut out);
    out.push('m');
    proof {
        assert(out@ =~= spec_duration_display(secs));
    }
    chars_to_string(&out)
}

/// The greeting for an hour of the day (24-hour clock): morning from five,
/// afternoon from noon, evening from five, night otherwise.
pub fn greeting_for_hour(hour: u8) -> (r: &'static str)
    ensures
        5 <= hour <= 11 ==> r@ == "Good morning"@,
        12 <= hour <= 16 ==> r@ == "Good afternoon"@,
        17 <= hour <= 20 ==> r@ == "Good evening"@,
        hour < 5 || hour > 20 ==> r@ == "Good night"@,
{
    if 5 <= hour && hour <= 11 {
        "Good morning"
    } else if 12 <= hour && hour <= 16 {
        "Good afternoon"
    } else if 17 <= hour && hour <= 20 {
        "Good evening"
    } else {
        "Good night"
    }
}

} // verus!
