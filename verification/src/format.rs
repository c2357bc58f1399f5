//! Numbers, dates and commit identifiers as text.
use crate::document::{Date, Oid};
use vstd::prelude::*;

verus! {

/// The character of the digit `d`, in base 16.
pub open spec fn hex_digit(d: int) -> char {
    if d == 0 {
        '0'
    } else if d == 1 {
        '1'
    } else if d == 2 {
        '2'
    } else if d == 3 {
        '3'
    } else if d == 4 {
        '4'
    } else if d == 5 {
        '5'
    } else if d == 6 {
        '6'
    } else if d == 7 {
        '7'
    } else if d == 8 {
        '8'
    } else if d == 9 {
        '9'
    } else if d == 10 {
        'a'
    } else if d == 11 {
        'b'
    } else if d == 12 {
        'c'
    } else if d == 13 {
        'd'
    } else if d == 14 {
        'e'
    } else {
        'f'
    }
}

/// The digits of `n` in base 10, without leading zeros.
pub open spec fn decimal(n: nat) -> Seq<char>
    decreases n,
{
    if n < 10 {
        seq![hex_digit(n as int)]
    } else {
        decimal(n / 10).push(hex_digit((n % 10) as int))
    }
}

/// The number `i` in base 10, with a minus sign where it is negative.
pub open spec fn signed_decimal(i: int) -> Seq<char> {
    if i < 0 {
        seq!['-'] + decimal((-i) as nat)
    } else {
        decimal(i as nat)
    }
}

/// The number `n` in base 10, with a leading zero where it has one digit.
pub open spec fn two_digits(n: nat) -> Seq<char> {
    if n < 10 {
        seq!['0'] + decimal(n)
    } else {
        decimal(n)
    }
}

/// A day as `year-month-day`, month and day with two digits at least.
pub open spec fn date_text(date: Date) -> Seq<char> {
    signed_decimal(date.year as int) + seq!['-'] + two_digits(date.month as nat) + seq!['-']
        + two_digits(date.day as nat)
}

/// The first seven digits of a commit identifier in base 16.
pub open spec fn short_hex(oid: Oid) -> Seq<char> {
    seq![
        hex_digit(oid.bytes@[0] as int / 16),
        hex_digit(oid.bytes@[0] as int % 16),
        hex_digit(oid.bytes@[1] as int / 16),
        hex_digit(oid.bytes@[1] as int % 16),
        hex_digit(oid.bytes@[2] as int / 16),
        hex_digit(oid.bytes@[2] as int % 16),
        hex_digit(oid.bytes@[3] as int / 16),
    ]
}

/// The character `c`, `n` times.
pub open spec fn repeated(c: char, n: nat) -> Seq<char>
    decreases n,
{
    if n == 0 {
        Seq::empty()
    } else {
        repeated(c, (n - 1) as nat).push(c)
    }
}

/// The character of the digit `d`, in base 16.
pub fn hex_char(d: u8) -> (c: char)
    requires
        d < 16,
    ensures
        c == hex_digit(d as int),
{
    if d == 0 {
        '0'
    } else if d == 1 {
        '1'
    } else if d == 2 {
        '2'
    } else if d == 3 {
        '3'
    } else if d == 4 {
        '4'
    } else if d == 5 {
        '5'
    } else if d == 6 {
        '6'
    } else if d == 7 {
        '7'
    } else if d == 8 {
        '8'
    } else if d == 9 {
        '9'
    } else if d == 10 {
        'a'
    } else if d == 11 {
        'b'
    } else if d == 12 {
        'c'
    } else if d == 13 {
        'd'
    } else if d == 14 {
        'e'
    } else {
        'f'
    }
}

/// Appends the digits of `n` in base 10 to `out`.
pub fn push_decimal(out: &mut Vec<char>, n: u64)
    ensures
        final(out)@ == old(out)@ + decimal(n as nat),
    decreases n,
{
    if n < 10 {
        out.push(hex_char(n as u8));
        assert(out@ =~= old(out)@ + decimal(n as nat));
    } else {
        push_decimal(out, n / 10);
        out.push(hex_char((n % 10) as u8));
        assert(out@ =~= old(out)@ + decimal(n as nat));
    }
}

/// Appends the number `i` in base 10 to `out`.
pub fn push_signed_decimal(out: &mut Vec<char>, i: i32)
    ensures
        final(out)@ == old(out)@ + signed_decimal(i as int),
{
    if i < 0 {
        out.push('-');
        let n: u64 = (-(i as i64)) as u64;
        push_decimal(out, n);
        assert(out@ =~= old(out)@ + signed_decimal(i as int));
    } else {
        push_decimal(out, i as u64);
    }
}

/// Appends the number `n` in base 10 to `out`, with two digits at least.
pub fn push_two_digits(out: &mut Vec<char>, n: u32)
    ensures
        final(out)@ == old(out)@ + two_digits(n as nat),
{
    if n < 10 {
        out.push('0');
        push_decimal(out, n as u64);
        assert(out@ =~= old(out)@ + two_digits(n as nat));
    } else {
        push_decimal(out, n as u64);
    }
}

/// A day as `year-month-day`.
pub fn format_date(date: Date) -> (r: Vec<char>)
    ensures
        r@ == date_text(date),
{
    let mut r: Vec<char> = Vec::new();
    push_signed_decimal(&mut r, date.year);
    r.push('-');
    push_two_digits(&mut r, date.month);
    r.push('-');
    push_two_digits(&mut r, date.day);
    assert(r@ =~= date_text(date));
    r
}

/// The first seven digits of a commit identifier in base 16.
pub fn format_short_hex(oid: &Oid) -> (r: Vec<char>)
    ensures
        r@ == short_hex(*oid),
{
    let mut r: Vec<char> = Vec::new();
    r.push(hex_char(oid.bytes[0] / 16));
    r.push(hex_char(oid.bytes[0] % 16));
    r.push(hex_char(oid.bytes[1] / 16));
    r.push(hex_char(oid.bytes[1] % 16));
    r.push(hex_char(oid.bytes[2] / 16));
    r.push(hex_char(oid.bytes[2] % 16));
    r.push(hex_char(oid.bytes[3] / 16));
    assert(r@ =~= short_hex(*oid));
    r
}

/// The character `c`, `n` times.
pub fn repeat_char(c: char, n: usize) -> (r: Vec<char>)
    ensures
        r@ == repeated(c, n as nat),
{
    let mut r: Vec<char> = Vec::new();
    let mut i: usize = 0;
    while i < n
        invariant
            i <= n,
            r@ == repeated(c, i as nat),
        decreases n - i,
    {
        r.push(c);
        i += 1;
    }
    r
}

} // verus!
