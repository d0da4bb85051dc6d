//! Decimal rendering of small numbers: the zero-padded fields of a note
//! file's name and date, and the unpadded day number shown in a column title.
use vstd::prelude::*;

verus! {

/// The decimal digit character for a value between zero and nine.
pub open spec fn digit_char(d: int) -> char {
    if d == 0 {
        '0'
    } else if d == 1 {
        '1'
    } else if d == 2 {
        '2'
    } else if d == 3 {
        '3'
    } else if d == 4 {
        '4'
    } else if d == 5 {
        '5'
    } else if d == 6 {
        '6'
    } else if d == 7 {
        '7'
    } else if d == 8 {
        '8'
    } else {
        '9'
    }
}

/// Four decimal digits, zero padded: how years are written.
pub open spec fn dec4(n: int) -> Seq<char> {
    seq![
        digit_char(n / 1000 % 10),
        digit_char(n / 100 % 10),
        digit_char(n / 10 % 10),
        digit_char(n % 10),
    ]
}

/// Two decimal digits, zero padded: how months and days are written.
pub open spec fn dec2(n: int) -> Seq<char> {
    seq![digit_char(n / 10 % 10), digit_char(n % 10)]
}

/// One or two decimal digits without padding: how a column title shows the
/// day of the month.
pub open spec fn dec_short(n: int) -> Seq<char> {
    if n < 10 {
        seq![digit_char(n % 10)]
    } else {
        dec2(n)
    }
}

fn digit_char_exec(d: u16) -> (r: char)
    requires
        d <= 9,
    ensures
        r == digit_char(d as int),
{
    match d {
        0 => '0',
        1 => '1',
        2 => '2',
        3 => '3',
        4 => '4',
        5 => '5',
        6 => '6',
        7 => '7',
        8 => '8',
        _ => '9',
    }
}

/// Append the four-digit form of `n` to `out`.
pub fn push_dec4(out: &mut Vec<char>, n: u16)
    requires
        n <= 9999,
    ensures
        final(out)@ == old(out)@ + dec4(n as int),
{
    out.push(digit_char_exec(n / 1000 % 10));
    out.push(digit_char_exec(n / 100 % 10));
    out.push(digit_char_exec(n / 10 % 10));
    out.push(digit_char_exec(n % 10));
    proof {
        assert(out@ =~= old(out)@ + dec4(n as int));
    }
}

/// Append the two-digit form of `n` to `out`.
pub fn push_dec2(out: &mut Vec<char>, n: u8)
    requires
        n <= 99,
    ensures
        final(out)@ == old(out)@ + dec2(n as int),
{
    out.push(digit_char_exec((n / 10 % 10) as u16));
    out.push(digit_char_exec((n % 10) as u16));
    proof {
        assert(out@ =~= old(out)@ + dec2(n as int));
    }
}

/// Append the unpadded form of `n` to `out`.
pub fn push_dec_short(out: &mut Vec<char>, n: u8)
    requires
        n <= 99,
    ensures
        final(out)@ == old(out)@ + dec_short(n as int),
{
    if n < 10 {
        out.push(digit_char_exec((n % 10) as u16));
        proof {
            assert(out@ =~= old(out)@ + dec_short(n as int));
        }
    } else {
        push_dec2(out, n);
    }
}

} // verus!
