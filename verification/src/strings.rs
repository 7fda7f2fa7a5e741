//! Small verified building blocks for producing text: appending single
//! characters, and decimal / hexadecimal digit sequences for integers.

use vstd::prelude::*;

verus! {

/// The decimal digit character for `d` (meaningful for `0 <= d <= 9`).
pub open spec fn digit_char(d: int) -> char {
    if d == 0 {
        '0'
    } else if d == 1 {
        '1'
    } else if d == 2 {
        '2'
    } else if d == 3 {
        '3'
    } else if d == 4 {
        '4'
    } else if d == 5 {
        '5'
    } else if d == 6 {
        '6'
    } else if d == 7 {
        '7'
    } else if d == 8 {
        '8'
    } else {
        '9'
    }
}

/// The lower-case hexadecimal digit character for `d` (meaningful for
/// `0 <= d <= 15`).
pub open spec fn hex_char(d: int) -> char {
    if d < 10 {
        digit_char(d)
    } else if d == 10 {
        'a'
    } else if d == 11 {
        'b'
    } else if d == 12 {
        'c'
    } else if d == 13 {
        'd'
    } else if d == 14 {
        'e'
    } else {
        'f'
    }
}

/// The decimal digit string of a non-negative integer, without leading
/// zeros (a lone `0` for zero).
pub open spec fn dec_digits(n: int) -> Seq<char>
    decreases n,
{
    if n < 10 {
        seq![digit_char(n)]
    } else {
        dec_digits(n / 10).push(digit_char(n % 10))
    }
}

/// Appends the given character.
///
/// Relies on `String::push`: appends the given char to the end of the
/// string.
#[verifier::external_body]
pub fn push_char(out: &mut String, c: char)
    ensures
        final(out)@ == old(out)@ + seq![c],
{
    out.push(c);
}

fn digit_str(d: u64) -> (r: &'static str)
    requires
        d < 10,
    ensures
        r@ == seq![digit_char(d as int)],
{
    proof {
        reveal_strlit("0");
        reveal_strlit("1");
        reveal_strlit("2");
        reveal_strlit("3");
        reveal_strlit("4");
        reveal_strlit("5");
        reveal_strlit("6");
        reveal_strlit("7");
        reveal_strlit("8");
        reveal_strlit("9");
    }
    if d == 0 {
        "0"
    } else if d == 1 {
        "1"
    } else if d == 2 {
        "2"
    } else if d == 3 {
        "3"
    } else if d == 4 {
        "4"
    } else if d == 5 {
        "5"
    } else if d == 6 {
        "6"
    } else if d == 7 {
        "7"
    } else if d == 8 {
        "8"
    } else {
        "9"
    }
}

fn hex_str(d: u64) -> (r: &'static str)
    requires
        d < 16,
    ensures
        r@ == seq![hex_char(d as int)],
{
    proof {
        reveal_strlit("a");
        reveal_strlit("b");
        reveal_strlit("c");
        reveal_strlit("d");
        reveal_strlit("e");
        reveal_strlit("f");
    }
    if d < 10 {
        digit_str(d)
    } else if d == 10 {
        "a"
    } else if d == 11 {
        "b"
    } else if d == 12 {
        "c"
    } else if d == 13 {
        "d"
    } else if d == 14 {
        "e"
    } else {
        "f"
    }
}

/// Appends the lower-case hexadecimal digit for `d`.
pub fn push_hex_digit(out: &mut String, d: u64)
    requires
        d < 16,
    ensures
        final(out)@ == old(out)@ + seq![hex_char(d as int)],
{
    out.append(hex_str(d));
}

/// Appends the decimal digit string of `n`.
pub fn push_dec_u64(out: &mut String, n: u64)
    ensures
        final(out)@ == old(out)@ + dec_digits(n as int),
    decreases n,
{
    if n < 10 {
        out.append(digit_str(n));
    } else {
        push_dec_u64(out, n / 10);
        out.append(digit_str(n % 10));
    }
}

/// A two-digit, zero-padded decimal string (meaningful for `0 <= n < 100`).
pub open spec fn dec2(n: int) -> Seq<char> {
    seq![digit_char(n / 10 % 10), digit_char(n % 10)]
}

/// A three-digit, zero-padded decimal string (meaningful for `0 <= n < 1000`).
pub open spec fn dec3(n: int) -> Seq<char> {
    seq![digit_char(n / 100 % 10), digit_char(n / 10 % 10), digit_char(n % 10)]
}

/// A decimal string of at least four digits, zero-padded.
pub open spec fn dec4(n: int) -> Seq<char> {
    if n < 10000 {
        seq![
            digit_char(n / 1000 % 10),
            digit_char(n / 100 % 10),
            digit_char(n / 10 % 10),
            digit_char(n % 10),
        ]
    } else {
        dec_digits(n)
    }
}

/// Appends the two-digit, zero-padded decimal string of `n`.
pub fn push_dec2(out: &mut String, n: u64)
    requires
        n < 100,
    ensures
        final(out)@ == old(out)@ + dec2(n as int),
{
    out.append(digit_str(n / 10));
    out.append(digit_str(n % 10));
    assert(out@ =~= old(out)@ + dec2(n as int));
}

/// Appends the three-digit, zero-padded decimal string of `n`.
pub fn push_dec3(out: &mut String, n: u64)
    requires
        n < 1000,
    ensures
        final(out)@ == old(out)@ + dec3(n as int),
{
    out.append(digit_str(n / 100));
    out.append(digit_str(n / 10 % 10));
    out.append(digit_str(n % 10));
    assert(out@ =~= old(out)@ + dec3(n as int));
}

/// Appends the zero-padded (to four digits) decimal string of `n`.
pub fn push_dec4(out: &mut String, n: u64)
    ensures
        final(out)@ == old(out)@ + dec4(n as int),
{
    if n < 10000 {
        out.append(digit_str(n / 1000));
        out.append(digit_str(n / 100 % 10));
        out.append(digit_str(n / 10 % 10));
        out.append(digit_str(n % 10));
        assert(out@ =~= old(out)@ + dec4(n as int));
    } else {
        push_dec_u64(out, n);
    }
}

} // verus!
