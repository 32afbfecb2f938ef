//! Verified construction of the digit strings used by summaries, and the
//! trusted human-readable count/size formatters.

use vstd::prelude::*;

verus! {

/// The character for one decimal or hexadecimal digit value.
pub open spec fn spec_digit(d: int) -> char {
    if d == 0 {
        '0'
    } else if d == 1 {
        '1'
    } else if d == 2 {
        '2'
    } else if d == 3 {
        '3'
    } else if d == 4 {
        '4'
    } else if d == 5 {
        '5'
    } else if d == 6 {
        '6'
    } else if d == 7 {
        '7'
    } else if d == 8 {
        '8'
    } else if d == 9 {
        '9'
    } else if d == 10 {
        'A'
    } else if d == 11 {
        'B'
    } else if d == 12 {
        'C'
    } else if d == 13 {
        'D'
    } else if d == 14 {
        'E'
    } else {
        'F'
    }
}

/// Decimal digits of `n`, most significant first, no leading zeroes
/// (a single `'0'` for zero).
pub open spec fn dec_digits(n: int) -> Seq<char>
    decreases n,
{
    if n < 10 {
        seq![spec_digit(n)]
    } else {
        dec_digits(n / 10).push(spec_digit(n % 10))
    }
}

/// Two hexadecimal digits, upper case, for one byte.
pub open spec fn hex_digits_2(n: int) -> Seq<char> {
    seq![spec_digit(n / 16), spec_digit(n % 16)]
}

/// Four hexadecimal digits, upper case, for one 16-bit value.
pub open spec fn hex_digits_4(n: int) -> Seq<char> {
    seq![
        spec_digit(n / 4096),
        spec_digit((n / 256) % 16),
        spec_digit((n / 16) % 16),
        spec_digit(n % 16),
    ]
}

/// The digit character for a value below 16, as a one-character string.
fn digit_str(d: u8) -> (r: &'static str)
    requires
        d < 16,
    ensures
        r@ == seq![spec_digit(d as int)],
{
    let r: &'static str = match d {
        0 => "0",
        1 => "1",
        2 => "2",
        3 => "3",
        4 => "4",
        5 => "5",
        6 => "6",
        7 => "7",
        8 => "8",
        9 => "9",
        10 => "A",
        11 => "B",
        12 => "C",
        13 => "D",
        14 => "E",
        _ => "F",
    };
    proof {
        reveal_strlit("0");
        reveal_strlit("1");
        reveal_strlit("2");
        reveal_strlit("3");
        reveal_strlit("4");
        reveal_strlit("5");
        reveal_strlit("6");
        reveal_strlit("7");
        reveal_strlit("8");
        reveal_strlit("9");
        reveal_strlit("A");
        reveal_strlit("B");
        reveal_strlit("C");
        reveal_strlit("D");
        reveal_strlit("E");
        reveal_strlit("F");
        assert(r@ =~= seq![spec_digit(d as int)]);
    }
    r
}

/// Appends the decimal digits of `n` to `out`.
pub fn push_dec(out: &mut String, n: u64)
    ensures
        final(out)@ == old(out)@ + dec_digits(n as int),
    decreases n,
{
    if n >= 10 {
        push_dec(out, n / 10);
    }
    let d = (n % 10) as u8;
    out.append(digit_str(d));
    proof {
        if n >= 10 {
            assert(dec_digits(n as int)
                =~= dec_digits(n as int / 10) + seq![spec_digit(n as int % 10)]);
            assert(final(out)@ =~= old(out)@ + dec_digits(n as int));
        } else {
            assert(dec_digits(n as int) =~= seq![spec_digit(n as int)]);
            assert(final(out)@ =~= old(out)@ + dec_digits(n as int));
        }
    }
}

/// Appends two upper-case hexadecimal digits for `n` to `out`.
pub fn push_hex_2(out: &mut String, n: u8)
    ensures
        final(out)@ == old(out)@ + hex_digits_2(n as int),
{
    out.append(digit_str(n / 16));
    out.append(digit_str(n % 16));
    proof {
        assert(final(out)@ =~= old(out)@ + hex_digits_2(n as int));
    }
}

/// Appends four upper-case hexadecimal digits for `n` to `out`.
pub fn push_hex_4(out: &mut String, n: u16)
    ensures
        final(out)@ == old(out)@ + hex_digits_4(n as int),
{
    out.append(digit_str((n / 4096) as u8));
    out.append(digit_str(((n / 256) % 16) as u8));
    out.append(digit_str(((n / 16) % 16) as u8));
    out.append(digit_str((n % 16) as u8));
    proof {
        assert(final(out)@ =~= old(out)@ + hex_digits_4(n as int));
    }
}

/// The decimal digits of `n` as a string.
pub fn fmt_u64(n: u64) -> (r: String)
    ensures
        r@ == dec_digits(n as int),
{
    let mut out = String::new();
    push_dec(&mut out, n);
    proof {
        assert(out@ =~= dec_digits(n as int));
    }
    out
}

/// Relies on std's `String::push`: appends the given character to the end
/// of the string.
#[verifier::external_body]
pub fn push_char(out: &mut String, c: char)
    ensures
        final(out)@ == old(out)@.push(c),
{
    out.push(c);
}

/// A count with decimal digits grouped in threes by commas, as
/// num-format renders it for the `en` locale.
pub uninterp spec fn grouped_decimal(n: u64) -> Seq<char>;

/// Relies on num-format's `ToFormattedString` with `Locale::en`: decimal
/// digits in groups of three separated by commas, determined by the count
/// alone; below 1,000 there is no separator.
#[verifier::external_body]
pub fn fmt_count(count: u64) -> (r: String)
    ensures
        r@ == grouped_decimal(count),
        count < 1000 ==> r@ == dec_digits(count as int),
{
    num_format::ToFormattedString::to_formatted_string(&count, &num_format::Locale::en)
}

/// A byte count scaled to a binary unit, as humansize renders it.
pub uninterp spec fn human_size(n: u64) -> Seq<char>;

/// Relies on humansize's `FileSize::file_size` for `u64` with the `BINARY`
/// options: an unsigned size always formats successfully, the result is
/// determined by the size alone, and sizes below 1,024 render as the plain
/// byte count followed by " B".
#[verifier::external_body]
pub fn fmt_size(size: u64) -> (r: String)
    ensures
        r@ == human_size(size),
        size < 1024 ==> r@ == dec_digits(size as int) + " B"@,
{
    match humansize::FileSize::file_size(&size, humansize::file_size_opts::BINARY) {
        Ok(s) => s,
        Err(s) => s,
    }
}

} // verus!
