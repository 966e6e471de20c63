//! Rendering of numbers as text, the way the kernel's diagnostics print them.
//!
//! The functions append to a `String`; what they append is given by the spec
//! functions of this module over `Seq<char>`.

use vstd::prelude::*;

verus! {

/// `String::push` appends the given character to the end of the string.
pub assume_specification[ String::push ](s: &mut String, ch: char)
    ensures
        final(s)@ == old(s)@.push(ch),
;

/// The digit character for a value below 16.
pub open spec fn hex_digit(d: nat, upper: bool) -> char
    recommends
        d < 16,
{
    if d < 10 {
        (0x30 + d) as char
    } else if upper {
        (0x41 + d - 10) as char
    } else {
        (0x61 + d - 10) as char
    }
}

/// The hexadecimal digits of `n`, most significant first, without leading zeros
/// (a single `0` for zero).
pub open spec fn hex_digits(n: nat, upper: bool) -> Seq<char>
    decreases n,
{
    if n < 16 {
        seq![hex_digit(n, upper)]
    } else {
        hex_digits(n / 16, upper).push(hex_digit(n % 16, upper))
    }
}

/// The decimal digits of `n`, most significant first, without leading zeros
/// (a single `0` for zero).
pub open spec fn dec_digits(n: nat) -> Seq<char>
    decreases n,
{
    if n < 10 {
        seq![hex_digit(n, true)]
    } else {
        dec_digits(n / 10).push(hex_digit(n % 10, true))
    }
}

/// `count` copies of `fill`.
pub open spec fn repeat(fill: char, count: nat) -> Seq<char> {
    Seq::new(count, |i: int| fill)
}

/// `s` filled on the left up to `width` characters; `s` itself if it is already that long.
pub open spec fn pad_left(s: Seq<char>, width: nat, fill: char) -> Seq<char> {
    if s.len() >= width {
        s
    } else {
        repeat(fill, (width - s.len()) as nat) + s
    }
}

/// `s` filled on the right up to `width` characters; `s` itself if it is already that long.
pub open spec fn pad_right(s: Seq<char>, width: nat, fill: char) -> Seq<char> {
    if s.len() >= width {
        s
    } else {
        s + repeat(fill, (width - s.len()) as nat)
    }
}

/// Hexadecimal with at least `min_digits` digits, filled with zeros.
pub open spec fn hex_padded(n: nat, min_digits: nat, upper: bool) -> Seq<char> {
    pad_left(hex_digits(n, upper), min_digits, '0')
}

/// Hexadecimal after `0x`, with at least `min_digits` digits, filled with zeros.
pub open spec fn hex_prefixed(n: nat, min_digits: nat, upper: bool) -> Seq<char> {
    seq!['0', 'x'] + hex_padded(n, min_digits, upper)
}

/// The digit character for a value below 16.
pub fn hex_digit_char(d: u8, upper: bool) -> (c: char)
    requires
        d < 16,
    ensures
        c == hex_digit(d as nat, upper),
{
    if d < 10 {
        (0x30u8 + d) as char
    } else if upper {
        (0x41u8 + (d - 10)) as char
    } else {
        (0x61u8 + (d - 10)) as char
    }
}

/// Appends `count` copies of `fill`.
pub fn push_repeat(out: &mut String, fill: char, count: usize)
    ensures
        final(out)@ == old(out)@ + repeat(fill, count as nat),
{
    let mut i: usize = 0;
    while i < count
        invariant
            i <= count,
            out@ == old(out)@ + repeat(fill, i as nat),
        decreases count - i,
    {
        out.push(fill);
        i = i + 1;
        assert(out@ =~= old(out)@ + repeat(fill, i as nat));
    }
}

/// Appends the characters of `digits` in reverse order.
fn push_reversed(out: &mut String, digits: &Vec<char>)
    ensures
        final(out)@ == old(out)@ + digits@.reverse(),
{
    let mut i: usize = digits.len();
    while i > 0
        invariant
            i <= digits.len(),
            out@ == old(out)@ + digits@.reverse().subrange(0, digits.len() - i),
        decreases i,
    {
        i = i - 1;
        out.push(digits[i]);
        assert(out@ =~= old(out)@ + digits@.reverse().subrange(0, digits.len() - i));
    }
    assert(digits@.reverse().subrange(0, digits.len() as int) =~= digits@.reverse());
}

/// The hexadecimal digits of `value`, least significant first.
fn hex_digits_reversed(value: u64, upper: bool) -> (digits: Vec<char>)
    ensures
        digits@.reverse() == hex_digits(value as nat, upper),
{
    let mut digits: Vec<char> = Vec::new();
    digits.push(hex_digit_char((value % 16) as u8, upper));
    let mut rest: u64 = value / 16;
    assert(digits@.reverse() =~= seq![hex_digit((value % 16) as nat, upper)]);
    while rest > 0
        invariant
            hex_digits(value as nat, upper) == (if rest == 0 {
                Seq::<char>::empty()
            } else {
                hex_digits(rest as nat, upper)
            }) + digits@.reverse(),
        decreases rest,
    {
        let ghost before = digits@;
        digits.push(hex_digit_char((rest % 16) as u8, upper));
        assert(digits@.reverse() =~= seq![hex_digit((rest % 16) as nat, upper)]
            + before.reverse());
        rest = rest / 16;
    }
    digits
}

/// The decimal digits of `value`, least significant first.
fn dec_digits_reversed(value: u64) -> (digits: Vec<char>)
    ensures
        digits@.reverse() == dec_digits(value as nat),
{
    let mut digits: Vec<char> = Vec::new();
    digits.push(hex_digit_char((value % 10) as u8, true));
    let mut rest: u64 = value / 10;
    assert(digits@.reverse() =~= seq![hex_digit((value % 10) as nat, true)]);
    while rest > 0
        invariant
            dec_digits(value as nat) == (if rest == 0 {
                Seq::<char>::empty()
            } else {
                dec_digits(rest as nat)
            }) + digits@.reverse(),
        decreases rest,
    {
        let ghost before = digits@;
        digits.push(hex_digit_char((rest % 10) as u8, true));
        assert(digits@.reverse() =~= seq![hex_digit((rest % 10) as nat, true)]
            + before.reverse());
        rest = rest / 10;
    }
    digits
}

/// Appends `value` in hexadecimal with at least `min_digits` digits, filled with zeros.
pub fn push_hex(out: &mut String, value: u64, min_digits: usize, upper: bool)
    ensures
        final(out)@ == old(out)@ + hex_padded(value as nat, min_digits as nat, upper),
{
    let digits = hex_digits_reversed(value, upper);
    if digits.len() < min_digits {
        push_repeat(out, '0', min_digits - digits.len());
    }
    push_reversed(out, &digits);
    assert(out@ =~= old(out)@ + hex_padded(value as nat, min_digits as nat, upper));
}

/// Appends `0x` and `value` in hexadecimal with at least `min_digits` digits, filled with zeros.
pub fn push_hex_prefixed(out: &mut String, value: u64, min_digits: usize, upper: bool)
    ensures
        final(out)@ == old(out)@ + hex_prefixed(value as nat, min_digits as nat, upper),
{
    out.push('0');
    out.push('x');
    push_hex(out, value, min_digits, upper);
    assert(out@ =~= old(out)@ + hex_prefixed(value as nat, min_digits as nat, upper));
}

/// Appends `value` in decimal, filled with spaces on the left up to `width` characters.
pub fn push_dec_right(out: &mut String, value: u64, width: usize)
    ensures
        final(out)@ == old(out)@ + pad_left(dec_digits(value as nat), width as nat, ' '),
{
    let digits = dec_digits_reversed(value);
    if digits.len() < width {
        push_repeat(out, ' ', width - digits.len());
    }
    push_reversed(out, &digits);
    assert(out@ =~= old(out)@ + pad_left(dec_digits(value as nat), width as nat, ' '));
}

/// Appends `value` in decimal, filled with spaces on the right up to `width` characters.
pub fn push_dec_left(out: &mut String, value: u64, width: usize)
    ensures
        final(out)@ == old(out)@ + pad_right(dec_digits(value as nat), width as nat, ' '),
{
    let digits = dec_digits_reversed(value);
    push_reversed(out, &digits);
    if digits.len() < width {
        push_repeat(out, ' ', width - digits.len());
    }
    assert(out@ =~= old(out)@ + pad_right(dec_digits(value as nat), width as nat, ' '));
}

} // verus!
