//! Numbers as text: decimal and upper-case hexadecimal numerals, padding,
//! and the `U+` label of a code point.

use vstd::prelude::*;

verus! {

/// The character for the digit `d`: `0`-`9`, then `A`-`F`.
pub open spec fn digit_char(d: nat) -> char {
    if d < 10 {
        (0x30 + d) as char
    } else {
        (0x41 + d - 10) as char
    }
}

/// The decimal numeral of `v`, without leading zeros.
pub open spec fn decimal(v: nat) -> Seq<char>
    decreases v,
{
    if v < 10 {
        seq![digit_char(v)]
    } else {
        decimal(v / 10).push(digit_char(v % 10))
    }
}

/// The upper-case hexadecimal numeral of `v`, without leading zeros.
pub open spec fn upper_hex(v: nat) -> Seq<char>
    decreases v,
{
    if v < 16 {
        seq![digit_char(v)]
    } else {
        upper_hex(v / 16).push(digit_char(v % 16))
    }
}

/// `s`, with as many copies of `fill` in front as it takes to reach
/// `width` characters.
pub open spec fn pad_left(s: Seq<char>, width: nat, fill: char) -> Seq<char> {
    if s.len() >= width {
        s
    } else {
        Seq::new((width - s.len()) as nat, |i: int| fill) + s
    }
}

/// The label of a code point: `U+` and at least four upper-case
/// hexadecimal digits.
pub open spec fn code_label(cp: u32) -> Seq<char> {
    seq!['U', '+'] + pad_left(upper_hex(cp as nat), 4, '0')
}

/// The character for the digit `d`.
fn digit_to_char(d: u8) -> (c: char)
    requires
        d < 16,
    ensures
        c == digit_char(d as nat),
{
    if d < 10 {
        (0x30u8 + d) as char
    } else {
        (0x41u8 + (d - 10)) as char
    }
}

/// The numeral of `v` in base 10 or 16, in specifications.
pub open spec fn numeral(v: nat, hex: bool) -> Seq<char> {
    if hex {
        upper_hex(v)
    } else {
        decimal(v)
    }
}

/// Appends to `out` the numeral of `v`, in hexadecimal if `hex` and in
/// decimal otherwise, padded on the left with `fill` to `width`
/// characters.
pub fn push_numeral(out: &mut Vec<char>, v: u64, hex: bool, width: usize, fill: char)
    ensures
        final(out)@ == old(out)@ + pad_left(numeral(v as nat, hex), width as nat, fill),
{
    let base: u64 = if hex {
        16
    } else {
        10
    };
    // the digits, least significant first
    let mut digits: Vec<char> = Vec::new();
    digits.push(digit_to_char((v % base) as u8));
    let mut rest: u64 = v / base;
    while rest > 0
        invariant
            base == (if hex {
                16u64
            } else {
                10u64
            }),
            digits@.len() >= 1,
            numeral(v as nat, hex) == (if rest > 0 {
                numeral(rest as nat, hex)
            } else {
                Seq::<char>::empty()
            }) + digits@.reverse(),
        decreases rest,
    {
        let d: char = digit_to_char((rest % base) as u8);
        digits.push(d);
        rest = rest / base;
    }
    let text_len: usize = digits.len();
    let mut pad: usize = 0;
    if width > text_len {
        while pad < width - text_len
            invariant
                text_len == digits@.len(),
                width > text_len,
                pad <= width - text_len,
                out@ == old(out)@ + Seq::new(pad as nat, |i: int| fill),
            decreases width - text_len - pad,
        {
            proof {
                assert(Seq::new((pad + 1) as nat, |i: int| fill) =~= Seq::new(
                    pad as nat,
                    |i: int| fill,
                ).push(fill));
            }
            out.push(fill);
            pad += 1;
        }
    }
    let ghost padded = out@;
    let mut k: usize = text_len;
    while k > 0
        invariant
            k <= text_len,
            text_len == digits@.len(),
            out@ == padded + digits@.reverse().take(text_len - k),
        decreases k,
    {
        k -= 1;
        out.push(digits[k]);
    }
    proof {
        assert(padded + digits@.reverse() =~= old(out)@ + pad_left(
            numeral(v as nat, hex),
            width as nat,
            fill,
        ));
    }
}

/// A number of tenths with one digit behind the decimal point.
pub open spec fn one_decimal(tenths: nat) -> Seq<char> {
    decimal(tenths / 10) + seq!['.', digit_char(tenths % 10)]
}

/// Appends `tenths` tenths to `out`, with one digit behind the decimal
/// point.
pub fn push_one_decimal(out: &mut Vec<char>, tenths: u64)
    ensures
        final(out)@ == old(out)@ + one_decimal(tenths as nat),
{
    push_numeral(out, tenths / 10, false, 0, ' ');
    out.push('.');
    out.push(digit_to_char((tenths % 10) as u8));
}

/// Appends the decimal numeral of `v` to `out`.
pub fn push_decimal(out: &mut Vec<char>, v: usize)
    ensures
        final(out)@ == old(out)@ + decimal(v as nat),
{
    push_numeral(out, v as u64, false, 0, ' ');
}

/// Appends the label of the code point `cp` to `out`.
pub fn push_code_label(out: &mut Vec<char>, cp: u32)
    ensures
        final(out)@ == old(out)@ + code_label(cp),
{
    out.push('U');
    out.push('+');
    push_numeral(out, cp as u64, true, 4, '0');
}

} // verus!
