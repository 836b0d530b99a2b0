//! The text of a plain PPM image: the header `P3`, the width and the height,
//! the highest channel value 255, and then one line of three numbers for
//! each pixel. Every number is written in decimal digits without padding.
use vstd::prelude::*;
use crate::scalar::Scalar;

verus! {

/// The character `0`; the other digits follow it.
pub const DIGIT_ZERO: u8 = 0x30;

pub const MINUS: u8 = 0x2d;

pub const SPACE: u8 = 0x20;

pub const NEWLINE: u8 = 0x0a;

/// The character of the digit `d`.
pub open spec fn digit(d: nat) -> u8 {
    (DIGIT_ZERO + d) as u8
}

/// The decimal digits of `n`, the highest first, without a leading zero
/// except for zero itself.
pub open spec fn decimal_nat(n: nat) -> Seq<u8>
    decreases n,
{
    if n < 10 {
        seq![digit(n)]
    } else {
        decimal_nat(n / 10).push(digit(n % 10))
    }
}

/// The decimal form of `n`, with a minus sign in front where it is negative.
pub open spec fn decimal(n: int) -> Seq<u8> {
    if n < 0 {
        seq![MINUS] + decimal_nat((-n) as nat)
    } else {
        decimal_nat(n as nat)
    }
}

/// The number that a run of decimal digits stands for.
pub open spec fn value_of(digits: Seq<u8>) -> nat
    decreases digits.len(),
{
    if digits.len() == 0 {
        0
    } else {
        (value_of(digits.drop_last()) * 10 + (digits.last() - DIGIT_ZERO)) as nat
    }
}

/// The header of an image: `P3`, a line with width and height, and a line
/// with 255.
pub open spec fn header_text(width: nat, height: nat) -> Seq<u8> {
    seq![0x50u8, 0x33u8, NEWLINE] + decimal_nat(width) + seq![SPACE] + decimal_nat(height)
        + seq![NEWLINE, 0x32u8, 0x35u8, 0x35u8, NEWLINE]
}

/// The line of one pixel: red, green and blue with a space between them.
pub open spec fn pixel_text(red: int, green: int, blue: int) -> Seq<u8> {
    decimal(red) + seq![SPACE] + decimal(green) + seq![SPACE] + decimal(blue) + seq![NEWLINE]
}

/// Appends the decimal digits of `n`.
fn push_decimal_nat(out: &mut Vec<u8>, n: u64)
    ensures
        final(out)@ == old(out)@ + decimal_nat(n as nat),
    decreases n,
{
    if n >= 10 {
        push_decimal_nat(out, n / 10);
    }
    let d: u8 = (n % 10) as u8;
    out.push(DIGIT_ZERO + d);
    proof {
        if n >= 10 {
            assert(final(out)@ =~= old(out)@ + decimal_nat((n / 10) as nat).push(digit((n % 10) as nat)));
        } else {
            assert(final(out)@ =~= old(out)@ + seq![digit(n as nat)]);
        }
    }
}

/// Appends the decimal form of `n`.
fn push_decimal(out: &mut Vec<u8>, n: i32)
    ensures
        final(out)@ == old(out)@ + decimal(n as int),
{
    if n < 0 {
        out.push(MINUS);
        let wide: i64 = n as i64;
        let m: u64 = (-wide) as u64;
        push_decimal_nat(out, m);
        assert(final(out)@ =~= old(out)@ + (seq![MINUS] + decimal_nat((-n) as nat)));
    } else {
        push_decimal_nat(out, n as u64);
    }
}

/// The header of a plain PPM image of `width` by `height` pixels.
pub fn header(width: usize, height: usize) -> (text: Vec<u8>)
    ensures
        text@ == header_text(width as nat, height as nat),
{
    let mut text: Vec<u8> = Vec::new();
    text.push(0x50u8);
    text.push(0x33u8);
    text.push(NEWLINE);
    push_decimal_nat(&mut text, width as u64);
    text.push(SPACE);
    push_decimal_nat(&mut text, height as u64);
    text.push(NEWLINE);
    text.push(0x32u8);
    text.push(0x35u8);
    text.push(0x35u8);
    text.push(NEWLINE);
    assert(text@ =~= header_text(width as nat, height as nat));
    text
}

/// The line of a pixel. `red`, `green` and `blue` are its channels on the
/// scale of the image, where full brightness is just below 256; each is cut
/// off to a whole number and written as it is, also where it leaves the
/// range up to 255.
pub fn pixel_line(red: Scalar, green: Scalar, blue: Scalar) -> (text: Vec<u8>)
    ensures
        text@ == pixel_text(
            red.spec_to_i32() as int,
            green.spec_to_i32() as int,
            blue.spec_to_i32() as int,
        ),
{
    let mut text: Vec<u8> = Vec::new();
    push_decimal(&mut text, red.to_i32());
    text.push(SPACE);
    push_decimal(&mut text, green.to_i32());
    text.push(SPACE);
    push_decimal(&mut text, blue.to_i32());
    text.push(NEWLINE);
    assert(text@ =~= pixel_text(
        red.spec_to_i32() as int,
        green.spec_to_i32() as int,
        blue.spec_to_i32() as int,
    ));
    text
}

/// What is written for a number is made of digits, starts with no zero
/// unless the number is zero, and reads back as the number.
pub proof fn lemma_decimal_reads_back(n: nat)
    ensures
        decimal_nat(n).len() >= 1,
        forall|i: int|
            0 <= i < decimal_nat(n).len() ==> DIGIT_ZERO <= #[trigger] decimal_nat(n)[i]
                <= DIGIT_ZERO + 9,
        decimal_nat(n)[0] == DIGIT_ZERO <==> n == 0,
        value_of(decimal_nat(n)) == n,
    decreases n,
{
    if n < 10 {
        let s = decimal_nat(n);
        assert(s.drop_last() =~= Seq::<u8>::empty());
        assert(value_of(s.drop_last()) == 0);
    } else {
        lemma_decimal_reads_back(n / 10);
        let head = decimal_nat(n / 10);
        let s = head.push(digit(n % 10));
        assert(s.drop_last() =~= head);
        assert(s[0] == head[0]);
    }
}

} // verus!
