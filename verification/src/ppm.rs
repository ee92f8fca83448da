//! The plain-text PPM encoding of a finished frame.
//!
//! A file is the header `P3`, the width and the height, the maximum `255`,
//! and then one line for each pixel, rows from top to bottom, with the
//! red, green and blue channels as decimal numbers.

use vstd::prelude::*;

verus! {

/// The ASCII digit for `d`.
pub open spec fn digit(d: nat) -> u8 {
    (48 + d) as u8
}

/// The decimal digits of `n`, most significant first, without leading zeros.
pub open spec fn decimal_nat(n: nat) -> Seq<u8>
    decreases n,
{
    if n < 10 {
        seq![digit(n)]
    } else {
        decimal_nat(n / 10).push(digit(n % 10))
    }
}

/// The decimal form of `n`, with a minus sign if it is negative.
pub open spec fn decimal(n: int) -> Seq<u8> {
    if n < 0 {
        seq![45u8] + decimal_nat((-n) as nat)
    } else {
        decimal_nat(n as nat)
    }
}

/// The header of a frame of the given size: `P3`, the width and the height
/// on one line, and the maximum channel value `255`.
pub open spec fn header_spec(width: int, height: int) -> Seq<u8> {
    seq![80u8, 51u8, 10u8] + decimal(width) + seq![32u8] + decimal(height) + seq![
        10u8,
        50u8,
        53u8,
        53u8,
        10u8,
    ]
}

/// The line of one pixel: the three channels, each followed by a space.
pub open spec fn color_spec(pixel: (i32, i32, i32)) -> Seq<u8> {
    decimal(pixel.0 as int) + seq![32u8] + decimal(pixel.1 as int) + seq![32u8] + decimal(
        pixel.2 as int,
    ) + seq![32u8, 10u8]
}

/// The lines of the pixels, in order.
pub open spec fn body_spec(pixels: Seq<(i32, i32, i32)>) -> Seq<u8>
    decreases pixels.len(),
{
    if pixels.len() == 0 {
        Seq::empty()
    } else {
        body_spec(pixels.drop_last()) + color_spec(pixels.last())
    }
}

/// The whole file.
pub open spec fn encode_spec(width: int, height: int, pixels: Seq<(i32, i32, i32)>) -> Seq<u8> {
    header_spec(width, height) + body_spec(pixels)
}

/// Appends the decimal digits of `n`.
fn push_decimal_nat(out: &mut Vec<u8>, n: u32)
    ensures
        final(out)@ == old(out)@ + decimal_nat(n as nat),
    decreases n,
{
    if n >= 10 {
        push_decimal_nat(out, n / 10);
    }
    let d: u8 = (n % 10) as u8;
    out.push(48 + d);
    assert(out@ =~= old(out)@ + decimal_nat(n as nat));
}

/// Appends the decimal form of `n`.
fn push_decimal(out: &mut Vec<u8>, n: i32)
    ensures
        final(out)@ == old(out)@ + decimal(n as int),
{
    if n < 0 {
        out.push(45);
        let m: u32 = if n == i32::MIN {
            2147483648
        } else {
            (-n) as u32
        };
        push_decimal_nat(out, m);
        assert(out@ =~= old(out)@ + decimal(n as int));
    } else {
        push_decimal_nat(out, n as u32);
    }
}

/// Appends the header of a frame of the given size.
pub fn write_header(out: &mut Vec<u8>, width: i32, height: i32)
    ensures
        final(out)@ == old(out)@ + header_spec(width as int, height as int),
{
    out.push(80);
    out.push(51);
    out.push(10);
    push_decimal(out, width);
    out.push(32);
    push_decimal(out, height);
    out.push(10);
    out.push(50);
    out.push(53);
    out.push(53);
    out.push(10);
    assert(out@ =~= old(out)@ + header_spec(width as int, height as int));
}

/// Appends the line of one pixel with the channels `ir`, `ig` and `ib`.
pub fn write_color(out: &mut Vec<u8>, ir: i32, ig: i32, ib: i32)
    ensures
        final(out)@ == old(out)@ + color_spec((ir, ig, ib)),
{
    push_decimal(out, ir);
    out.push(32);
    push_decimal(out, ig);
    out.push(32);
    push_decimal(out, ib);
    out.push(32);
    out.push(10);
    assert(out@ =~= old(out)@ + color_spec((ir, ig, ib)));
}

/// Encodes a frame: the header, then the pixels as they come.
pub fn encode(width: i32, height: i32, pixels: &Vec<(i32, i32, i32)>) -> (out: Vec<u8>)
    ensures
        out@ == encode_spec(width as int, height as int, pixels@),
{
    let mut out: Vec<u8> = Vec::new();
    write_header(&mut out, width, height);
    let mut i: usize = 0;
    assert(pixels@.take(0) =~= Seq::empty());
    assert(out@ =~= header_spec(width as int, height as int) + body_spec(pixels@.take(0)));
    while i < pixels.len()
        invariant
            i <= pixels.len(),
            out@ == header_spec(width as int, height as int) + body_spec(pixels@.take(i as int)),
        decreases pixels.len() - i,
    {
        let (ir, ig, ib) = pixels[i];
        write_color(&mut out, ir, ig, ib);
        proof {
            let next = pixels@.take(i + 1);
            assert(next.drop_last() =~= pixels@.take(i as int));
            assert(next.last() == pixels@[i as int]);
            assert(out@ =~= header_spec(width as int, height as int) + body_spec(next));
        }
        i += 1;
    }
    assert(pixels@.take(i as int) =~= pixels@);
    out
}

} // verus!
