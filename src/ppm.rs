use vstd::prelude::*;

use crate::image::Image;

verus! {

/// ASCII `0`.
pub const ZERO_DIGIT: u8 = 48;

/// ASCII space.
pub const SPACE: u8 = 32;

/// ASCII line feed.
pub const NEWLINE: u8 = 10;

/// ASCII `P`, the first letter of the format's magic number.
pub const MAGIC_LETTER: u8 = 80;

/// The largest channel value, written in the header.
pub const MAX_CHANNEL: u32 = 255;

/// A display colour quantized to 8 bits per channel.
#[derive(Clone, Copy, Debug, PartialEq, Eq, Structural)]
pub struct Rgb {
    pub r: u8,
    pub g: u8,
    pub b: u8,
}

/// The decimal digits of `n` in ASCII, without leading zeros.
pub open spec fn decimal(n: nat) -> Seq<u8>
    decreases n,
{
    if n < 10 {
        seq![(ZERO_DIGIT + n) as u8]
    } else {
        decimal(n / 10) + seq![(ZERO_DIGIT + n % 10) as u8]
    }
}

/// The plain-text PPM header: the magic number (the letter `P` and the digit
/// `3`), then `<width> <height>`, then the maximum channel value `255`, each
/// on a line of its own.
pub open spec fn ppm_header(width: nat, height: nat) -> Seq<u8> {
    seq![MAGIC_LETTER] + decimal(3) + seq![NEWLINE] + decimal(width) + seq![SPACE] + decimal(height)
        + seq![NEWLINE] + decimal(MAX_CHANNEL as nat) + seq![NEWLINE]
}

/// One pixel's line: `<r> <g> <b>`.
pub open spec fn ppm_pixel(c: Rgb) -> Seq<u8> {
    decimal(c.r as nat) + seq![SPACE] + decimal(c.g as nat) + seq![SPACE] + decimal(c.b as nat)
        + seq![NEWLINE]
}

/// The lines of a row of pixels, left to right.
pub open spec fn ppm_row(row: Seq<Rgb>) -> Seq<u8>
    decreases row.len(),
{
    if row.len() == 0 {
        seq![]
    } else {
        ppm_row(row.drop_last()) + ppm_pixel(row.last())
    }
}

/// The lines of the rows, top row first.
pub open spec fn ppm_rows(rows: Seq<Seq<Rgb>>) -> Seq<u8>
    decreases rows.len(),
{
    if rows.len() == 0 {
        seq![]
    } else {
        ppm_rows(rows.drop_last()) + ppm_row(rows.last())
    }
}

/// Appends the decimal digits of `n`.
fn push_decimal(out: &mut Vec<u8>, n: u32)
    ensures
        final(out)@ == old(out)@ + decimal(n as nat),
    decreases n,
{
    if n >= 10 {
        push_decimal(out, n / 10);
    }
    out.push(ZERO_DIGIT + (n % 10) as u8);
    assert(final(out)@ =~= old(out)@ + decimal(n as nat));
}

/// The image as a plain-text PPM file: the header, then one line per pixel
/// in row-major order from the top-left corner.
pub fn encode_ppm(image: &Image<Rgb>) -> (r: Vec<u8>)
    requires
        image.wf(),
    ensures
        r@ == ppm_header(image.spec_width() as nat, image.spec_height() as nat) + ppm_rows(image@),
{
    let width = image.width();
    let height = image.height();
    let mut out: Vec<u8> = Vec::new();
    out.push(MAGIC_LETTER);
    push_decimal(&mut out, 3);
    out.push(NEWLINE);
    push_decimal(&mut out, width as u32);
    out.push(SPACE);
    push_decimal(&mut out, height as u32);
    out.push(NEWLINE);
    push_decimal(&mut out, MAX_CHANNEL);
    out.push(NEWLINE);
    let ghost header = ppm_header(width as nat, height as nat);
    assert(out@ =~= header);
    let mut y: i32 = 0;
    while y < height
        invariant
            image.wf(),
            width == image.spec_width(),
            height == image.spec_height(),
            0 <= y <= height,
            out@ == header + ppm_rows(image@.subrange(0, y as int)),
        decreases height - y,
    {
        let mut x: i32 = 0;
        while x < width
            invariant
                image.wf(),
                width == image.spec_width(),
                height == image.spec_height(),
                0 <= y < height,
                0 <= x <= width,
                out@ == header + ppm_rows(image@.subrange(0, y as int)) + ppm_row(
                    image@[y as int].subrange(0, x as int),
                ),
            decreases width - x,
        {
            let c = image.pixel(x, y);
            let ghost before = out@;
            push_decimal(&mut out, c.r as u32);
            out.push(SPACE);
            push_decimal(&mut out, c.g as u32);
            out.push(SPACE);
            push_decimal(&mut out, c.b as u32);
            out.push(NEWLINE);
            assert(out@ =~= before + ppm_pixel(c));
            assert(image@[y as int].subrange(0, x + 1).drop_last() =~= image@[y as int].subrange(
                0,
                x as int,
            ));
            x += 1;
        }
        assert(image@[y as int].subrange(0, x as int) =~= image@[y as int]);
        assert(image@.subrange(0, y + 1).drop_last() =~= image@.subrange(0, y as int));
        y += 1;
    }
    assert(image@.subrange(0, y as int) =~= image@);
    out
}

} // verus!
