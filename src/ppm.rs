use vstd::prelude::*;

use crate::image::{ImageModel, Rgb};

verus! {

/// ASCII code of the digit `0`.
pub const ZERO: u8 = 48;

/// ASCII code of a space.
pub const SPACE: u8 = 32;

/// ASCII code of a line feed.
pub const NEWLINE: u8 = 10;

/// ASCII code of the letter `P`.
pub const LETTER_P: u8 = 80;

/// Largest channel value that a pixel line may hold.
pub const MAX_CHANNEL: u64 = 255;

/// The decimal digits of `n`, most significant first, without leading zeros.
pub open spec fn decimal(n: nat) -> Seq<u8>
    decreases n,
{
    if n < 10 {
        seq![(ZERO + n) as u8]
    } else {
        decimal(n / 10).push((ZERO + n % 10) as u8)
    }
}

/// The three header lines of a plain-text PPM image: the magic number
/// (the letter P and the digit 3), the size, and the largest channel value.
pub open spec fn ppm_header(width: nat, height: nat) -> Seq<u8> {
    seq![LETTER_P, (ZERO + 3) as u8, NEWLINE] + decimal(width) + seq![SPACE] + decimal(height)
        + seq![NEWLINE] + decimal(MAX_CHANNEL as nat) + seq![NEWLINE]
}

/// One pixel as a PPM line: three decimal channels, separated by spaces.
pub open spec fn ppm_pixel(p: Rgb) -> Seq<u8> {
    decimal(p.r as nat) + seq![SPACE] + decimal(p.g as nat) + seq![SPACE] + decimal(p.b as nat)
        + seq![NEWLINE]
}

/// The lines of all pixels of `pixels`, in order.
pub open spec fn ppm_pixels(pixels: Seq<Rgb>) -> Seq<u8>
    decreases pixels.len(),
{
    if pixels.len() == 0 {
        Seq::empty()
    } else {
        ppm_pixels(pixels.drop_last()) + ppm_pixel(pixels.last())
    }
}

/// The whole plain-text PPM file of an image.
pub open spec fn ppm(m: ImageModel) -> Seq<u8> {
    ppm_header(m.width, m.height) + ppm_pixels(m.pixels)
}

/// Appends the decimal digits of `n` to `out`.
pub fn push_decimal(out: &mut Vec<u8>, n: u64)
    ensures
        final(out)@ == old(out)@ + decimal(n as nat),
    decreases n,
{
    if n >= 10 {
        push_decimal(out, n / 10);
    }
    let d: u8 = (n % 10) as u8;
    out.push(ZERO + d);
    proof {
        assert(out@ =~= old(out)@ + decimal(n as nat));
    }
}

/// Appends the PPM header of a `width` by `height` image to `out`.
pub fn push_header(out: &mut Vec<u8>, width: u64, height: u64)
    ensures
        final(out)@ == old(out)@ + ppm_header(width as nat, height as nat),
{
    out.push(LETTER_P);
    out.push(ZERO + 3);
    out.push(NEWLINE);
    push_decimal(out, width);
    out.push(SPACE);
    push_decimal(out, height);
    out.push(NEWLINE);
    push_decimal(out, MAX_CHANNEL);
    out.push(NEWLINE);
    assert(out@ =~= old(out)@ + ppm_header(width as nat, height as nat));
}

/// Appends the PPM line of pixel `p` to `out`.
pub fn push_pixel(out: &mut Vec<u8>, p: Rgb)
    ensures
        final(out)@ == old(out)@ + ppm_pixel(p),
{
    push_decimal(out, p.r as u64);
    out.push(SPACE);
    push_decimal(out, p.g as u64);
    out.push(SPACE);
    push_decimal(out, p.b as u64);
    out.push(NEWLINE);
    assert(out@ =~= old(out)@ + ppm_pixel(p));
}

} // verus!
