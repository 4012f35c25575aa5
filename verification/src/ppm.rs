//! The plain-text pixel format that a finished image is written in: a header
//! of three lines, the name of the format, the width and height, and `255`,
//! followed by one line of three numbers for every pixel, row by row.

use crate::buffer::PixelBuffer;
use crate::color::{quantize, quantized, Color};
use vstd::prelude::*;

verus! {

/// A pixel as it is written out: three channels of eight bits.
#[derive(Clone, Copy, Debug, PartialEq, Eq, Structural)]
pub struct Rgb {
    pub r: u8,
    pub g: u8,
    pub b: u8,
}

/// The line feed that ends every line.
pub const NEWLINE: u8 = 10;

/// The blank between two numbers of a line.
pub const SPACE: u8 = 32;

/// The character for a single decimal digit.
pub open spec fn digit_char(d: nat) -> u8 {
    (48 + d) as u8
}

/// The decimal numeral of `n`, most significant digit first, without leading
/// zeros.
pub open spec fn decimal(n: nat) -> Seq<u8>
    decreases n,
{
    if n < 10 {
        seq![digit_char(n)]
    } else {
        decimal(n / 10).push(digit_char(n % 10))
    }
}

/// The number that a string of decimal digits stands for.
pub open spec fn decimal_value(digits: Seq<u8>) -> nat
    decreases digits.len(),
{
    if digits.len() == 0 {
        0
    } else {
        decimal_value(digits.drop_last()) * 10 + (digits.last() - 48) as nat
    }
}

/// The three header lines: the format's name, the size of the image and the
/// largest channel value.
pub open spec fn header_text(width: nat, height: nat) -> Seq<u8> {
    seq![80u8, 51u8, NEWLINE] + decimal(width) + seq![SPACE] + decimal(height) + seq![
        NEWLINE,
        50u8,
        53u8,
        53u8,
        NEWLINE,
    ]
}

/// The line of one pixel: red, green and blue, separated by blanks.
pub open spec fn pixel_text(p: Rgb) -> Seq<u8> {
    decimal(p.r as nat) + seq![SPACE] + decimal(p.g as nat) + seq![SPACE] + decimal(p.b as nat)
        + seq![NEWLINE]
}

/// The lines of all pixels, in the order of the buffer.
pub open spec fn body_text(pixels: Seq<Rgb>) -> Seq<u8>
    decreases pixels.len(),
{
    if pixels.len() == 0 {
        Seq::empty()
    } else {
        body_text(pixels.drop_last()) + pixel_text(pixels.last())
    }
}

/// The whole file for an image of the given size.
pub open spec fn image_text(width: nat, height: nat, pixels: Seq<Rgb>) -> Seq<u8> {
    header_text(width, height) + body_text(pixels)
}

/// A numeral consists of decimal digits only, starts with `0` only when the
/// number is zero, and reads back as the number it was made from.
pub proof fn lemma_decimal_reads_back(n: nat)
    ensures
        decimal(n).len() >= 1,
        forall|i: int| 0 <= i < decimal(n).len() ==> 48 <= #[trigger] decimal(n)[i] <= 57,
        decimal(n)[0] == 48 <==> n == 0,
        decimal_value(decimal(n)) == n,
    decreases n,
{
    if n < 10 {
        assert(decimal_value(decimal(n).drop_last()) == 0);
    } else {
        lemma_decimal_reads_back(n / 10);
        let head = decimal(n / 10);
        assert(decimal(n).drop_last() =~= head);
    }
}

/// The body holds one line for every pixel: it has as many line feeds as
/// the buffer has pixels.
pub proof fn lemma_body_line_count(pixels: Seq<Rgb>)
    ensures
        line_feeds(body_text(pixels)) == pixels.len(),
    decreases pixels.len(),
{
    if pixels.len() > 0 {
        let p = pixels.last();
        lemma_body_line_count(pixels.drop_last());
        lemma_decimal_reads_back(p.r as nat);
        lemma_decimal_reads_back(p.g as nat);
        lemma_decimal_reads_back(p.b as nat);
        lemma_line_feeds_of_numeral(decimal(p.r as nat));
        lemma_line_feeds_of_numeral(decimal(p.g as nat));
        lemma_line_feeds_of_numeral(decimal(p.b as nat));
        let blank = seq![SPACE];
        let feed = seq![NEWLINE];
        assert(line_feeds(blank) == 0) by {
            assert(line_feeds(blank.drop_last()) == 0);
        }
        assert(line_feeds(feed) == 1) by {
            assert(line_feeds(feed.drop_last()) == 0);
        }
        let r = decimal(p.r as nat);
        let g = decimal(p.g as nat);
        let b = decimal(p.b as nat);
        lemma_line_feeds_concat(r, blank);
        lemma_line_feeds_concat(r + blank, g);
        lemma_line_feeds_concat(r + blank + g, blank);
        lemma_line_feeds_concat(r + blank + g + blank, b);
        lemma_line_feeds_concat(r + blank + g + blank + b, feed);
        lemma_line_feeds_concat(body_text(pixels.drop_last()), pixel_text(p));
    }
}

/// Number of line feeds in a text.
pub open spec fn line_feeds(text: Seq<u8>) -> nat
    decreases text.len(),
{
    if text.len() == 0 {
        0
    } else {
        line_feeds(text.drop_last()) + if text.last() == NEWLINE {
            1nat
        } else {
            0nat
        }
    }
}

proof fn lemma_line_feeds_concat(a: Seq<u8>, b: Seq<u8>)
    ensures
        line_feeds(a + b) == line_feeds(a) + line_feeds(b),
    decreases b.len(),
{
    if b.len() == 0 {
    } else {
        lemma_line_feeds_concat(a, b.drop_last());
        assert((a + b).drop_last() =~= a + b.drop_last());
    }
}

proof fn lemma_line_feeds_of_numeral(digits: Seq<u8>)
    requires
        forall|i: int| 0 <= i < digits.len() ==> 48 <= #[trigger] digits[i] <= 57,
    ensures
        line_feeds(digits) == 0,
    decreases digits.len(),
{
    if digits.len() > 0 {
        lemma_line_feeds_of_numeral(digits.drop_last());
    }
}

/// Appends the decimal numeral of `n`.
pub fn write_decimal(out: &mut Vec<u8>, n: u64)
    ensures
        final(out)@ == old(out)@ + decimal(n as nat),
    decreases n,
{
    if n >= 10 {
        write_decimal(out, n / 10);
    }
    let d: u8 = (n % 10) as u8;
    out.push(48u8 + d);
}

/// Appends the line of one pixel.
pub fn write_pixel(out: &mut Vec<u8>, p: Rgb)
    ensures
        final(out)@ == old(out)@ + pixel_text(p),
{
    write_decimal(out, p.r as u64);
    out.push(SPACE);
    write_decimal(out, p.g as u64);
    out.push(SPACE);
    write_decimal(out, p.b as u64);
    out.push(NEWLINE);
}

/// The header of an image of the given size.
pub fn header(width: usize, height: usize) -> (text: Vec<u8>)
    ensures
        text@ == header_text(width as nat, height as nat),
{
    let mut text: Vec<u8> = Vec::new();
    text.push(80u8);
    text.push(51u8);
    text.push(NEWLINE);
    write_decimal(&mut text, width as u64);
    text.push(SPACE);
    write_decimal(&mut text, height as u64);
    text.push(NEWLINE);
    text.push(50u8);
    text.push(53u8);
    text.push(53u8);
    text.push(NEWLINE);
    text
}

/// The whole file of an image: the header with the size of the buffer, then
/// the pixels in the order of the buffer.
pub fn encode(image: &PixelBuffer<Rgb>) -> (text: Vec<u8>)
    requires
        image.wf(),
    ensures
        text@ == image_text(image.spec_width(), image.spec_height(), image@),
        image@.len() == image.spec_width() * image.spec_height(),
{
    let mut text = header(image.width(), image.height());
    let pixels = image.pixels();
    let mut i: usize = 0;
    while i < pixels.len()
        invariant
            i <= pixels@.len(),
            pixels@ == image@,
            text@ == header_text(image.spec_width(), image.spec_height()) + body_text(
                pixels@.take(i as int),
            ),
        decreases pixels@.len() - i,
    {
        write_pixel(&mut text, pixels[i]);
        proof {
            assert(pixels@.take(i + 1).drop_last() =~= pixels@.take(i as int));
            assert(text@ =~= header_text(image.spec_width(), image.spec_height()) + body_text(
                pixels@.take(i + 1),
            ));
        }
        i += 1;
    }
    assert(pixels@.take(i as int) =~= pixels@);
    text
}

/// The pixels that a buffer of colours is written as.
pub open spec fn quantized_pixels(colors: Seq<Color>) -> Seq<Rgb> {
    colors.map_values(|c: Color| quantized(c@))
}

/// The whole file of a rendered image: the header with the size of the
/// buffer, then every colour of the buffer, brought to eight bits a channel,
/// in the order of the buffer.
pub fn write_image(image: &PixelBuffer<Color>) -> (text: Vec<u8>)
    requires
        image.wf(),
    ensures
        text@ == image_text(image.spec_width(), image.spec_height(), quantized_pixels(image@)),
        image@.len() == image.spec_width() * image.spec_height(),
{
    let colors = image.pixels();
    let mut pixels: Vec<Rgb> = Vec::new();
    let mut i: usize = 0;
    while i < colors.len()
        invariant
            i <= colors@.len(),
            pixels@ == quantized_pixels(colors@.take(i as int)),
        decreases colors@.len() - i,
    {
        pixels.push(quantize(colors[i]));
        i += 1;
    }
    assert(colors@.take(i as int) =~= colors@);
    match PixelBuffer::from_vec(image.width(), image.height(), pixels) {
        Some(bytes) => encode(&bytes),
        None => Vec::new(),
    }
}

} // verus!
