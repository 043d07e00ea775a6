//! From light to pixels: gamma correction, quantisation, and the text of a portable
//! pixmap.
use vstd::prelude::*;
use crate::scalar::{
    is_isqrt, isqrt, lemma_isqrt_exists, lemma_isqrt_monotone, Fixed, SCALE,
};
use crate::vector::Color;

verus! {

/// The largest corrected channel value that is kept, in raw units: 0.999.
pub const BRIGHTEST: i64 = 999_000_000;

/// The factor from a corrected channel value to a byte, in raw units: 255.999.
pub const LEVELS: i64 = 255_999_000_000;

/// The ASCII code of the digit zero.
pub const DIGIT_ZERO: u8 = 48;

/// The ASCII code of the space.
pub const SPACE: u8 = 32;

/// The ASCII code of the line feed.
pub const NEWLINE: u8 = 10;

/// Gamma correction with gamma two: the square root of a positive value, else zero.
pub open spec fn spec_linear_to_gamma(linear_component: Fixed) -> Fixed {
    if linear_component.raw > 0 {
        linear_component.spec_sqrt()
    } else {
        Fixed { raw: 0 }
    }
}

pub fn linear_to_gamma(linear_component: Fixed) -> (r: Fixed)
    ensures
        r == spec_linear_to_gamma(linear_component),
        r.raw >= 0,
{
    if linear_component.raw > 0 {
        linear_component.sqrt()
    } else {
        Fixed { raw: 0 }
    }
}

/// The byte of a channel: the corrected value, capped at [`BRIGHTEST`], times
/// [`LEVELS`], rounded down.
pub open spec fn spec_channel_byte(linear_component: Fixed) -> int {
    let corrected = spec_linear_to_gamma(linear_component).spec_max(Fixed { raw: 0 }).spec_min(
        Fixed { raw: BRIGHTEST },
    );
    (corrected.raw * LEVELS) / (SCALE as int) / (SCALE as int)
}

pub fn channel_byte(linear_component: Fixed) -> (r: u8)
    ensures
        r == spec_channel_byte(linear_component),
{
    let corrected = linear_to_gamma(linear_component).max(Fixed { raw: 0 }).min(
        Fixed { raw: BRIGHTEST },
    );
    assert(0 <= corrected.raw * LEVELS <= 999_000_000 * 255_999_000_000) by (nonlinear_arith)
        requires
            0 <= corrected.raw <= 999_000_000,
            LEVELS == 255_999_000_000,
    ;
    let wide: u128 = (corrected.raw as u128) * (LEVELS as u128);
    let unit: u128 = SCALE as u128;
    let first: u128 = wide / unit;
    let level: u128 = first / unit;
    assert(wide <= 255_743_001_000_000_000_000);
    assert(first <= 255_743_001_000);
    assert(level <= 255);
    level as u8
}

/// The three bytes of a colour: red, green, blue.
pub open spec fn spec_color_bytes(color: Color) -> (u8, u8, u8) {
    (
        spec_channel_byte(color.x) as u8,
        spec_channel_byte(color.y) as u8,
        spec_channel_byte(color.z) as u8,
    )
}

pub fn color_bytes(color: &Color) -> (r: (u8, u8, u8))
    ensures
        r == spec_color_bytes(*color),
{
    (channel_byte(color.x), channel_byte(color.y), channel_byte(color.z))
}

/// The decimal digits of a number, as ASCII, without leading zeros.
pub open spec fn spec_decimal(n: nat) -> Seq<u8>
    decreases n,
{
    if n < 10 {
        seq![(DIGIT_ZERO + n) as u8]
    } else {
        spec_decimal(n / 10).push((DIGIT_ZERO + n % 10) as u8)
    }
}

/// Appends the decimal digits of `n`.
pub fn push_decimal(out: &mut Vec<u8>, n: u32)
    ensures
        final(out)@ == old(out)@ + spec_decimal(n as nat),
    decreases n,
{
    if n >= 10 {
        push_decimal(out, n / 10);
    }
    out.push(DIGIT_ZERO + (n % 10) as u8);
    proof {
        assert(final(out)@ =~= old(out)@ + spec_decimal(n as nat));
    }
}

/// The line of a pixel in a plain pixmap: the three bytes in decimal, separated by
/// spaces, and a line feed.
pub open spec fn spec_pixel_line(bytes: (u8, u8, u8)) -> Seq<u8> {
    spec_decimal(bytes.0 as nat).push(SPACE) + spec_decimal(bytes.1 as nat).push(SPACE)
        + spec_decimal(bytes.2 as nat).push(NEWLINE)
}

/// Appends the line of a colour to the text of a plain pixmap.
pub fn write_color(out: &mut Vec<u8>, color: &Color)
    ensures
        final(out)@ == old(out)@ + spec_pixel_line(spec_color_bytes(*color)),
{
    let (r, g, b) = color_bytes(color);
    push_decimal(out, r as u32);
    out.push(SPACE);
    push_decimal(out, g as u32);
    out.push(SPACE);
    push_decimal(out, b as u32);
    out.push(NEWLINE);
    proof {
        assert(final(out)@ =~= old(out)@ + spec_pixel_line(spec_color_bytes(*color)));
    }
}

/// The head of a plain pixmap: the format's magic word (the letter P and the digit
/// three), the width and the height, and the largest channel value, 255, each line
/// ended by a line feed.
pub open spec fn spec_header(width: nat, height: nat) -> Seq<u8> {
    seq![80u8, 51u8, NEWLINE] + spec_decimal(width).push(SPACE) + spec_decimal(height).push(
        NEWLINE,
    ) + seq![50u8, 53u8, 53u8, NEWLINE]
}

/// Appends the head of a plain pixmap of the given size.
pub fn write_header(out: &mut Vec<u8>, width: u32, height: u32)
    ensures
        final(out)@ == old(out)@ + spec_header(width as nat, height as nat),
{
    out.push(80u8);
    out.push(51u8);
    out.push(NEWLINE);
    push_decimal(out, width);
    out.push(SPACE);
    push_decimal(out, height);
    out.push(NEWLINE);
    out.push(50u8);
    out.push(53u8);
    out.push(53u8);
    out.push(NEWLINE);
    proof {
        assert(final(out)@ =~= old(out)@ + spec_header(width as nat, height as nat));
    }
}

/// The lines of a sequence of colours, one after the other.
pub open spec fn spec_pixel_lines(colors: Seq<Color>) -> Seq<u8>
    decreases colors.len(),
{
    if colors.len() == 0 {
        Seq::empty()
    } else {
        spec_pixel_lines(colors.drop_last()) + spec_pixel_line(spec_color_bytes(colors.last()))
    }
}

/// The text of a plain pixmap: the head, then the lines of the pixels, row by row from
/// the top and from left to right within a row.
pub open spec fn spec_pixmap(width: nat, height: nat, colors: Seq<Color>) -> Seq<u8> {
    spec_header(width, height) + spec_pixel_lines(colors)
}

/// The byte of a channel is at least the byte of any smaller channel value `least`,
/// as far as this follows from the root of `least`: with `root` the integer root of
/// `least * SCALE`, capped at [`BRIGHTEST`], the byte is at least `root * LEVELS`
/// over `SCALE` squared.
pub proof fn lemma_channel_byte_at_least(c: Fixed, least: int, root: int, byte: int)
    requires
        0 < least <= c.raw,
        0 <= root <= BRIGHTEST,
        root * root <= least * SCALE,
        byte * SCALE * SCALE <= root * LEVELS,
    ensures
        spec_channel_byte(c) >= byte,
        spec_channel_byte(c) <= 255,
{
    let corrected = spec_linear_to_gamma(c).spec_max(Fixed { raw: 0 }).spec_min(
        Fixed { raw: BRIGHTEST },
    );
    assert(0 <= least * SCALE <= c.raw * SCALE && c.raw * SCALE < 0x4000_0000_0000_0000_0000_0000)
        by (nonlinear_arith)
        requires
            0 < least <= c.raw,
            c.raw <= 0x7fff_ffff_ffff_ffff,
            SCALE == 1_000_000_000,
    ;
    lemma_isqrt_exists(least * SCALE);
    lemma_isqrt_exists(c.raw * SCALE);
    lemma_isqrt_monotone(least * SCALE, c.raw * SCALE);
    let exact = isqrt(least * SCALE);
    assert(is_isqrt(least * SCALE, exact));
    assert(root < exact + 1) by (nonlinear_arith)
        requires
            0 <= root,
            0 <= exact,
            root * root <= least * SCALE,
            least * SCALE < (exact + 1) * (exact + 1),
    ;
    let full = isqrt(c.raw * SCALE);
    assert(is_isqrt(c.raw * SCALE, full));
    assert(full < 0x8000_0000_0000) by (nonlinear_arith)
        requires
            0 <= full,
            full * full <= c.raw * SCALE,
            c.raw * SCALE < 0x4000_0000_0000_0000_0000_0000,
    ;
    assert(root <= corrected.raw <= BRIGHTEST);
    assert(byte * SCALE * SCALE <= corrected.raw * LEVELS && corrected.raw * LEVELS
        <= 255_743_001_000_000_000_000) by (nonlinear_arith)
        requires
            byte * SCALE * SCALE <= root * LEVELS,
            root <= corrected.raw <= BRIGHTEST,
            LEVELS == 255_999_000_000,
            BRIGHTEST == 999_000_000,
    ;
    let wide = corrected.raw * LEVELS;
    assert(wide / (SCALE as int) >= byte * SCALE && wide / (SCALE as int) <= 255_743_001_000)
        by (nonlinear_arith)
        requires
            byte * SCALE * SCALE <= wide <= 255_743_001_000_000_000_000,
            SCALE == 1_000_000_000,
    ;
    let first = wide / (SCALE as int);
    assert(first / (SCALE as int) >= byte && first / (SCALE as int) <= 255) by (nonlinear_arith)
        requires
            byte * SCALE <= first <= 255_743_001_000,
            SCALE == 1_000_000_000,
    ;
}

/// Whether three bytes are those of one of the sky's colours: blue is 255, red at
/// least 181 and green at least 214.
pub open spec fn spec_is_sky_bytes(bytes: (u8, u8, u8)) -> bool {
    bytes.2 == 255 && bytes.0 >= 181 && bytes.1 >= 214
}

/// A colour whose blue channel is one, whose red channel is at least a half and
/// whose green channel is at least seven tenths has the bytes of a sky colour.
pub proof fn lemma_sky_bytes(c: Color)
    requires
        c.z.raw == SCALE,
        500_000_000 <= c.x.raw <= SCALE,
        700_000_000 <= c.y.raw <= SCALE,
    ensures
        spec_is_sky_bytes(spec_color_bytes(c)),
{
    assert(707_106_781int * 707_106_781int <= 500_000_000int * 1_000_000_000int);
    assert(181int * 1_000_000_000int * 1_000_000_000int <= 707_106_781int * 255_999_000_000int);
    lemma_channel_byte_at_least(c.x, 500_000_000, 707_106_781, 181);
    assert(836_660_026int * 836_660_026int <= 700_000_000int * 1_000_000_000int);
    assert(214int * 1_000_000_000int * 1_000_000_000int <= 836_660_026int * 255_999_000_000int);
    lemma_channel_byte_at_least(c.y, 700_000_000, 836_660_026, 214);
    assert(999_000_000int * 999_000_000int <= 1_000_000_000int * 1_000_000_000int);
    assert(255int * 1_000_000_000int * 1_000_000_000int <= 999_000_000int * 255_999_000_000int);
    lemma_channel_byte_at_least(c.z, 1_000_000_000, 999_000_000, 255);
}

} // verus!
