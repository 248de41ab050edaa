//! Encoding of a frame as a plain-text portable pixmap.

use crate::fixed::{lemma_sqrt_value, quot, Fixed, SCALE};
use crate::helpers::{clamp, spec_clamp};
use crate::render::spec_pixel_count;
use crate::vec3::Color;
use vstd::prelude::*;

verus! {

/// `String::push` appends the character to the end of the string and leaves
/// what was there unchanged.
pub assume_specification[ String::push ](s: &mut String, ch: char)
    ensures
        final(s)@ == old(s)@.push(ch),
;

/// The character of a decimal digit.
pub open spec fn spec_digit(d: int) -> char
    recommends
        0 <= d < 10,
{
    if d == 0 {
        '0'
    } else if d == 1 {
        '1'
    } else if d == 2 {
        '2'
    } else if d == 3 {
        '3'
    } else if d == 4 {
        '4'
    } else if d == 5 {
        '5'
    } else if d == 6 {
        '6'
    } else if d == 7 {
        '7'
    } else if d == 8 {
        '8'
    } else {
        '9'
    }
}

/// The decimal numeral of a natural number, without leading zeros.
pub open spec fn spec_digits(n: nat) -> Seq<char>
    decreases n,
{
    if n < 10 {
        seq![spec_digit(n as int)]
    } else {
        spec_digits(n / 10).push(spec_digit((n % 10) as int))
    }
}

/// The decimal numeral of an integer, with a minus sign if it is negative.
pub open spec fn spec_decimal(i: int) -> Seq<char> {
    if i < 0 {
        seq!['-'] + spec_digits((-i) as nat)
    } else {
        spec_digits(i as nat)
    }
}

/// The eight-bit value of a colour channel that was summed over `samples`
/// samples: the mean, gamma-corrected by a square root, limited to
/// `[0, 0.999]` and scaled to 256 levels. Zero where there are no samples.
pub open spec fn spec_channel(sum: Fixed, samples: int) -> int {
    if samples <= 0 {
        0
    } else {
        let zero = Fixed::spec_from_int(0);
        let mean = sum.spec_div(Fixed::spec_from_int(samples));
        let gamma = mean.spec_max(zero).spec_sqrt();
        let limited = spec_clamp(gamma, zero, Fixed::of(999_000_000));
        quot((Fixed::spec_from_int(256) * limited)@, SCALE as int)
    }
}

/// The line of a pixel: its three channel values, separated by spaces.
pub open spec fn spec_pixel_line(sum: Color, samples: int) -> Seq<char> {
    spec_decimal(spec_channel(sum.x, samples)) + seq![' '] + spec_decimal(
        spec_channel(sum.y, samples),
    ) + seq![' '] + spec_decimal(spec_channel(sum.z, samples)) + seq!['\n']
}

/// The lines of the first `count` pixels.
pub open spec fn spec_pixel_lines(pixels: Seq<Color>, samples: int, count: int) -> Seq<char>
    decreases count,
{
    if count <= 0 {
        Seq::empty()
    } else {
        spec_pixel_lines(pixels, samples, count - 1) + spec_pixel_line(pixels[count - 1], samples)
    }
}

/// The header of a pixmap: the format's name, the size, and the largest
/// channel value.
pub open spec fn spec_header(w: int, h: int) -> Seq<char> {
    seq!['P', '3', '\n'] + spec_decimal(w) + seq![' '] + spec_decimal(h) + seq!['\n']
        + seq!['2', '5', '5', '\n']
}

/// The pixmap of a frame: the header, then one line for each pixel, row by
/// row from the top.
pub open spec fn spec_ppm(w: int, h: int, pixels: Seq<Color>, samples: int) -> Seq<char> {
    spec_header(w, h) + spec_pixel_lines(pixels, samples, spec_pixel_count(w, h))
}

/// The character of a decimal digit.
fn digit(d: u8) -> (c: char)
    requires
        d < 10,
    ensures
        c == spec_digit(d as int),
{
    if d == 0 {
        '0'
    } else if d == 1 {
        '1'
    } else if d == 2 {
        '2'
    } else if d == 3 {
        '3'
    } else if d == 4 {
        '4'
    } else if d == 5 {
        '5'
    } else if d == 6 {
        '6'
    } else if d == 7 {
        '7'
    } else if d == 8 {
        '8'
    } else {
        '9'
    }
}

/// Appends the decimal numeral of `n`.
fn push_digits(out: &mut String, n: u32)
    ensures
        final(out)@ == old(out)@ + spec_digits(n as nat),
    decreases n,
{
    if n >= 10 {
        push_digits(out, n / 10);
    }
    out.push(digit((n % 10) as u8));
}

/// Appends the decimal numeral of `i`.
fn push_decimal(out: &mut String, i: i32)
    ensures
        final(out)@ == old(out)@ + spec_decimal(i as int),
{
    if i < 0 {
        out.push('-');
        let magnitude: u32 = (-(i as i64)) as u32;
        push_digits(out, magnitude);
    } else {
        push_digits(out, i as u32);
    }
}

/// Quantises a colour channel that was summed over `samples_per_pixel`
/// samples to eight bits.
pub fn channel(sum: Fixed, samples_per_pixel: i32) -> (level: u8)
    ensures
        level == spec_channel(sum, samples_per_pixel as int),
{
    if samples_per_pixel <= 0 {
        return 0;
    }
    let zero = Fixed::from_int(0);
    let mean = sum / Fixed::from_int(samples_per_pixel);
    let positive = mean.max(zero);
    let gamma = positive.sqrt();
    let limited = clamp(gamma, zero, Fixed { raw: 999_000_000 });
    let scaled = Fixed::from_int(256) * limited;
    proof {
        lemma_sqrt_value(positive);
    }
    scaled.trunc() as u8
}

/// Appends the line of a pixel.
fn push_pixel_line(out: &mut String, sum: &Color, samples_per_pixel: i32)
    ensures
        final(out)@ == old(out)@ + spec_pixel_line(*sum, samples_per_pixel as int),
{
    push_decimal(out, channel(sum.x, samples_per_pixel) as i32);
    out.push(' ');
    push_decimal(out, channel(sum.y, samples_per_pixel) as i32);
    out.push(' ');
    push_decimal(out, channel(sum.z, samples_per_pixel) as i32);
    out.push('\n');
}

/// Encodes a frame of summed colours as a plain-text pixmap. The frame holds
/// the pixels row by row from the top and must hold at least `w * h` of
/// them; each channel is divided by `samples_per_pixel`, gamma-corrected and
/// quantised to eight bits.
pub fn generate_ppm(w: i32, h: i32, vec: &Vec<Color>, samples_per_pixel: i32) -> (text: String)
    requires
        vec.len() >= spec_pixel_count(w as int, h as int),
    ensures
        text@ == spec_ppm(w as int, h as int, vec@, samples_per_pixel as int),
{
    let mut result = String::new();
    result.push('P');
    result.push('3');
    result.push('\n');
    push_decimal(&mut result, w);
    result.push(' ');
    push_decimal(&mut result, h);
    result.push('\n');
    result.push('2');
    result.push('5');
    result.push('5');
    result.push('\n');
    if w <= 0 || h <= 0 {
        return result;
    }
    let count: u64 = (w as u64) * (h as u64);
    let mut done: u64 = 0;
    while done < count
        invariant
            done <= count,
            count == spec_pixel_count(w as int, h as int),
            vec.len() >= count,
            result@ == spec_header(w as int, h as int) + spec_pixel_lines(
                vec@,
                samples_per_pixel as int,
                done as int,
            ),
        decreases count - done,
    {
        push_pixel_line(&mut result, &vec[done as usize], samples_per_pixel);
        done = done + 1;
    }
    result
}

} // verus!
