//! The opcodes of the pixel stream: how a tag byte is classified, and the
//! pixel that each opcode stands for.

use vstd::prelude::*;

use crate::pixel::Pixel;

verus! {

/// The tag byte of the RGB opcode.
pub const TAG_RGB: u8 = 0xfe;

/// The tag byte of the RGBA opcode.
pub const TAG_RGBA: u8 = 0xff;

/// The six opcodes. The tag byte, the first byte of an opcode, selects one:
/// the two exact tags first, then the top two bits.
#[derive(Clone, Copy, Debug, PartialEq, Eq, Structural)]
pub enum Opcode {
    /// Tag `0xfe`: three samples follow; alpha is kept.
    Rgb,
    /// Tag `0xff`: four samples follow.
    Rgba,
    /// Top bits `00`: the low six bits name a cache slot.
    Index,
    /// Top bits `01`: three two-bit differences to the previous pixel.
    Diff,
    /// Top bits `10`: a green difference, and in the next byte the red and
    /// blue differences relative to it.
    Luma,
    /// Top bits `11`, other than the two exact tags: the previous pixel
    /// again, a number of times.
    Run,
}

/// The value that `x` wraps to in eight bits: `x` modulo 256.
pub open spec fn wrap_byte(x: int) -> u8 {
    (x % 256) as u8
}

/// The opcode that a tag byte selects. After the two exact tags the top two
/// bits decide, which is to say the quarter of the byte range that the tag
/// lies in.
pub open spec fn opcode_of(tag: u8) -> Opcode {
    if tag == TAG_RGB {
        Opcode::Rgb
    } else if tag == TAG_RGBA {
        Opcode::Rgba
    } else if tag < 0x40 {
        Opcode::Index
    } else if tag < 0x80 {
        Opcode::Diff
    } else if tag < 0xc0 {
        Opcode::Luma
    } else {
        Opcode::Run
    }
}

/// The low six bits of a tag: the cache slot of an INDEX opcode, and the
/// length field of a RUN opcode.
pub open spec fn low6(tag: u8) -> int {
    tag as int % 64
}

/// The number of pixels that an opcode with this tag emits. A RUN opcode
/// with length field `L` emits `L + 1` pixels, as the QOI format has it, so
/// between 1 and 62; every other opcode emits one.
pub open spec fn run_length(tag: u8) -> nat {
    if opcode_of(tag) == Opcode::Run {
        (low6(tag) + 1) as nat
    } else {
        1
    }
}

/// The red difference of a DIFF opcode: bits 5 and 4 of the tag, minus 2.
pub open spec fn diff_red_delta(tag: u8) -> int {
    (tag as int / 16) % 4 - 2
}

/// The green difference of a DIFF opcode: bits 3 and 2 of the tag, minus 2.
pub open spec fn diff_green_delta(tag: u8) -> int {
    (tag as int / 4) % 4 - 2
}

/// The blue difference of a DIFF opcode: bits 1 and 0 of the tag, minus 2.
pub open spec fn diff_blue_delta(tag: u8) -> int {
    tag as int % 4 - 2
}

/// The pixel of a DIFF opcode: red, green and blue each move by their
/// difference, modulo 256. Alpha is kept.
pub open spec fn diff_pixel(prev: Pixel, tag: u8) -> Pixel {
    Pixel {
        r: wrap_byte(prev.r + diff_red_delta(tag)),
        g: wrap_byte(prev.g + diff_green_delta(tag)),
        b: wrap_byte(prev.b + diff_blue_delta(tag)),
        a: prev.a,
    }
}

/// The green difference of a LUMA opcode: the low five bits of the tag,
/// minus 32.
pub open spec fn luma_green_delta(tag: u8) -> int {
    tag as int % 32 - 32
}

/// The difference between the red and the green difference of a LUMA
/// opcode: the high four bits of its second byte, minus 8.
pub open spec fn luma_red_delta(byte: u8) -> int {
    byte as int / 16 - 8
}

/// The difference between the blue and the green difference of a LUMA
/// opcode: the low four bits of its second byte, minus 8.
pub open spec fn luma_blue_delta(byte: u8) -> int {
    byte as int % 16 - 8
}

/// The pixel of a LUMA opcode. Green moves by the green difference, red and
/// blue by the green difference plus their own, all modulo 256. Alpha is
/// kept.
pub open spec fn luma_pixel(prev: Pixel, tag: u8, byte: u8) -> Pixel {
    let dg = luma_green_delta(tag);
    Pixel {
        r: wrap_byte(prev.r + dg + luma_red_delta(byte)),
        g: wrap_byte(prev.g + dg),
        b: wrap_byte(prev.b + dg + luma_blue_delta(byte)),
        a: prev.a,
    }
}

/// The pixel of an RGB opcode: the three samples given, and the alpha of
/// the previous pixel.
pub open spec fn rgb_pixel(prev: Pixel, r: u8, g: u8, b: u8) -> Pixel {
    Pixel { r, g, b, a: prev.a }
}

/// The pixel of an RGBA opcode: the four samples given. Nothing of the
/// previous pixel enters it.
pub open spec fn rgba_pixel(r: u8, g: u8, b: u8, a: u8) -> Pixel {
    Pixel { r, g, b, a }
}

/// The fields of a tag and of the second byte of a LUMA opcode, as the bits
/// that they are made of.
pub proof fn lemma_fields_are_bits(tag: u8, byte: u8)
    ensures
        (tag < 0x40) == (tag >> 6 == 0),
        (0x40 <= tag < 0x80) == (tag >> 6 == 1),
        (0x80 <= tag < 0xc0) == (tag >> 6 == 2),
        (0xc0 <= tag) == (tag >> 6 == 3),
        low6(tag) == tag & 0x3f,
        diff_red_delta(tag) == ((tag >> 4) & 3) - 2,
        diff_green_delta(tag) == ((tag >> 2) & 3) - 2,
        diff_blue_delta(tag) == (tag & 3) - 2,
        luma_green_delta(tag) == (tag & 0x1f) - 32,
        luma_red_delta(byte) == ((byte >> 4) & 0xf) - 8,
        luma_blue_delta(byte) == (byte & 0xf) - 8,
{
    assert((tag < 0x40) == (tag >> 6 == 0)) by (bit_vector);
    assert((0x40 <= tag < 0x80) == (tag >> 6 == 1)) by (bit_vector);
    assert((0x80 <= tag < 0xc0) == (tag >> 6 == 2)) by (bit_vector);
    assert((0xc0 <= tag) == (tag >> 6 == 3)) by (bit_vector);
    assert(tag % 64 == tag & 0x3f) by (bit_vector);
    assert((tag / 16) % 4 == (tag >> 4) & 3) by (bit_vector);
    assert((tag / 4) % 4 == (tag >> 2) & 3) by (bit_vector);
    assert(tag % 4 == tag & 3) by (bit_vector);
    assert(tag % 32 == tag & 0x1f) by (bit_vector);
    assert(byte / 16 == (byte >> 4) & 0xf) by (bit_vector);
    assert(byte % 16 == byte & 0xf) by (bit_vector);
}

impl Opcode {
    /// The number of bytes that follow the tag.
    pub open spec fn operand_count(self) -> nat {
        match self {
            Opcode::Rgb => 3,
            Opcode::Rgba => 4,
            Opcode::Luma => 1,
            _ => 0,
        }
    }

    /// The opcode that `tag` selects.
    pub fn of_tag(tag: u8) -> (op: Opcode)
        ensures
            op == opcode_of(tag),
    {
        proof {
            lemma_fields_are_bits(tag, 0);
        }
        if tag == TAG_RGB {
            Opcode::Rgb
        } else if tag == TAG_RGBA {
            Opcode::Rgba
        } else {
            match tag >> 6 {
                0 => Opcode::Index,
                1 => Opcode::Diff,
                2 => Opcode::Luma,
                _ => Opcode::Run,
            }
        }
    }
}

/// Adds `field - bias` to `base`, wrapping in eight bits.
fn shift_sample(base: u8, field: u8, bias: u8) -> (s: u8)
    ensures
        s == wrap_byte(base + field - bias),
{
    base.wrapping_add(field).wrapping_sub(bias)
}

/// Computes the pixel of a DIFF opcode.
pub fn apply_diff(prev: Pixel, tag: u8) -> (p: Pixel)
    ensures
        p == diff_pixel(prev, tag),
{
    proof {
        lemma_fields_are_bits(tag, 0);
    }
    Pixel {
        r: shift_sample(prev.r, (tag >> 4) & 3, 2),
        g: shift_sample(prev.g, (tag >> 2) & 3, 2),
        b: shift_sample(prev.b, tag & 3, 2),
        a: prev.a,
    }
}

/// Computes the pixel of a LUMA opcode.
pub fn apply_luma(prev: Pixel, tag: u8, byte: u8) -> (p: Pixel)
    ensures
        p == luma_pixel(prev, tag, byte),
{
    proof {
        lemma_fields_are_bits(tag, byte);
    }
    let green: u8 = tag & 0x1f;
    let red: u8 = (byte >> 4) & 0xf;
    let blue: u8 = byte & 0xf;
    Pixel {
        r: shift_sample(prev.r, green + red, 40),
        g: shift_sample(prev.g, green, 32),
        b: shift_sample(prev.b, green + blue, 40),
        a: prev.a,
    }
}

/// The low six bits of a tag.
pub fn low_six_bits(tag: u8) -> (n: u8)
    ensures
        n == low6(tag),
        n < 64,
{
    proof {
        lemma_fields_are_bits(tag, 0);
    }
    tag & 0x3f
}

} // verus!
