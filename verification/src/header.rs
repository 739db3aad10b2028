//! The image header and its parser.

use vstd::prelude::*;

use crate::error::DecodeError;
use crate::source::{be_u32, ByteSource};

verus! {

/// The number of bytes that a header takes: the magic tag, width, height,
/// channels and colorspace.
pub const HEADER_LEN: usize = 14;

/// What the header says of an image. A channel count other than 3 or 4 is
/// accepted here and left to the consumer to judge.
#[derive(Clone, Copy, Debug, PartialEq, Eq, Structural)]
pub struct QoiHeader {
    pub width: u32,
    pub height: u32,
    pub channels: u8,
    pub colorspace: u8,
}

/// How the samples of one pixel are laid out in an image.
#[derive(Clone, Copy, Debug, PartialEq, Eq, Structural)]
pub enum ColorLayout {
    /// Three samples: red, green, blue.
    Rgb,
    /// Four samples: red, green, blue, alpha.
    Rgba,
}

/// A decoded image: its header and its samples, pixel after pixel.
#[derive(Debug)]
pub struct Qoi {
    pub header: QoiHeader,
    pub image: Vec<u8>,
}

impl QoiHeader {
    /// A header with the given fields.
    pub fn new(width: u32, height: u32, channels: u8, colorspace: u8) -> (h: QoiHeader)
        ensures
            h == (QoiHeader { width, height, channels, colorspace }),
    {
        QoiHeader { width, height, channels, colorspace }
    }

    /// The number of samples in the image: width times height times
    /// channels.
    pub open spec fn sample_count(self) -> nat {
        (self.width as nat) * (self.height as nat) * (self.channels as nat)
    }

    /// The layout that the channel count stands for: RGB for 3, RGBA for 4,
    /// none for any other.
    pub open spec fn layout_spec(self) -> Option<ColorLayout> {
        if self.channels == 3 {
            Some(ColorLayout::Rgb)
        } else if self.channels == 4 {
            Some(ColorLayout::Rgba)
        } else {
            None
        }
    }

    /// The layout that the channel count stands for, if it is one that an
    /// image can have.
    pub fn layout(&self) -> (l: Option<ColorLayout>)
        ensures
            l == self.layout_spec(),
    {
        if self.channels == 3 {
            Some(ColorLayout::Rgb)
        } else if self.channels == 4 {
            Some(ColorLayout::Rgba)
        } else {
            None
        }
    }

    /// The number of samples in the image, computed without overflow.
    pub fn total_samples(&self) -> (n: u128)
        ensures
            n == self.sample_count(),
    {
        let w: u128 = self.width as u128;
        let h: u128 = self.height as u128;
        let c: u128 = self.channels as u128;
        assert(w * h <= 0xffff_ffff * 0xffff_ffff) by (nonlinear_arith)
            requires
                w <= 0xffff_ffff,
                h <= 0xffff_ffff,
        ;
        assert(w * h * c <= 0xffff_ffff * 0xffff_ffff * 0xff) by (nonlinear_arith)
            requires
                w * h <= 0xffff_ffff * 0xffff_ffff,
                c <= 0xff,
        ;
        w * h * c
    }
}

impl Qoi {
    /// An image with the given header and samples.
    pub fn new(header: QoiHeader, image: Vec<u8>) -> (q: Qoi)
        ensures
            q.header == header,
            q.image == image,
    {
        Qoi { header, image }
    }
}

/// The four bytes that every stream starts with: `qoif` in ASCII.
pub open spec fn magic() -> Seq<u8> {
    seq![0x71u8, 0x6fu8, 0x69u8, 0x66u8]
}

/// One of the first four bytes of `s` is there and is not the byte of the
/// magic tag at its place.
pub open spec fn magic_mismatch(s: Seq<u8>) -> bool {
    exists|i: int| 0 <= i < 4 && i < s.len() && s[i] != magic()[i]
}

/// What parsing a header from the start of `s` gives.
///
/// The bytes are taken in order, so a wrong magic byte is reported even if
/// the stream ends before the header does. A complete header is rejected
/// only for its colorspace.
pub open spec fn parse_header_spec(s: Seq<u8>) -> Result<QoiHeader, DecodeError> {
    if magic_mismatch(s) {
        Err(DecodeError::Format)
    } else if s.len() < HEADER_LEN {
        Err(DecodeError::Truncation)
    } else if s[13] > 1 {
        Err(DecodeError::Format)
    } else {
        Ok(
            QoiHeader {
                width: be_u32(s[4], s[5], s[6], s[7]),
                height: be_u32(s[8], s[9], s[10], s[11]),
                channels: s[12],
                colorspace: s[13],
            },
        )
    }
}

/// Reads the byte at place `k` of a header that started where `s` starts,
/// and compares it with the magic tag.
fn expect_magic_byte(src: &mut ByteSource, k: usize, Ghost(s): Ghost<Seq<u8>>) -> (r: Result<
    (),
    DecodeError,
>)
    requires
        k < 4,
        old(src).in_bounds(),
        old(src).offset() >= k,
        s == old(src).bytes().skip(old(src).offset() - k),
        forall|j: int| 0 <= j < k ==> s[j] == magic()[j],
    ensures
        final(src).bytes() == old(src).bytes(),
        final(src).in_bounds(),
        match r {
            Ok(_) => s.len() > k && final(src).offset() == old(src).offset() + 1 && (forall|j: int|
                0 <= j <= k ==> s[j] == magic()[j]),
            Err(e) => e == parse_header_spec(s)->Err_0 && parse_header_spec(s) is Err,
        },
{
    let expected: u8 = if k == 0 {
        0x71
    } else if k == 1 {
        0x6f
    } else if k == 2 {
        0x69
    } else {
        0x66
    };
    assert(expected == magic()[k as int]);
    match src.read_u8() {
        Ok(b) => {
            assert(b == s[k as int]);
            if b == expected {
                Ok(())
            } else {
                assert(magic_mismatch(s));
                Err(DecodeError::Format)
            }
        },
        Err(e) => {
            assert(s.len() == k);
            assert(!magic_mismatch(s));
            Err(e)
        },
    }
}

/// Parses the header at the cursor of `src`.
///
/// On success the cursor has moved past the 14 bytes of the header. On
/// failure the source is left as it was.
pub fn parse_header(src: &mut ByteSource) -> (r: Result<QoiHeader, DecodeError>)
    ensures
        r == parse_header_spec(old(src).remaining()),
        final(src).bytes() == old(src).bytes(),
        final(src).in_bounds(),
        final(src).offset() == old(src).offset() + (if r is Ok {
            HEADER_LEN as nat
        } else {
            0
        }),
{
    let mut cur = *src;
    let ghost s = src.remaining();
    proof {
        use_type_invariant(&cur);
    }
    let mut k: usize = 0;
    while k < 4
        invariant
            k <= 4,
            cur.in_bounds(),
            cur.bytes() == src.bytes(),
            cur.offset() == src.offset() + k,
            s == src.bytes().skip(src.offset() as int),
            forall|j: int| 0 <= j < k ==> s[j] == magic()[j],
            *src == *old(src),
        decreases 4 - k,
    {
        match expect_magic_byte(&mut cur, k, Ghost(s)) {
            Ok(_) => {},
            Err(e) => {
                return Err(e);
            },
        }
        k = k + 1;
    }
    assert(!magic_mismatch(s));
    let width = match cur.read_u32() {
        Ok(n) => n,
        Err(e) => {
            return Err(e);
        },
    };
    let height = match cur.read_u32() {
        Ok(n) => n,
        Err(e) => {
            return Err(e);
        },
    };
    let channels = match cur.read_u8() {
        Ok(n) => n,
        Err(e) => {
            return Err(e);
        },
    };
    let colorspace = match cur.read_u8() {
        Ok(n) => n,
        Err(e) => {
            return Err(e);
        },
    };
    assert(s.len() >= 14);
    assert(colorspace == s[13] && channels == s[12]);
    assert(width == be_u32(s[4], s[5], s[6], s[7]));
    assert(height == be_u32(s[8], s[9], s[10], s[11]));
    if colorspace > 1 {
        return Err(DecodeError::Format);
    }
    *src = cur;
    Ok(QoiHeader { width, height, channels, colorspace })
}

} // verus!
