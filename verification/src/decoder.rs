//! The pixel stream decoder: a single pass over the opcodes that keeps the
//! previous pixel and the pixel cache, and appends the samples of every
//! pixel to the image.

use vstd::prelude::*;

use crate::cache::{empty_cache, PixelCache};
use crate::error::DecodeError;
use crate::header::{parse_header, parse_header_spec, Qoi, QoiHeader, HEADER_LEN};
use crate::opcode::{
    apply_diff, apply_luma, diff_pixel, low6, low_six_bits, luma_pixel, opcode_of, rgb_pixel,
    rgba_pixel, run_length, Opcode,
};
use crate::pixel::{pixel_hash, Pixel, CACHE_SLOTS};
use crate::source::ByteSource;

verus! {

/// What the decoder remembers between opcodes.
pub struct DecoderState {
    /// The pixel decoded last.
    pub prev: Pixel,
    /// The 64 slots of the pixel cache.
    pub cache: Seq<Pixel>,
}

impl DecoderState {
    /// The state before the first opcode: the previous pixel is opaque
    /// black, and every cache slot is zero.
    pub open spec fn initial() -> DecoderState {
        DecoderState { prev: Pixel { r: 0, g: 0, b: 0, a: 255 }, cache: empty_cache() }
    }

    /// The cache has its 64 slots.
    pub open spec fn wf(self) -> bool {
        self.cache.len() == CACHE_SLOTS
    }

    /// The state after pixel `p` was emitted: `p` is the previous pixel, and
    /// the cache holds it at the slot of its hash.
    pub open spec fn after(self, p: Pixel) -> DecoderState {
        DecoderState { prev: p, cache: self.cache.update(pixel_hash(p), p) }
    }
}

/// The number of samples written for each pixel: four where the header
/// says four channels, else three.
pub open spec fn samples_per_pixel(channels: u8) -> nat {
    if channels == 4 {
        4
    } else {
        3
    }
}

/// The samples written for one pixel: red, green, blue, and alpha only
/// where the header says four channels.
pub open spec fn pixel_samples(p: Pixel, channels: u8) -> Seq<u8> {
    if channels == 4 {
        seq![p.r, p.g, p.b, p.a]
    } else {
        seq![p.r, p.g, p.b]
    }
}

/// The samples written for `count` copies of one pixel in a row.
pub open spec fn run_samples(p: Pixel, channels: u8, count: nat) -> Seq<u8> {
    Seq::new(
        count * samples_per_pixel(channels),
        |i: int| pixel_samples(p, channels)[i % (samples_per_pixel(channels) as int)],
    )
}

/// The number of bytes of the opcode that starts with `tag`, the tag
/// included.
pub open spec fn opcode_len(tag: u8) -> nat {
    1 + opcode_of(tag).operand_count()
}

/// The pixel of the opcode at the start of `code`, decoded in state `st`.
pub open spec fn opcode_pixel(st: DecoderState, code: Seq<u8>) -> Pixel
    recommends
        code.len() >= 1,
        code.len() >= opcode_len(code[0]),
{
    let tag = code[0];
    match opcode_of(tag) {
        Opcode::Rgb => rgb_pixel(st.prev, code[1], code[2], code[3]),
        Opcode::Rgba => rgba_pixel(code[1], code[2], code[3], code[4]),
        Opcode::Index => st.cache[low6(tag)],
        Opcode::Diff => diff_pixel(st.prev, tag),
        Opcode::Luma => luma_pixel(st.prev, tag, code[1]),
        Opcode::Run => st.prev,
    }
}

/// What a successful pass over a stream gives.
pub struct Decoded {
    /// The samples of the image.
    pub samples: Seq<u8>,
    /// The number of stream bytes that the opcodes took.
    pub consumed: nat,
}

/// Puts what was decoded before in front of what was decoded after.
pub open spec fn decoded_after(
    samples: Seq<u8>,
    consumed: nat,
    rest: Result<Decoded, DecodeError>,
) -> Result<Decoded, DecodeError> {
    match rest {
        Ok(d) => Ok(Decoded { samples: samples + d.samples, consumed: consumed + d.consumed }),
        Err(e) => Err(e),
    }
}

/// What decoding `wanted` samples from the opcodes in `data` gives, starting
/// in state `st`.
///
/// With no sample wanted, nothing is read. Else the opcode at the start of
/// `data` is decoded: the stream is truncated if it ends before the opcode
/// does, and overrun if the opcode, which is whole, stands for more samples
/// than are wanted. Its samples come first, then those of the rest of the
/// stream, decoded in the state after its pixel.
pub open spec fn decode_stream(data: Seq<u8>, st: DecoderState, channels: u8, wanted: nat) -> Result<
    Decoded,
    DecodeError,
>
    decreases data.len(),
{
    if wanted == 0 {
        Ok(Decoded { samples: Seq::empty(), consumed: 0 })
    } else if data.len() == 0 || data.len() < opcode_len(data[0]) {
        Err(DecodeError::Truncation)
    } else {
        let tag = data[0];
        let p = opcode_pixel(st, data);
        let block = run_samples(p, channels, run_length(tag));
        if block.len() > wanted {
            Err(DecodeError::Overrun)
        } else {
            decoded_after(
                block,
                opcode_len(tag),
                decode_stream(
                    data.skip(opcode_len(tag) as int),
                    st.after(p),
                    channels,
                    (wanted - block.len()) as nat,
                ),
            )
        }
    }
}

/// What decoding a whole stream gives: the header, then as many samples as
/// the header announces.
pub open spec fn decode_spec(bytes: Seq<u8>) -> Result<(QoiHeader, Seq<u8>), DecodeError> {
    match parse_header_spec(bytes) {
        Err(e) => Err(e),
        Ok(header) => match decode_stream(
            bytes.skip(HEADER_LEN as int),
            DecoderState::initial(),
            header.channels,
            header.sample_count(),
        ) {
            Err(e) => Err(e),
            Ok(d) => Ok((header, d.samples)),
        },
    }
}

/// The previous pixel and the pixel cache of a pass over a stream.
pub struct Decoder {
    prev: Pixel,
    cache: PixelCache,
}

impl View for Decoder {
    type V = DecoderState;

    closed spec fn view(&self) -> DecoderState {
        DecoderState { prev: self.prev, cache: self.cache@ }
    }
}

impl Decoder {
    /// A decoder in the state before the first opcode.
    pub fn new() -> (d: Decoder)
        ensures
            d@ == DecoderState::initial(),
    {
        Decoder { prev: Pixel { r: 0, g: 0, b: 0, a: 255 }, cache: PixelCache::new() }
    }

    /// The cache of a decoder always has its 64 slots.
    pub proof fn lemma_wf(&self)
        ensures
            self@.wf(),
    {
        self.cache.lemma_len();
    }

    /// Reads the opcode at the cursor of `src`, and returns its pixel and
    /// the number of times that the pixel is emitted. The decoder's state
    /// is read, not changed.
    ///
    /// Fails with [`DecodeError::Truncation`] exactly when the stream ends
    /// before the opcode does; the source is then left as it was.
    pub fn read_opcode(&self, src: &mut ByteSource) -> (r: Result<(Pixel, u8), DecodeError>)
        ensures
            final(src).bytes() == old(src).bytes(),
            final(src).in_bounds(),
            match r {
                Ok((p, count)) => {
                    let code = old(src).remaining();
                    &&& code.len() >= 1
                    &&& code.len() >= opcode_len(code[0])
                    &&& p == opcode_pixel(self@, code)
                    &&& count == run_length(code[0])
                    &&& 1 <= count <= 62
                    &&& final(src).offset() == old(src).offset() + opcode_len(code[0])
                },
                Err(e) => {
                    let code = old(src).remaining();
                    &&& e == DecodeError::Truncation
                    &&& (code.len() == 0 || code.len() < opcode_len(code[0]))
                    &&& final(src).offset() == old(src).offset()
                },
            },
    {
        let mut cur = *src;
        let tag = cur.read_u8()?;
        let op = Opcode::of_tag(tag);
        let mut count: u8 = 1;
        let pixel = match op {
            Opcode::Rgb => {
                let r = cur.read_u8()?;
                let g = cur.read_u8()?;
                let b = cur.read_u8()?;
                Pixel { r, g, b, a: self.prev.a }
            },
            Opcode::Rgba => {
                let r = cur.read_u8()?;
                let g = cur.read_u8()?;
                let b = cur.read_u8()?;
                let a = cur.read_u8()?;
                Pixel { r, g, b, a }
            },
            Opcode::Index => self.cache.get(low_six_bits(tag)),
            Opcode::Diff => apply_diff(self.prev, tag),
            Opcode::Luma => {
                let byte = cur.read_u8()?;
                apply_luma(self.prev, tag, byte)
            },
            Opcode::Run => {
                count = low_six_bits(tag) + 1;
                self.prev
            },
        };
        *src = cur;
        Ok((pixel, count))
    }

    /// Emits pixel `p` once: appends its samples to `out`, makes it the
    /// previous pixel, and stores it in the cache.
    pub fn emit(&mut self, out: &mut Vec<u8>, p: Pixel, channels: u8)
        ensures
            final(out)@ == old(out)@ + pixel_samples(p, channels),
            final(self)@ == old(self)@.after(p),
    {
        out.push(p.r);
        out.push(p.g);
        out.push(p.b);
        if channels == 4 {
            out.push(p.a);
        }
        self.prev = p;
        self.cache.store(p);
        assert(out@ =~= old(out)@ + pixel_samples(p, channels));
    }

    /// Emits pixel `p` `count` times in a row. Every copy is stored in the
    /// cache, at the same slot, so the state after any number of copies is
    /// the state after one.
    pub fn emit_run(&mut self, out: &mut Vec<u8>, p: Pixel, channels: u8, count: u8)
        ensures
            final(out)@ == old(out)@ + run_samples(p, channels, count as nat),
            final(self)@ == (if count == 0 {
                old(self)@
            } else {
                old(self)@.after(p)
            }),
    {
        let ghost st = self@;
        let ghost done = out@;
        proof {
            self.lemma_wf();
            assert(done + run_samples(p, channels, 0) =~= done);
        }
        let mut emitted: u8 = 0;
        while emitted < count
            invariant
                emitted <= count,
                st.wf(),
                out@ == done + run_samples(p, channels, emitted as nat),
                self@ == (if emitted == 0 {
                    st
                } else {
                    st.after(p)
                }),
            decreases count - emitted,
        {
            proof {
                lemma_run_samples_next(p, channels, emitted as nat);
                lemma_after_twice(st, p);
                assert((done + run_samples(p, channels, emitted as nat)) + pixel_samples(
                    p,
                    channels,
                ) =~= done + (run_samples(p, channels, emitted as nat) + pixel_samples(
                    p,
                    channels,
                )));
            }
            self.emit(out, p, channels);
            emitted = emitted + 1;
        }
    }
}

/// A run of one more pixel is the run so far and then the pixel once more.
proof fn lemma_run_samples_next(p: Pixel, channels: u8, count: nat)
    ensures
        run_samples(p, channels, count + 1) == run_samples(p, channels, count) + pixel_samples(
            p,
            channels,
        ),
{
    let n = samples_per_pixel(channels) as int;
    assert((count + 1) * n == count * n + n) by (nonlinear_arith);
    let longer = run_samples(p, channels, count + 1);
    let joined = run_samples(p, channels, count) + pixel_samples(p, channels);
    assert(longer.len() == joined.len());
    assert forall|i: int| 0 <= i < longer.len() implies longer[i] == joined[i] by {
        if i >= count * n {
            assert(i % n == i - count * n) by (nonlinear_arith)
                requires
                    count * n <= i < count * n + n,
                    n > 0,
            ;
        }
    }
    assert(longer =~= joined);
}

/// Emitting the same pixel again changes nothing in the state.
proof fn lemma_after_twice(st: DecoderState, p: Pixel)
    requires
        st.wf(),
    ensures
        st.after(p).after(p) == st.after(p),
{
    assert(st.after(p).after(p).cache =~= st.after(p).cache);
}

/// One step of a pass: where the opcode at the start of `data` is whole and
/// its samples fit, what was decoded before it, then the opcode, then the
/// rest, is what was decoded before it and then the stream from the opcode on.
proof fn lemma_decode_step(
    done: Seq<u8>,
    consumed: nat,
    data: Seq<u8>,
    st: DecoderState,
    channels: u8,
    wanted: nat,
)
    requires
        wanted > 0,
        data.len() >= 1,
        data.len() >= opcode_len(data[0]),
        run_samples(opcode_pixel(st, data), channels, run_length(data[0])).len() <= wanted,
    ensures
        decoded_after(done, consumed, decode_stream(data, st, channels, wanted)) == decoded_after(
            done + run_samples(opcode_pixel(st, data), channels, run_length(data[0])),
            consumed + opcode_len(data[0]),
            decode_stream(
                data.skip(opcode_len(data[0]) as int),
                st.after(opcode_pixel(st, data)),
                channels,
                (wanted - run_samples(
                    opcode_pixel(st, data),
                    channels,
                    run_length(data[0]),
                ).len()) as nat,
            ),
        ),
{
    let p = opcode_pixel(st, data);
    let block = run_samples(p, channels, run_length(data[0]));
    let next = decode_stream(
        data.skip(opcode_len(data[0]) as int),
        st.after(p),
        channels,
        (wanted - block.len()) as nat,
    );
    assert(decode_stream(data, st, channels, wanted) == decoded_after(
        block,
        opcode_len(data[0]),
        next,
    ));
    match next {
        Ok(d) => {
            assert((done + block) + d.samples =~= done + (block + d.samples));
        },
        Err(_) => {},
    }
}

/// Reads as many samples as `header` announces from the opcodes at the
/// cursor of `src`.
///
/// On success the cursor has moved past the opcodes that were needed, and
/// no further. On failure nothing is handed out and the source is left as
/// it was.
pub fn decode_pixels(header: &QoiHeader, src: &mut ByteSource) -> (r: Result<Vec<u8>, DecodeError>)
    ensures
        final(src).bytes() == old(src).bytes(),
        final(src).in_bounds(),
        match (
            r,
            decode_stream(
                old(src).remaining(),
                DecoderState::initial(),
                header.channels,
                header.sample_count(),
            ),
        ) {
            (Ok(image), Ok(d)) => image@ == d.samples && final(src).offset() == old(src).offset()
                + d.consumed,
            (Err(e), Err(expected)) => e == expected && final(src).offset() == old(src).offset(),
            _ => false,
        },
        r is Ok ==> r->Ok_0@.len() == header.sample_count(),
{
    let channels = header.channels;
    let total: u128 = header.total_samples();
    let stride: u128 = if channels == 4 {
        4
    } else {
        3
    };
    let mut cur = *src;
    let mut decoder = Decoder::new();
    let mut out: Vec<u8> = Vec::new();
    let ghost goal = decode_stream(
        src.remaining(),
        DecoderState::initial(),
        channels,
        total as nat,
    );
    proof {
        use_type_invariant(&cur);
        assert(out@ + Seq::<u8>::empty() =~= Seq::<u8>::empty());
    }
    while (out.len() as u128) < total
        invariant
            *src == *old(src),
            channels == header.channels,
            total == header.sample_count(),
            cur.bytes() == src.bytes(),
            cur.in_bounds(),
            src.in_bounds(),
            src.offset() <= cur.offset(),
            out@.len() <= total,
            stride == samples_per_pixel(channels),
            goal == decode_stream(
                old(src).remaining(),
                DecoderState::initial(),
                header.channels,
                header.sample_count(),
            ),
            goal == decoded_after(
                out@,
                (cur.offset() - src.offset()) as nat,
                decode_stream(cur.remaining(), decoder@, channels, (total - out@.len()) as nat),
            ),
        decreases cur.bytes().len() - cur.offset(),
    {
        let ghost before = cur;
        let ghost st = decoder@;
        let ghost done = out@;
        let (p, count) = match decoder.read_opcode(&mut cur) {
            Ok(pair) => pair,
            Err(e) => {
                return Err(e);
            },
        };
        assert(run_samples(p, channels, count as nat).len() == count * stride);
        assert(count as u128 * stride <= 62 * 4) by (nonlinear_arith)
            requires
                count <= 62,
                stride <= 4,
        ;
        if count as u128 * stride > total - out.len() as u128 {
            return Err(DecodeError::Overrun);
        }
        proof {
            lemma_decode_step(
                done,
                (before.offset() - src.offset()) as nat,
                before.remaining(),
                st,
                channels,
                (total - done.len()) as nat,
            );
            assert(cur.remaining() =~= before.remaining().skip(
                opcode_len(before.remaining()[0]) as int,
            ));
        }
        decoder.emit_run(&mut out, p, channels, count);
    }
    proof {
        assert(out@ + Seq::<u8>::empty() =~= out@);
    }
    *src = cur;
    Ok(out)
}

/// Decodes a whole stream: the header, then the image.
///
/// Bytes that follow the last opcode needed are not looked at.
pub fn decode(bytes: &[u8]) -> (r: Result<Qoi, DecodeError>)
    ensures
        match (r, decode_spec(bytes@)) {
            (Ok(qoi), Ok((header, samples))) => qoi.header == header && qoi.image@ == samples,
            (Err(e), Err(expected)) => e == expected,
            _ => false,
        },
        r is Ok ==> r->Ok_0.image@.len() == r->Ok_0.header.sample_count(),
{
    let mut src = ByteSource::new(bytes);
    assert(src.remaining() =~= bytes@);
    let header = match parse_header(&mut src) {
        Ok(h) => h,
        Err(e) => {
            return Err(e);
        },
    };
    assert(src.remaining() == bytes@.skip(HEADER_LEN as int));
    match decode_pixels(&header, &mut src) {
        Ok(image) => Ok(Qoi { header, image }),
        Err(e) => Err(e),
    }
}

} // verus!
