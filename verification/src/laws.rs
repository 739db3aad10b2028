//! What holds of every stream and every state: laws of the decoder, each
//! proved from the model that the contracts are stated over.

use vstd::prelude::*;

use crate::decoder::{
    decode_spec, decode_stream, decoded_after, opcode_len, opcode_pixel, pixel_samples,
    run_samples, samples_per_pixel, Decoded, DecoderState,
};
use crate::error::DecodeError;
use crate::header::{magic, magic_mismatch, parse_header_spec, QoiHeader, HEADER_LEN};
use crate::opcode::{
    diff_blue_delta, diff_green_delta, diff_pixel, diff_red_delta, low6, luma_blue_delta,
    luma_green_delta, luma_pixel, luma_red_delta, opcode_of, run_length, wrap_byte, Opcode, TAG_RGB,
    TAG_RGBA,
};
use crate::pixel::{pixel_hash, Pixel};

verus! {

/// A stream that decodes gives exactly as many samples as were wanted, and
/// its opcodes take no more bytes than the stream has.
pub proof fn lemma_stream_gives_wanted(
    data: Seq<u8>,
    st: DecoderState,
    channels: u8,
    wanted: nat,
)
    ensures
        decode_stream(data, st, channels, wanted) matches Ok(d) ==> d.samples.len() == wanted
            && d.consumed <= data.len(),
    decreases data.len(),
{
    if wanted > 0 && data.len() >= 1 && data.len() >= opcode_len(data[0]) {
        let tag = data[0];
        let p = opcode_pixel(st, data);
        let block = run_samples(p, channels, run_length(tag));
        if block.len() <= wanted {
            lemma_stream_gives_wanted(
                data.skip(opcode_len(tag) as int),
                st.after(p),
                channels,
                (wanted - block.len()) as nat,
            );
        }
    }
}

/// Bytes that follow the last opcode needed do not matter: a stream that
/// decodes gives the same, and takes as many bytes, whatever is put behind
/// it.
pub proof fn lemma_trailing_bytes_are_ignored(
    data: Seq<u8>,
    extra: Seq<u8>,
    st: DecoderState,
    channels: u8,
    wanted: nat,
)
    ensures
        decode_stream(data, st, channels, wanted) is Ok ==> decode_stream(
            data + extra,
            st,
            channels,
            wanted,
        ) == decode_stream(data, st, channels, wanted),
    decreases data.len(),
{
    if wanted > 0 && data.len() >= 1 && data.len() >= opcode_len(data[0]) {
        let tag = data[0];
        let whole = data + extra;
        let p = opcode_pixel(st, data);
        let block = run_samples(p, channels, run_length(tag));
        assert(whole[0] == tag);
        assert(opcode_pixel(st, whole) == p);
        if block.len() <= wanted {
            assert(whole.skip(opcode_len(tag) as int) =~= data.skip(opcode_len(tag) as int)
                + extra);
            lemma_trailing_bytes_are_ignored(
                data.skip(opcode_len(tag) as int),
                extra,
                st.after(p),
                channels,
                (wanted - block.len()) as nat,
            );
        }
    }
}

/// An image decodes to the same whatever follows its last opcode.
pub proof fn lemma_decode_ignores_trailing_bytes(bytes: Seq<u8>, extra: Seq<u8>)
    ensures
        decode_spec(bytes) is Ok ==> decode_spec(bytes + extra) == decode_spec(bytes),
{
    if decode_spec(bytes) is Ok {
        let whole = bytes + extra;
        let header = parse_header_spec(bytes)->Ok_0;
        assert(bytes.len() >= HEADER_LEN);
        assert(!magic_mismatch(whole)) by {
            if magic_mismatch(whole) {
                let i = choose|i: int| 0 <= i < 4 && i < whole.len() && whole[i] != magic()[i];
                assert(bytes[i] == whole[i]);
                assert(magic_mismatch(bytes));
            }
        }
        assert(whole[4] == bytes[4] && whole[5] == bytes[5] && whole[6] == bytes[6] && whole[7]
            == bytes[7]);
        assert(whole[8] == bytes[8] && whole[9] == bytes[9] && whole[10] == bytes[10] && whole[11]
            == bytes[11]);
        assert(whole[12] == bytes[12] && whole[13] == bytes[13]);
        assert(parse_header_spec(whole) == parse_header_spec(bytes));
        assert(whole.skip(HEADER_LEN as int) =~= bytes.skip(HEADER_LEN as int) + extra);
        lemma_trailing_bytes_are_ignored(
            bytes.skip(HEADER_LEN as int),
            extra,
            DecoderState::initial(),
            header.channels,
            header.sample_count(),
        );
    }
}

/// An image that decodes has exactly width times height times channels
/// samples.
pub proof fn lemma_image_length(bytes: Seq<u8>)
    ensures
        decode_spec(bytes) matches Ok((header, samples)) ==> samples.len() == header.width
            * header.height * header.channels,
{
    match parse_header_spec(bytes) {
        Ok(header) => {
            lemma_stream_gives_wanted(
                bytes.skip(HEADER_LEN as int),
                DecoderState::initial(),
                header.channels,
                header.sample_count(),
            );
        },
        Err(_) => {},
    }
}

/// The state after the same pixel was emitted `times` times in a row.
pub open spec fn after_repeated(st: DecoderState, p: Pixel, times: nat) -> DecoderState
    decreases times,
{
    if times == 0 {
        st
    } else {
        after_repeated(st, p, (times - 1) as nat).after(p)
    }
}

/// Every copy of a repeated pixel is stored in the same cache slot, so the
/// state after any number of copies is the state after one: the pixel is
/// the previous pixel, its slot holds it, and every other slot holds what
/// it held before.
pub proof fn lemma_repeats_share_a_slot(st: DecoderState, p: Pixel, times: nat)
    requires
        st.wf(),
        times >= 1,
    ensures
        after_repeated(st, p, times) == st.after(p),
        st.after(p).prev == p,
        st.after(p).cache.len() == st.cache.len(),
        st.after(p).cache[pixel_hash(p)] == p,
        forall|slot: int|
            0 <= slot < st.cache.len() && slot != pixel_hash(p) ==> st.after(p).cache[slot]
                == st.cache[slot],
    decreases times,
{
    if times > 1 {
        lemma_repeats_share_a_slot(st, p, (times - 1) as nat);
        assert(st.after(p).after(p).cache =~= st.after(p).cache);
    } else {
        assert(after_repeated(st, p, 0) == st);
    }
}

/// The samples of a run are the samples of its pixel, copy after copy.
pub proof fn lemma_run_is_copies(p: Pixel, channels: u8, count: nat, k: nat)
    requires
        k < count,
    ensures
        run_samples(p, channels, count).len() == count * samples_per_pixel(channels),
        (k + 1) * samples_per_pixel(channels) <= count * samples_per_pixel(channels),
        run_samples(p, channels, count).subrange(
            (k * samples_per_pixel(channels)) as int,
            ((k + 1) * samples_per_pixel(channels)) as int,
        ) == pixel_samples(p, channels),
{
    let n = samples_per_pixel(channels) as int;
    let run = run_samples(p, channels, count);
    assert((k + 1) * n == k * n + n) by (nonlinear_arith);
    assert((k + 1) * n <= count * n) by (nonlinear_arith)
        requires
            k + 1 <= count,
            n > 0,
    ;
    let copy = run.subrange(k * n, (k + 1) * n);
    assert forall|i: int| 0 <= i < n implies copy[i] == pixel_samples(p, channels)[i] by {
        assert((k * n + i) % n == i) by (nonlinear_arith)
            requires
                0 <= i < n,
                k >= 0,
        ;
    }
    assert(copy =~= pixel_samples(p, channels));
}

/// A RUN opcode whose length field is `L` emits `L + 1` copies of the
/// previous pixel, between 1 and 62, and takes one byte. Where the image
/// has room for them, they are followed by what the rest of the stream
/// gives in the state after the previous pixel was emitted again; where it
/// has not, the stream is overrun.
pub proof fn lemma_run_opcode(data: Seq<u8>, st: DecoderState, channels: u8, wanted: nat)
    requires
        data.len() >= 1,
        opcode_of(data[0]) == Opcode::Run,
        wanted > 0,
    ensures
        run_length(data[0]) == low6(data[0]) + 1,
        0 <= low6(data[0]) <= 61,
        opcode_len(data[0]) == 1,
        opcode_pixel(st, data) == st.prev,
        run_length(data[0]) * samples_per_pixel(channels) <= wanted ==> decode_stream(
            data,
            st,
            channels,
            wanted,
        ) == decoded_after(
            run_samples(st.prev, channels, run_length(data[0])),
            1,
            decode_stream(
                data.skip(1),
                st.after(st.prev),
                channels,
                (wanted - run_length(data[0]) * samples_per_pixel(channels)) as nat,
            ),
        ),
        run_length(data[0]) * samples_per_pixel(channels) > wanted ==> decode_stream(
            data,
            st,
            channels,
            wanted,
        ) == Err::<Decoded, DecodeError>(DecodeError::Overrun),
{
}

/// Eight-bit wrapping goes both ways: a sum below zero comes back from the
/// top, and a sum above 255 from the bottom.
pub proof fn lemma_wrap_byte_both_ways(x: int)
    ensures
        0 <= x <= 255 ==> wrap_byte(x) == x,
        -256 <= x < 0 ==> wrap_byte(x) == x + 256,
        256 <= x < 512 ==> wrap_byte(x) == x - 256,
        (wrap_byte(x) - x) % 256 == 0,
{
}

/// The differences of a DIFF opcode lie between -2 and 1, and each of red,
/// green and blue is the previous sample plus its difference, wrapped in
/// eight bits; alpha is the previous alpha.
pub proof fn lemma_diff_wraps(prev: Pixel, tag: u8)
    ensures
        -2 <= diff_red_delta(tag) <= 1,
        -2 <= diff_green_delta(tag) <= 1,
        -2 <= diff_blue_delta(tag) <= 1,
        diff_pixel(prev, tag).r == wrap_byte(prev.r + diff_red_delta(tag)),
        diff_pixel(prev, tag).g == wrap_byte(prev.g + diff_green_delta(tag)),
        diff_pixel(prev, tag).b == wrap_byte(prev.b + diff_blue_delta(tag)),
        diff_pixel(prev, tag).a == prev.a,
{
}

/// The green difference of a LUMA opcode lies between -32 and -1, the red
/// and blue differences relative to it between -8 and 7, and each of red,
/// green and blue is the previous sample plus its differences, wrapped in
/// eight bits; alpha is the previous alpha.
pub proof fn lemma_luma_wraps(prev: Pixel, tag: u8, byte: u8)
    ensures
        -32 <= luma_green_delta(tag) <= -1,
        -8 <= luma_red_delta(byte) <= 7,
        -8 <= luma_blue_delta(byte) <= 7,
        luma_pixel(prev, tag, byte).g == wrap_byte(prev.g + luma_green_delta(tag)),
        luma_pixel(prev, tag, byte).r == wrap_byte(
            prev.r + luma_green_delta(tag) + luma_red_delta(byte),
        ),
        luma_pixel(prev, tag, byte).b == wrap_byte(
            prev.b + luma_green_delta(tag) + luma_blue_delta(byte),
        ),
        luma_pixel(prev, tag, byte).a == prev.a,
{
}

/// An INDEX opcode gives the pixel that was stored last in the slot it
/// names. Of two pixels emitted one after the other the second one wins
/// its slot, whether or not the first one had the same; a slot that the
/// last pixel did not take still holds what it held.
pub proof fn lemma_index_reads_last_write(st: DecoderState, p: Pixel, q: Pixel, code: Seq<u8>)
    requires
        st.wf(),
        code.len() >= 1,
        opcode_of(code[0]) == Opcode::Index,
    ensures
        0 <= low6(code[0]) < 64,
        opcode_pixel(st, code) == st.cache[low6(code[0])],
        low6(code[0]) == pixel_hash(q) ==> opcode_pixel(st.after(p).after(q), code) == q,
        low6(code[0]) != pixel_hash(q) ==> opcode_pixel(st.after(p).after(q), code)
            == opcode_pixel(st.after(p), code),
{
}

/// An RGB opcode takes red, green and blue from its three bytes and alpha
/// from the previous pixel.
pub proof fn lemma_rgb_keeps_alpha(st: DecoderState, code: Seq<u8>)
    requires
        code.len() >= 4,
        code[0] == TAG_RGB,
    ensures
        opcode_len(code[0]) == 4,
        run_length(code[0]) == 1,
        opcode_pixel(st, code) == (Pixel { r: code[1], g: code[2], b: code[3], a: st.prev.a }),
{
}

/// An RGBA opcode takes all four samples from its four bytes: the pixel is
/// the same in every state, so nothing of the previous pixel is in it.
pub proof fn lemma_rgba_sets_alpha(st: DecoderState, other: DecoderState, code: Seq<u8>)
    requires
        code.len() >= 5,
        code[0] == TAG_RGBA,
    ensures
        opcode_len(code[0]) == 5,
        run_length(code[0]) == 1,
        opcode_pixel(st, code) == (Pixel { r: code[1], g: code[2], b: code[3], a: code[4] }),
        opcode_pixel(st, code) == opcode_pixel(other, code),
{
}

/// A stream in which one of the first four bytes is not the byte of the
/// magic tag is malformed, however long it is.
pub proof fn lemma_wrong_magic_is_malformed(bytes: Seq<u8>, i: int)
    requires
        0 <= i < 4,
        i < bytes.len(),
        bytes[i] != magic()[i],
    ensures
        decode_spec(bytes) == Err::<(QoiHeader, Seq<u8>), DecodeError>(DecodeError::Format),
{
    assert(magic_mismatch(bytes));
}

/// A stream with a whole header and the right magic tag is malformed
/// exactly when its colorspace byte is above 1.
pub proof fn lemma_colorspace_is_checked(bytes: Seq<u8>)
    requires
        bytes.len() >= HEADER_LEN,
        !magic_mismatch(bytes),
    ensures
        bytes[13] > 1 <==> parse_header_spec(bytes) == Err::<QoiHeader, DecodeError>(
            DecodeError::Format,
        ),
        bytes[13] > 1 ==> decode_spec(bytes) == Err::<(QoiHeader, Seq<u8>), DecodeError>(
            DecodeError::Format,
        ),
{
}

} // verus!
