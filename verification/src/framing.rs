//! The envelope of streamed messages: a flag byte, the length of the payload as
//! four bytes with the highest first, and the payload.
use crate::gzip::{gzip_compress, gzipped};
use vstd::prelude::*;

verus! {

/// The size above which a message is refused.
pub const DEFAULT_MAX_MESSAGE_BYTES: usize = 4194304;

/// The four bytes of a length, highest first.
pub open spec fn length_bytes(n: int) -> Seq<u8> {
    seq![
        (n / 0x1000000 % 256) as u8,
        (n / 0x10000 % 256) as u8,
        (n / 0x100 % 256) as u8,
        (n % 256) as u8,
    ]
}

/// The length that four bytes, from `at` on, stand for.
pub open spec fn length_at(b: Seq<u8>, at: int) -> int {
    b[at] * 0x1000000 + b[at + 1] * 0x10000 + b[at + 2] * 0x100 + b[at + 3]
}

/// The frame of a payload. The length field holds the low 32 bits of the length.
pub open spec fn frame_bytes(flags: u8, payload: Seq<u8>) -> Seq<u8> {
    seq![flags] + length_bytes(payload.len() as int) + payload
}

/// Whether the flags say that the payload is compressed.
pub open spec fn is_compressed(flags: u8) -> bool {
    flags % 2 == 1
}

/// Whether the flags say that the stream ends here.
pub open spec fn is_end(flags: u8) -> bool {
    flags / 2 % 2 == 1
}

/// Whether `b` begins with a whole frame.
pub open spec fn has_frame(b: Seq<u8>) -> bool {
    b.len() >= 5 && b.len() >= 5 + length_at(b, 1)
}

/// The payload of the frame that `b` begins with.
pub open spec fn frame_payload(b: Seq<u8>) -> Seq<u8> {
    b.subrange(5, 5 + length_at(b, 1))
}

/// What follows the frame that `b` begins with.
pub open spec fn frame_rest(b: Seq<u8>) -> Seq<u8> {
    b.skip(5 + length_at(b, 1))
}

/// Writes the four bytes of a length behind `out`.
pub fn push_length(out: &mut Vec<u8>, n: usize)
    ensures
        final(out)@ == old(out)@ + length_bytes(n as int),
{
    let ghost before = out@;
    out.push((n / 0x1000000 % 256) as u8);
    out.push((n / 0x10000 % 256) as u8);
    out.push((n / 0x100 % 256) as u8);
    out.push((n % 256) as u8);
    assert(out@ =~= before + length_bytes(n as int));
}

/// Reads a length from the four bytes at `at`.
pub fn read_length(b: &[u8], at: usize) -> (n: u32)
    requires
        at + 4 <= b@.len(),
    ensures
        n == length_at(b@, at as int),
{
    b[at] as u32 * 0x1000000 + b[at + 1] as u32 * 0x10000 + b[at + 2] as u32 * 0x100 + b[at
        + 3] as u32
}

fn frame_with(flags: u8, payload: &[u8]) -> (out: Vec<u8>)
    ensures
        out@ == frame_bytes(flags, payload@),
{
    let mut out: Vec<u8> = Vec::new();
    out.push(flags);
    push_length(&mut out, payload.len());
    let ghost head = out@;
    assert(head =~= seq![flags] + length_bytes(payload@.len() as int));
    out.extend_from_slice(payload);
    assert(out@ =~= head + payload@);
    out
}

/// Frames one message of a stream, or the end of it.
pub fn frame(payload: &[u8], end_stream: bool) -> (out: Vec<u8>)
    ensures
        out@ == frame_bytes(
            if end_stream {
                2
            } else {
                0
            },
            payload@,
        ),
{
    frame_with(
        if end_stream {
            2
        } else {
            0
        },
        payload,
    )
}

/// Frames bytes that are already compressed, with the flag that says so.
pub fn frame_gzip_data(compressed: &[u8]) -> (out: Vec<u8>)
    ensures
        out@ == frame_bytes(1, compressed@),
{
    frame_with(1, compressed)
}

/// Compresses a message and frames it, with the flag that says so.
/// Decompressing what stands behind the five bytes of the head gives the
/// message back.
pub fn frame_compressed(payload: &[u8]) -> (out: Vec<u8>)
    ensures
        out@ == frame_bytes(1, gzipped(payload@)),
        crate::gzip::gunzipped(out@.skip(5)) == Some(payload@),
{
    let z = gzip_compress(payload);
    let out = frame_gzip_data(&z);
    assert(out@.skip(5) =~= z@);
    out
}

/// Reads the frame that a buffer begins with: the payload, whether the stream
/// ends with it, and the number of bytes that it takes. None where the frame is
/// not all there, or announces more than the limit.
pub fn read_frame(buf: &[u8]) -> (r: Option<(Vec<u8>, bool, usize)>)
    ensures
        match r {
            Some((payload, end, used)) => {
                &&& has_frame(buf@)
                &&& length_at(buf@, 1) <= DEFAULT_MAX_MESSAGE_BYTES
                &&& payload@ == frame_payload(buf@)
                &&& end == is_end(buf@[0])
                &&& used == 5 + length_at(buf@, 1)
            },
            None => !has_frame(buf@) || length_at(buf@, 1) > DEFAULT_MAX_MESSAGE_BYTES,
        },
{
    if buf.len() < 5 {
        return None;
    }
    let len = read_length(buf, 1) as usize;
    if len > DEFAULT_MAX_MESSAGE_BYTES {
        return None;
    }
    if buf.len() - 5 < len {
        return None;
    }
    let payload = vstd::slice::slice_to_vec(vstd::slice::slice_subrange(buf, 5, 5 + len));
    Some((payload, buf[0] / 2 % 2 == 1, 5 + len))
}

/// A length below 2^32 is read back from its four bytes.
pub proof fn law_length_reads_back(n: int, before: Seq<u8>, after: Seq<u8>)
    requires
        0 <= n < 0x1_0000_0000,
    ensures
        length_at(before + length_bytes(n) + after, before.len() as int) == n,
{
    let b = before + length_bytes(n) + after;
    let k = before.len() as int;
    assert(b[k] == length_bytes(n)[0]);
    assert(b[k + 1] == length_bytes(n)[1]);
    assert(b[k + 2] == length_bytes(n)[2]);
    assert(b[k + 3] == length_bytes(n)[3]);
}

/// A buffer that begins with the frame of a payload, whatever follows, is read
/// as that frame, and what follows is left.
pub proof fn law_frame_reads_back(flags: u8, payload: Seq<u8>, after: Seq<u8>)
    requires
        payload.len() < 0x1_0000_0000,
    ensures
        has_frame(frame_bytes(flags, payload) + after),
        (frame_bytes(flags, payload) + after)[0] == flags,
        length_at(frame_bytes(flags, payload) + after, 1) == payload.len(),
        frame_payload(frame_bytes(flags, payload) + after) == payload,
        frame_rest(frame_bytes(flags, payload) + after) == after,
{
    let b = frame_bytes(flags, payload) + after;
    assert(b =~= seq![flags] + length_bytes(payload.len() as int) + (payload + after));
    law_length_reads_back(payload.len() as int, seq![flags], payload + after);
    assert(frame_payload(b) =~= payload);
    assert(frame_rest(b) =~= after);
}

/// Bytes that arrive later do not change the frame that a buffer begins with.
pub proof fn law_frame_ignores_later_bytes(b: Seq<u8>, later: Seq<u8>)
    requires
        has_frame(b),
    ensures
        has_frame(b + later),
        (b + later)[0] == b[0],
        frame_payload(b + later) == frame_payload(b),
        frame_rest(b + later) == frame_rest(b) + later,
{
    assert(length_at(b + later, 1) == length_at(b, 1));
    assert(frame_payload(b + later) =~= frame_payload(b));
    assert(frame_rest(b + later) =~= frame_rest(b) + later);
}

/// A frame is the flags, the length of the payload with its highest byte first, and
/// the payload.
pub proof fn law_frame_layout(flags: u8, payload: Seq<u8>)
    requires
        payload.len() < 0x1_0000_0000,
    ensures
        ({
            let f = frame_bytes(flags, payload);
            &&& f.len() == 5 + payload.len()
            &&& f[0] == flags
            &&& ((f[1] * 256 + f[2]) * 256 + f[3]) * 256 + f[4] == payload.len()
            &&& f.skip(5) == payload
        }),
{
    let f = frame_bytes(flags, payload);
    let n = payload.len() as int;
    assert(f[1] == length_bytes(n)[0]);
    assert(f[2] == length_bytes(n)[1]);
    assert(f[3] == length_bytes(n)[2]);
    assert(f[4] == length_bytes(n)[3]);
    assert(f.skip(5) =~= payload);
}

/// The lowest bit of the flags says that the payload is compressed, the next that
/// the stream ends, and the other bits say nothing.
pub proof fn law_flags(flags: u8)
    ensures
        is_compressed(flags) <==> flags & 1 != 0,
        is_end(flags) <==> flags & 2 != 0,
{
    assert(flags % 2 == 1 <==> flags & 1 != 0) by (bit_vector);
    assert(flags / 2 % 2 == 1 <==> flags & 2 != 0) by (bit_vector);
}

/// A frame of which the end is missing is no frame.
pub proof fn law_cut_frame_is_none(flags: u8, payload: Seq<u8>, n: int)
    requires
        payload.len() < 0x1_0000_0000,
        0 <= n < 5 + payload.len(),
    ensures
        !has_frame(frame_bytes(flags, payload).take(n)),
{
    let f = frame_bytes(flags, payload);
    law_frame_layout(flags, payload);
    if n >= 5 {
        let b = f.take(n);
        assert(b[1] == f[1] && b[2] == f[2] && b[3] == f[3] && b[4] == f[4]);
    }
}

} // verus!
