use vstd::prelude::*;

use crate::error::TransportError;

verus! {

/// Largest payload a 24-bit length prefix can describe.
pub open spec fn max_frame_len() -> int {
    16777215
}

/// Three big-endian bytes of `n` (each byte taken modulo 256).
pub open spec fn u24_be(n: int) -> Seq<u8> {
    seq![(n / 65536 % 256) as u8, (n / 256 % 256) as u8, (n % 256) as u8]
}

/// Length announced by the 3-byte header at the start of `buf`.
pub open spec fn header_len(buf: Seq<u8>) -> int {
    buf[0] as int * 65536 + buf[1] as int * 256 + buf[2] as int
}

/// A payload framed with its 24-bit length.
pub open spec fn frame_of(payload: Seq<u8>) -> Seq<u8> {
    u24_be(payload.len() as int) + payload
}

/// The first complete frame of `buf` (payload, remaining bytes), if any.
pub open spec fn first_frame(buf: Seq<u8>) -> Option<(Seq<u8>, Seq<u8>)> {
    if buf.len() < 3 || buf.len() < 3 + header_len(buf) {
        None
    } else {
        Some((buf.subrange(3, 3 + header_len(buf)), buf.skip(3 + header_len(buf))))
    }
}

/// All complete frames at the start of `buf`, and the incomplete remainder.
pub open spec fn split_frames(buf: Seq<u8>) -> (Seq<Seq<u8>>, Seq<u8>)
    decreases buf.len(),
{
    match first_frame(buf) {
        None => (Seq::empty(), buf),
        Some((payload, rest)) => {
            let (fs, r) = split_frames(rest);
            (seq![payload] + fs, r)
        },
    }
}

proof fn lemma_u24_header(p: Seq<u8>, rest: Seq<u8>)
    requires
        p.len() <= max_frame_len(),
    ensures
        header_len(frame_of(p) + rest) == p.len(),
{
    let n = p.len() as int;
    let b = frame_of(p) + rest;
    assert(b[0] == (n / 65536 % 256) as u8);
    assert(b[1] == (n / 256 % 256) as u8);
    assert(b[2] == (n % 256) as u8);
    assert((n / 65536 % 256) as u8 as int * 65536 + (n / 256 % 256) as u8 as int * 256 + (n % 256) as u8 as int == n) by (nonlinear_arith)
        requires 0 <= n <= 16777215;
}

/// Framing law: reading frames from a framed payload followed by more bytes
/// gives back the payload first, then whatever the remaining bytes hold.
pub proof fn law_frame_roundtrip(p: Seq<u8>, rest: Seq<u8>)
    requires
        p.len() <= max_frame_len(),
    ensures
        first_frame(frame_of(p) + rest) == Some((p, rest)),
        split_frames(frame_of(p) + rest) == (seq![p] + split_frames(rest).0, split_frames(rest).1),
{
    let b = frame_of(p) + rest;
    lemma_u24_header(p, rest);
    assert(b.subrange(3, 3 + p.len() as int) =~= p);
    assert(b.skip(3 + p.len() as int) =~= rest);
}

/// Big-endian value of three bytes.
pub fn read_u24_be(b0: u8, b1: u8, b2: u8) -> (r: usize)
    ensures
        r == b0 as int * 65536 + b1 as int * 256 + b2 as int,
{
    (b0 as usize) * 65536 + (b1 as usize) * 256 + (b2 as usize)
}

/// Appends the three big-endian bytes of the low 24 bits of `n`.
pub fn push_u24_be(out: &mut Vec<u8>, n: usize)
    ensures
        final(out)@ == old(out)@ + u24_be(n as int),
{
    out.push((n / 65536 % 256) as u8);
    out.push((n / 256 % 256) as u8);
    out.push((n % 256) as u8);
    assert(out@ =~= old(out)@ + u24_be(n as int));
}

/// Copies `s[start..end]` into a new vector.
pub fn copy_range(s: &[u8], start: usize, end: usize) -> (r: Vec<u8>)
    requires
        start <= end <= s@.len(),
    ensures
        r@ == s@.subrange(start as int, end as int),
{
    crate::text::bytes_to_vec(&s[start..end])
}

/// Builds a frame with a 24-bit big-endian length prefix.
pub fn build_frame(payload: &[u8]) -> (r: Result<Vec<u8>, TransportError>)
    ensures
        payload@.len() > max_frame_len() ==> r == Err::<Vec<u8>, TransportError>(TransportError::FrameTooLarge),
        payload@.len() <= max_frame_len() ==> r is Ok && r->Ok_0@ == frame_of(payload@),
{
    if payload.len() > 16777215 {
        return Err(TransportError::FrameTooLarge);
    }
    let mut frame: Vec<u8> = Vec::new();
    push_u24_be(&mut frame, payload.len());
    crate::text::push_all(&mut frame, payload);
    Ok(frame)
}

/// Removes the first complete frame from the buffer and returns its payload.
pub fn pop_framed_payload(buffer: &mut Vec<u8>) -> (r: Result<Option<Vec<u8>>, TransportError>)
    ensures
        r is Ok,
        match first_frame(old(buffer)@) {
            None => r == Ok::<Option<Vec<u8>>, TransportError>(None) && final(buffer)@ == old(buffer)@,
            Some((p, rest)) => r->Ok_0 is Some && r->Ok_0->Some_0@ == p && final(buffer)@ == rest,
        },
{
    if buffer.len() < 3 {
        return Ok(None);
    }
    let expected_len = read_u24_be(buffer[0], buffer[1], buffer[2]);
    if buffer.len() - 3 < expected_len {
        return Ok(None);
    }
    let full_frame_len = 3 + expected_len;
    let payload = copy_range(buffer.as_slice(), 3, full_frame_len);
    let rest = copy_range(buffer.as_slice(), full_frame_len, buffer.len());
    assert(rest@ == buffer@.skip(full_frame_len as int));
    *buffer = rest;
    Ok(Some(payload))
}

/// The payload of a frame at the start of `raw` (extra bytes after it are ignored).
pub fn maybe_unframe(raw: &[u8]) -> (r: Option<&[u8]>)
    ensures
        match first_frame(raw@) {
            None => r is None,
            Some((p, _)) => r is Some && r->Some_0@ == p,
        },
{
    if raw.len() < 3 {
        return None;
    }
    let expected_len = read_u24_be(raw[0], raw[1], raw[2]);
    if raw.len() - 3 >= expected_len {
        return Some(&raw[3..3 + expected_len]);
    }
    None
}

/// Close code carried by a raw websocket close frame (`0x88 0x02 hi lo`)
/// that arrived inside a binary payload.
pub fn decode_raw_close_code(data: &[u8]) -> (r: Option<u16>)
    ensures
        r == (if data@.len() == 4 && data@[0] == 0x88u8 && data@[1] == 0x02u8 {
            Some((data@[2] as int * 256 + data@[3] as int) as u16)
        } else {
            None::<u16>
        }),
{
    if data.len() == 4 && data[0] == 0x88 && data[1] == 0x02 {
        return Some((data[2] as u16) * 256 + (data[3] as u16));
    }
    None
}

} // verus!
