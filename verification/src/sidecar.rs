//! The sidecar wire protocol: type-tagged, length-prefixed frames in both
//! directions on one socket, so PCM, status and control share the stream.
//!
//! ```text
//! [u8 type][u32 little-endian length][length bytes payload]
//! ```

use vstd::prelude::*;

verus! {

/// Sidecar to engine: interleaved-stereo f32 LE PCM.
pub const FRAME_PCM: u8 = 1;

/// Sidecar to engine: UTF-8 JSON status.
pub const FRAME_STATUS: u8 = 2;

/// Engine to sidecar: UTF-8 JSON deck control.
pub const FRAME_CONTROL: u8 = 3;

/// Cap on a single frame's payload: a guard against a desynced or hostile
/// stream allocating unbounded memory (a 1 s PCM chunk is 384 000 bytes).
pub const MAX_FRAME_BYTES: u32 = 16777216;

/// The header's size: the type byte and the length.
pub const FRAME_HEADER_BYTES: usize = 5;

/// Why a frame could not be read.
#[derive(Debug, Clone, Copy, PartialEq, Eq, Structural)]
pub enum FrameError {
    /// The header announced a payload above [`MAX_FRAME_BYTES`].
    TooLong { len: u32 },
    /// The stream ended inside a frame: in its header or its payload.
    Truncated,
}

/// What the reader does with a frame.
#[derive(Debug, Clone, Copy, PartialEq, Eq, Structural)]
pub enum FrameRoute {
    /// PCM for the deck's ring.
    Pcm,
    /// Status text for the sink.
    Status,
    /// An unknown type: ignored, for forward compatibility.
    Ignore,
}

/// The little-endian bytes of `n`.
pub open spec fn le_bytes(n: u32) -> Seq<u8> {
    seq![(n % 256) as u8, ((n / 256) % 256) as u8, ((n / 65536) % 256) as u8, (n / 16777216) as u8]
}

/// The number four little-endian bytes spell.
pub open spec fn le_value(b0: u8, b1: u8, b2: u8, b3: u8) -> int {
    b0 + 256 * b1 + 65536 * b2 + 16777216 * b3
}

/// One frame's bytes: the type, the payload length (truncated to the
/// field's 32 bits), then the payload.
pub open spec fn encode_frame(frame_type: u8, payload: Seq<u8>) -> Seq<u8> {
    seq![frame_type] + le_bytes(payload.len() as u32) + payload
}

/// The payload length announced by the header at `pos`.
pub open spec fn announced_len(buf: Seq<u8>, pos: int) -> int {
    le_value(buf[pos + 1], buf[pos + 2], buf[pos + 3], buf[pos + 4])
}

/// Reading a frame at `pos` of `buf`: a clean end when no byte remains;
/// an error for a header cut short, an over-cap length or a payload cut
/// short; else the type and the payload. The second part is where the
/// reader stands afterwards.
pub open spec fn read_frame_spec(buf: Seq<u8>, pos: int) -> (Result<Option<(u8, Seq<u8>)>, FrameError>, int) {
    if pos >= buf.len() {
        (Ok(None), buf.len() as int)
    } else if pos + FRAME_HEADER_BYTES > buf.len() {
        (Err(FrameError::Truncated), buf.len() as int)
    } else if announced_len(buf, pos) > MAX_FRAME_BYTES {
        (Err(FrameError::TooLong { len: announced_len(buf, pos) as u32 }), pos + FRAME_HEADER_BYTES)
    } else if pos + FRAME_HEADER_BYTES + announced_len(buf, pos) > buf.len() {
        (Err(FrameError::Truncated), buf.len() as int)
    } else {
        let start = pos + FRAME_HEADER_BYTES;
        (Ok(Some((buf[pos], buf.subrange(start, start + announced_len(buf, pos))))), start + announced_len(buf, pos))
    }
}

/// A read frame as plain values.
pub open spec fn frame_view(r: Result<Option<(u8, Vec<u8>)>, FrameError>) -> Result<Option<(u8, Seq<u8>)>, FrameError> {
    match r {
        Ok(Some((t, p))) => Ok(Some((t, p@))),
        Ok(None) => Ok(None),
        Err(e) => Err(e),
    }
}

proof fn lemma_le_round_trip(n: u32)
    ensures
        le_value(le_bytes(n)[0], le_bytes(n)[1], le_bytes(n)[2], le_bytes(n)[3]) == n,
{
    let b = le_bytes(n);
    assert(b[0] == n % 256);
    assert(b[1] == (n / 256) % 256);
    assert(b[2] == (n / 65536) % 256);
    assert(b[3] == n / 16777216);
    assert(n % 256 + 256 * ((n / 256) % 256) + 65536 * ((n / 65536) % 256) + 16777216 * (n / 16777216) == n)
        by (bit_vector);
}

/// The header bytes of a frame: the type and the little-endian length.
pub fn frame_header(frame_type: u8, len: u32) -> (head: [u8; 5])
    ensures
        head@ == seq![frame_type] + le_bytes(len),
{
    let head = [
        frame_type,
        (len % 256) as u8,
        ((len / 256) % 256) as u8,
        ((len / 65536) % 256) as u8,
        (len / 16777216) as u8,
    ];
    assert(head@ =~= seq![frame_type] + le_bytes(len));
    head
}

/// Parse a frame header into the type and the payload length, refusing a
/// length above [`MAX_FRAME_BYTES`].
pub fn parse_frame_header(head: [u8; 5]) -> (r: Result<(u8, u32), FrameError>)
    ensures
        le_value(head@[1], head@[2], head@[3], head@[4]) > MAX_FRAME_BYTES ==> r == Err::<(u8, u32), FrameError>(
            FrameError::TooLong { len: le_value(head@[1], head@[2], head@[3], head@[4]) as u32 },
        ),
        le_value(head@[1], head@[2], head@[3], head@[4]) <= MAX_FRAME_BYTES ==> r == Ok::<(u8, u32), FrameError>(
            (head@[0], le_value(head@[1], head@[2], head@[3], head@[4]) as u32),
        ),
{
    let len: u32 = head[1] as u32 + 256 * head[2] as u32 + 65536 * head[3] as u32 + 16777216 * head[4] as u32;
    if len > MAX_FRAME_BYTES {
        Err(FrameError::TooLong { len })
    } else {
        Ok((head[0], len))
    }
}

/// Append one framed message to `out`: the type byte, the little-endian
/// `u32` payload length, then the payload.
pub fn write_frame(out: &mut Vec<u8>, frame_type: u8, payload: &[u8])
    ensures
        final(out)@ == old(out)@ + encode_frame(frame_type, payload@),
{
    let head = frame_header(frame_type, #[verifier::truncate] (payload.len() as u32));
    let mut i: usize = 0;
    let ghost start = out@;
    while i < FRAME_HEADER_BYTES
        invariant
            0 <= i <= FRAME_HEADER_BYTES,
            out@ == start + head@.take(i as int),
        decreases FRAME_HEADER_BYTES - i,
    {
        out.push(head[i]);
        assert(head@.take(i + 1) =~= head@.take(i as int).push(head@[i as int]));
        i = i + 1;
    }
    assert(head@.take(5) =~= head@);
    let ghost mid = out@;
    let mut j: usize = 0;
    while j < payload.len()
        invariant
            0 <= j <= payload@.len(),
            out@ == mid + payload@.take(j as int),
        decreases payload@.len() - j,
    {
        out.push(payload[j]);
        assert(payload@.take(j + 1) =~= payload@.take(j as int).push(payload@[j as int]));
        j = j + 1;
    }
    assert(payload@.take(payload@.len() as int) =~= payload@);
    assert(out@ =~= start + encode_frame(frame_type, payload@));
}

/// Read one framed message at `*pos` of `buf` and advance past it:
/// `Ok(None)` on a clean end at a frame boundary (no byte left), an error
/// on a header or a payload the buffer cuts short, or on a length above
/// [`MAX_FRAME_BYTES`].
pub fn read_frame(buf: &[u8], pos: &mut usize) -> (r: Result<Option<(u8, Vec<u8>)>, FrameError>)
    ensures
        (frame_view(r), *final(pos) as int) == read_frame_spec(buf@, *old(pos) as int),
{
    if *pos >= buf.len() {
        *pos = buf.len();
        return Ok(None);
    }
    if buf.len() - *pos < FRAME_HEADER_BYTES {
        *pos = buf.len();
        return Err(FrameError::Truncated);
    }
    let p = *pos;
    let head = [buf[p], buf[p + 1], buf[p + 2], buf[p + 3], buf[p + 4]];
    match parse_frame_header(head) {
        Err(e) => {
            *pos = p + FRAME_HEADER_BYTES;
            Err(e)
        },
        Ok((frame_type, len)) => {
            let start = p + FRAME_HEADER_BYTES;
            if len as usize > buf.len() - start {
                *pos = buf.len();
                return Err(FrameError::Truncated);
            }
            let end = start + len as usize;
            let mut payload: Vec<u8> = Vec::new();
            let mut k: usize = start;
            while k < end
                invariant
                    start <= k <= end,
                    end <= buf@.len(),
                    payload@ == buf@.subrange(start as int, k as int),
                decreases end - k,
            {
                payload.push(buf[k]);
                assert(buf@.subrange(start as int, k + 1) =~= buf@.subrange(start as int, k as int).push(
                    buf@[k as int],
                ));
                k = k + 1;
            }
            *pos = end;
            Ok(Some((frame_type, payload)))
        },
    }
}

/// Where the reader sends a frame of this type.
pub fn route_frame(frame_type: u8) -> (route: FrameRoute)
    ensures
        frame_type == FRAME_PCM ==> route == FrameRoute::Pcm,
        frame_type == FRAME_STATUS ==> route == FrameRoute::Status,
        frame_type != FRAME_PCM && frame_type != FRAME_STATUS ==> route == FrameRoute::Ignore,
{
    if frame_type == FRAME_PCM {
        FrameRoute::Pcm
    } else if frame_type == FRAME_STATUS {
        FrameRoute::Status
    } else {
        FrameRoute::Ignore
    }
}

/// A frame written after any bytes reads back whole from where it starts,
/// and the reader lands just past it: frames round-trip through a buffer.
pub proof fn lemma_frame_round_trip(before: Seq<u8>, frame_type: u8, payload: Seq<u8>, after: Seq<u8>)
    requires
        payload.len() <= MAX_FRAME_BYTES,
    ensures
        read_frame_spec(before + encode_frame(frame_type, payload) + after, before.len() as int) == (
            Ok::<Option<(u8, Seq<u8>)>, FrameError>(Some((frame_type, payload))),
            before.len() + FRAME_HEADER_BYTES + payload.len(),
        ),
{
    let buf = before + encode_frame(frame_type, payload) + after;
    let pos = before.len() as int;
    let n = payload.len() as u32;
    let b = le_bytes(n);
    assert(buf[pos] == frame_type);
    assert(buf[pos + 1] == b[0]);
    assert(buf[pos + 2] == b[1]);
    assert(buf[pos + 3] == b[2]);
    assert(buf[pos + 4] == b[3]);
    lemma_le_round_trip(n);
    assert(announced_len(buf, pos) == payload.len());
    assert(buf.subrange(pos + 5, pos + 5 + payload.len()) =~= payload);
}

/// At the end of what was written, the reader sees a clean end.
pub proof fn lemma_clean_end(buf: Seq<u8>)
    ensures
        read_frame_spec(buf, buf.len() as int) == (Ok::<Option<(u8, Seq<u8>)>, FrameError>(None), buf.len() as int),
{
}

/// A frame cut short anywhere, in its header or in its payload, reads as
/// truncated: only the end of the stream on a frame boundary is clean.
pub proof fn lemma_cut_frame_is_truncated(before: Seq<u8>, frame_type: u8, payload: Seq<u8>, kept: int)
    requires
        payload.len() <= MAX_FRAME_BYTES,
        0 < kept < FRAME_HEADER_BYTES + payload.len(),
    ensures
        read_frame_spec(before + encode_frame(frame_type, payload).take(kept), before.len() as int).0
            == Err::<Option<(u8, Seq<u8>)>, FrameError>(FrameError::Truncated),
{
    let frame = encode_frame(frame_type, payload);
    let buf = before + frame.take(kept);
    let pos = before.len() as int;
    if kept >= FRAME_HEADER_BYTES {
        let n = payload.len() as u32;
        let b = le_bytes(n);
        assert(buf[pos + 1] == b[0]);
        assert(buf[pos + 2] == b[1]);
        assert(buf[pos + 3] == b[2]);
        assert(buf[pos + 4] == b[3]);
        lemma_le_round_trip(n);
        assert(announced_len(buf, pos) == payload.len());
    }
}

} // verus!
