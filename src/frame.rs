use vstd::prelude::*;
use bytes::BytesMut;
use crate::buffer::{buffer_advance, buffer_bytes, buffer_contents, buffer_extend, buffer_reserve, buffer_with_capacity};
use crate::packet::{frame_of, PACKET_MAX_SIZE};
use crate::varint::{
    decode_varint, groups_of, lemma_decode_groups_of, lemma_decode_groups_len, lemma_decode_prefix,
    lemma_groups_len, parse_varint, pow128, varint_bytes, VarIntError,
};

verus! {

/// Largest number of bytes of a frame's length header.
pub const PACKET_LENGTH_FIELD_MAX_SIZE: usize = 3;

/// Why the buffered bytes cannot start a frame.
#[derive(Debug, Clone, Copy, PartialEq, Eq, Structural)]
pub enum FrameError {
    /// The length header is longer than three bytes or malformed.
    BadLength,
}

/// What the front of a buffer holds.
pub enum FrameStep {
    /// Not yet a whole frame: more bytes are needed.
    Wait,
    /// A whole frame: `header` bytes of length, then `len` bytes of packet.
    Frame { header: nat, len: nat },
    /// No frame can start here.
    Malformed,
}

/// The bytes in which the length header is looked for.
pub open spec fn header_window(buf: Seq<u8>) -> Seq<u8> {
    if buf.len() < PACKET_LENGTH_FIELD_MAX_SIZE {
        buf
    } else {
        buf.take(PACKET_LENGTH_FIELD_MAX_SIZE as int)
    }
}

/// What the front of a buffer holds: the length is read from at most three
/// bytes; a header still cut short waits for more, a longer one is refused.
pub open spec fn frame_step(buf: Seq<u8>) -> FrameStep {
    match decode_varint(header_window(buf)) {
        Ok((v, n)) => if v < 0 {
            FrameStep::Malformed
        } else if buf.len() >= n + v {
            FrameStep::Frame { header: n, len: v as nat }
        } else {
            FrameStep::Wait
        },
        Err(VarIntError::Incomplete) => if buf.len() >= PACKET_LENGTH_FIELD_MAX_SIZE {
            FrameStep::Malformed
        } else {
            FrameStep::Wait
        },
        Err(VarIntError::Overflow) => FrameStep::Malformed,
    }
}

/// Accumulates the bytes of one connection and cuts whole frames off the front.
pub struct FrameDecoder {
    buf: BytesMut,
}

/// Room kept free in a decoder's buffer: two packets of the largest size.
pub const BUFFER_RESERVE: usize = 2 * PACKET_MAX_SIZE;

impl View for FrameDecoder {
    type V = Seq<u8>;

    closed spec fn view(&self) -> Seq<u8> {
        buffer_contents(self.buf)
    }
}

/// A copy of the bytes of `s` from `from` up to `to`.
fn copy_range(s: &[u8], from: usize, to: usize) -> (r: Vec<u8>)
    requires
        from <= to <= s@.len(),
    ensures
        r@ == s@.subrange(from as int, to as int),
{
    let mut r: Vec<u8> = Vec::new();
    let mut i: usize = from;
    while i < to
        invariant
            from <= i <= to,
            to <= s@.len(),
            r@ == s@.subrange(from as int, i as int),
        decreases to - i,
    {
        r.push(s[i]);
        i = i + 1;
        assert(r@ =~= s@.subrange(from as int, i as int));
    }
    r
}

impl FrameDecoder {
    /// An empty decoder with room for two packets of the largest size.
    pub fn new() -> (r: FrameDecoder)
        ensures
            r@ == Seq::<u8>::empty(),
    {
        FrameDecoder { buf: buffer_with_capacity(BUFFER_RESERVE + 1) }
    }

    /// The bytes buffered and not yet cut into frames.
    pub fn buffered(&self) -> (r: &[u8])
        ensures
            r@ == self@,
    {
        buffer_bytes(&self.buf)
    }

    /// Appends bytes that arrived from the connection.
    pub fn extend(&mut self, data: &[u8])
        requires
            old(self)@.len() + data@.len() <= isize::MAX,
        ensures
            final(self)@ == old(self)@ + data@,
    {
        buffer_extend(&mut self.buf, data)
    }

    /// Makes room for the next reads again, where that stays within the
    /// largest allocation; the bytes held do not change.
    pub fn restore_capacity(&mut self)
        ensures
            final(self)@ == old(self)@,
    {
        let held = buffer_bytes(&self.buf).len();
        if held <= isize::MAX as usize - BUFFER_RESERVE {
            buffer_reserve(&mut self.buf, BUFFER_RESERVE);
        }
    }

    /// Cuts the next whole frame off the front and returns its packet bytes;
    /// `None` and nothing consumed where the frame is not complete yet.
    pub fn next_frame(&mut self) -> (r: Result<Option<Vec<u8>>, FrameError>)
        ensures
            match frame_step(old(self)@) {
                FrameStep::Wait => r matches Ok(None) && final(self)@ == old(self)@,
                FrameStep::Frame { header, len } => r matches Ok(Some(p))
                    && p@ == old(self)@.subrange(header as int, (header + len) as int)
                    && final(self)@ == old(self)@.skip((header + len) as int),
                FrameStep::Malformed => r matches Err(FrameError::BadLength) && final(self)@ == old(self)@,
            },
    {
        let held = buffer_bytes(&self.buf);
        let len = held.len();
        let w = if len < PACKET_LENGTH_FIELD_MAX_SIZE { len } else { PACKET_LENGTH_FIELD_MAX_SIZE };
        let window = &held[0..w];
        assert(window@ =~= header_window(self@));
        match parse_varint(window) {
            Ok((v, n)) => {
                proof {
                    lemma_decode_groups_len(window@, 0);
                }
                if v < 0 {
                    return Err(FrameError::BadLength);
                }
                if len - n < v as usize {
                    return Ok(None);
                }
                let end = n + v as usize;
                let payload = copy_range(held, n, end);
                buffer_advance(&mut self.buf, end);
                Ok(Some(payload))
            },
            Err(VarIntError::Incomplete) => {
                if len >= PACKET_LENGTH_FIELD_MAX_SIZE {
                    Err(FrameError::BadLength)
                } else {
                    Ok(None)
                }
            },
            Err(VarIntError::Overflow) => Err(FrameError::BadLength),
        }
    }
}

/// A whole frame has a header of at least one byte and lies within the buffer.
pub proof fn lemma_frame_bounds(buf: Seq<u8>)
    ensures
        frame_step(buf) matches FrameStep::Frame { header, len } ==> 1 <= header && header + len <= buf.len(),
{
    lemma_decode_groups_len(header_window(buf), 0);
}

/// A frame that arrives in pieces is complete only once its last byte has
/// arrived: every strict prefix of a valid frame makes the decoder wait,
/// the whole frame yields exactly its packet, and nothing remains after it.
pub proof fn lemma_fragmented_delivery(payload: Seq<u8>)
    requires
        payload.len() <= PACKET_MAX_SIZE,
    ensures
        forall|k: int|
            0 <= k < frame_of(payload).len() ==> #[trigger] frame_step(frame_of(payload).take(k)) is Wait,
        frame_step(frame_of(payload)) == (FrameStep::Frame {
            header: varint_bytes(payload.len() as i32).len(),
            len: payload.len(),
        }),
        frame_of(payload).subrange(
            varint_bytes(payload.len() as i32).len() as int,
            frame_of(payload).len() as int,
        ) == payload,
        frame_of(payload).skip(frame_of(payload).len() as int).len() == 0,
        frame_step(Seq::<u8>::empty()) is Wait,
{
    let f = frame_of(payload);
    let u = payload.len();
    let g = groups_of(u);
    let h = g.len();
    assert(pow128(3) == 2097152) by {
        reveal_with_fuel(pow128, 4);
    }
    lemma_groups_len(u, 3);
    assert(((u as i32) as u32) as nat == u);
    assert(varint_bytes(u as i32) == g);
    assert(f == g + payload);
    assert forall|k: int| 0 <= k < f.len() implies #[trigger] frame_step(f.take(k)) is Wait by {
        let b = f.take(k);
        if k < h {
            assert(b =~= g.take(k));
            assert(header_window(b) == b);
            lemma_decode_prefix(u, k as nat, 0);
        } else {
            let w = header_window(b);
            let rest = w.skip(h as int);
            assert(w =~= g + rest);
            lemma_decode_groups_of(u, rest, 0);
        }
    }
    let w = header_window(f);
    assert(w =~= g + w.skip(h as int));
    lemma_decode_groups_of(u, w.skip(h as int), 0);
    assert(f.subrange(h as int, f.len() as int) =~= payload);
    assert(header_window(Seq::<u8>::empty()) =~= Seq::<u8>::empty());
}

} // verus!
