//! Wire codec for the framing protocol.
//!
//! A request is a fixed header — a 4-byte document-kind discriminator and a
//! 4-byte unsigned payload length, both little-endian — followed by exactly
//! that many payload bytes. A response is a 4-byte unsigned length followed
//! by that many bytes of derived-artifact content.

use vstd::prelude::*;

use crate::CacheError;

verus! {

/// The unsigned integer encoded by the first four bytes of `b`,
/// little-endian.
pub open spec fn le_u32(b: Seq<u8>) -> int
    recommends
        b.len() >= 4,
{
    b[0] + 256 * b[1] + 65536 * b[2] + 16777216 * b[3]
}

/// Decodes the little-endian u32 held in the first four bytes of `array`.
pub fn as_u32_le(array: &[u8]) -> (r: u32)
    requires
        array@.len() >= 4,
    ensures
        r == le_u32(array@),
{
    (array[0] as u32) + (array[1] as u32) * 256 + (array[2] as u32) * 65536 + (array[3] as u32)
        * 16777216
}

/// Encodes `x` as four little-endian bytes.
pub fn as_u32_array_u8(x: usize) -> (r: [u8; 4])
    requires
        x <= u32::MAX,
    ensures
        r@.len() == 4,
        le_u32(r@) == x,
{
    let v = x as u32;
    let b0 = (v & 0xff) as u8;
    let b1 = ((v >> 8) & 0xff) as u8;
    let b2 = ((v >> 16) & 0xff) as u8;
    let b3 = ((v >> 24) & 0xff) as u8;
    proof {
        assert((v & 0xff) < 256 && ((v >> 8) & 0xff) < 256 && ((v >> 16) & 0xff) < 256 && ((v
            >> 24) & 0xff) < 256) by (bit_vector);
        assert((v & 0xff) + 256 * ((v >> 8) & 0xff) + 65536 * ((v >> 16) & 0xff) + 16777216 * ((v
            >> 24) & 0xff) == v) by (bit_vector);
    }
    [b0, b1, b2, b3]
}

/// The fixed request header: a document-kind discriminator and the payload
/// length that follows it, both little-endian u32 on the wire.
#[derive(Clone, Copy, Debug, PartialEq, Eq, Structural)]
pub struct RequestHeader {
    pub kind_wire: u32,
    pub length: u32,
}

/// Decodes the 8-byte request header: bytes 0..4 are the document-kind
/// discriminator, bytes 4..8 the payload length, both little-endian.
pub fn decode_header(header: &[u8]) -> (h: RequestHeader)
    requires
        header@.len() >= 8,
    ensures
        h.kind_wire == le_u32(header@.subrange(0, 4)),
        h.length == le_u32(header@.subrange(4, 8)),
{
    let kind_wire = (header[0] as u32) + (header[1] as u32) * 256 + (header[2] as u32) * 65536 + (
    header[3] as u32) * 16777216;
    let length = (header[4] as u32) + (header[5] as u32) * 256 + (header[6] as u32) * 65536 + (
    header[7] as u32) * 16777216;
    proof {
        assert(header@.subrange(0, 4)[0] == header@[0]);
        assert(header@.subrange(0, 4)[1] == header@[1]);
        assert(header@.subrange(0, 4)[2] == header@[2]);
        assert(header@.subrange(0, 4)[3] == header@[3]);
        assert(header@.subrange(4, 8)[0] == header@[4]);
        assert(header@.subrange(4, 8)[1] == header@[5]);
        assert(header@.subrange(4, 8)[2] == header@[6]);
        assert(header@.subrange(4, 8)[3] == header@[7]);
    }
    RequestHeader { kind_wire, length }
}

/// Encodes a response frame: the artifact's length as four little-endian
/// bytes, followed by the artifact bytes themselves.
pub fn encode_response(artifact: &Vec<u8>) -> (r: Vec<u8>)
    requires
        artifact@.len() <= u32::MAX,
    ensures
        r@.len() == 4 + artifact@.len(),
        le_u32(r@.subrange(0, 4)) == artifact@.len(),
        r@.skip(4) == artifact@,
{
    let len_bytes = as_u32_array_u8(artifact.len());
    let mut out: Vec<u8> = Vec::new();
    out.push(len_bytes[0]);
    out.push(len_bytes[1]);
    out.push(len_bytes[2]);
    out.push(len_bytes[3]);
    let mut i: usize = 0;
    while i < artifact.len()
        invariant
            i <= artifact@.len(),
            out@.len() == 4 + i,
            out@.subrange(0, 4) =~= len_bytes@,
            out@.skip(4) =~= artifact@.take(i as int),
        decreases artifact@.len() - i,
    {
        out.push(artifact[i]);
        i = i + 1;
    }
    proof {
        assert(out@.subrange(0, 4) =~= len_bytes@);
        assert(out@.skip(4) =~= artifact@);
    }
    out
}

/// Encodes a response frame if the artifact fits the 4-byte length field;
/// an artifact too large for the protocol yields no frame at all rather than
/// a truncated length.
pub fn try_encode_response(artifact: &Vec<u8>) -> (r: Option<Vec<u8>>)
    ensures
        artifact@.len() <= u32::MAX ==> (r matches Some(f) && f@.len() == 4 + artifact@.len()
            && le_u32(f@.subrange(0, 4)) == artifact@.len() && f@.skip(4) == artifact@),
        artifact@.len() > u32::MAX ==> r is None,
{
    if artifact.len() <= u32::MAX as usize {
        Some(encode_response(artifact))
    } else {
        None
    }
}

/// Accumulates the payload of one frame out of arbitrarily small chunks.
///
/// Decoding is complete only when the declared byte count has been
/// accumulated exactly; a chunk that would push the total past the declared
/// length is a protocol violation and is rejected rather than truncated.
pub struct FrameAccumulator {
    declared: u32,
    buf: Vec<u8>,
}

impl FrameAccumulator {
    /// The payload length the frame header declared.
    pub closed spec fn declared_len(self) -> int {
        self.declared as int
    }

    /// The payload bytes accumulated so far.
    pub closed spec fn received(self) -> Seq<u8> {
        self.buf@
    }

    pub open spec fn wf(self) -> bool {
        self.received().len() <= self.declared_len()
    }

    /// Starts an empty accumulator for a frame of `declared` payload bytes.
    pub fn new(declared: u32) -> (a: Self)
        ensures
            a.wf(),
            a.declared_len() == declared,
            a.received() == Seq::<u8>::empty(),
    {
        FrameAccumulator { declared, buf: Vec::new() }
    }

    /// Appends one chunk as read from the stream. A chunk that would exceed
    /// the declared length is rejected as a malformed frame and changes
    /// nothing.
    pub fn push_chunk(&mut self, chunk: &[u8]) -> (r: Result<(), CacheError>)
        requires
            old(self).wf(),
        ensures
            final(self).wf(),
            final(self).declared_len() == old(self).declared_len(),
            old(self).received().len() + chunk@.len() <= old(self).declared_len() ==> r
                == Ok::<(), CacheError>(()) && final(self).received() == old(self).received()
                + chunk@,
            old(self).received().len() + chunk@.len() > old(self).declared_len() ==> r
                == Err::<(), CacheError>(CacheError::MalformedFrame) && final(self).received()
                == old(self).received(),
    {
        let room = (self.declared as usize) - self.buf.len();
        if chunk.len() > room {
            return Err(CacheError::MalformedFrame);
        }
        let mut i: usize = 0;
        while i < chunk.len()
            invariant
                i <= chunk@.len(),
                self.declared == old(self).declared,
                self.buf@ =~= old(self).buf@ + chunk@.take(i as int),
                old(self).buf@.len() + chunk@.len() <= self.declared,
            decreases chunk@.len() - i,
        {
            self.buf.push(chunk[i]);
            i = i + 1;
        }
        proof {
            assert(self.buf@ =~= old(self).buf@ + chunk@);
        }
        Ok(())
    }

    /// True exactly when the declared byte count has been accumulated.
    pub fn is_complete(&self) -> (r: bool)
        ensures
            r == (self.received().len() == self.declared_len()),
    {
        self.buf.len() == self.declared as usize
    }

    /// Hands the completed payload out.
    pub fn into_payload(self) -> (p: Vec<u8>)
        requires
            self.received().len() == self.declared_len(),
        ensures
            p@ == self.received(),
    {
        self.buf
    }
}

} // verus!
