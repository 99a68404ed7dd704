//! Wire framing: a message is a length prefix, two 32-bit identifier fields,
//! and an opaque body. Every frame starts with a 12-byte header: bytes 0..4
//! hold the total length (header included), bytes 4..8 the request
//! identifier, bytes 8..12 the response-to identifier, all little-endian.

use vstd::prelude::*;

use crate::ProxyError;

verus! {

/// The value of four bytes read as a little-endian 32-bit integer.
pub open spec fn le32(b0: u8, b1: u8, b2: u8, b3: u8) -> u32 {
    (b0 as u32) | ((b1 as u32) << 8) | ((b2 as u32) << 16) | ((b3 as u32) << 24)
}

/// The little-endian 32-bit integer held at offset `i` of a byte sequence.
pub open spec fn le32_at(b: Seq<u8>, i: int) -> u32 {
    le32(b[i], b[i + 1], b[i + 2], b[i + 3])
}

/// The four little-endian bytes of a 32-bit integer, low byte first.
pub open spec fn u32_le_bytes(x: u32) -> Seq<u8> {
    seq![
        (x & 0xff) as u8,
        ((x >> 8) & 0xff) as u8,
        ((x >> 16) & 0xff) as u8,
        ((x >> 24) & 0xff) as u8,
    ]
}

/// Reading the four bytes of an integer gives the integer back.
pub proof fn lemma_le32_of_bytes(x: u32)
    ensures
        le32(u32_le_bytes(x)[0], u32_le_bytes(x)[1], u32_le_bytes(x)[2], u32_le_bytes(x)[3]) == x,
{
    assert(((x & 0xff) as u8 as u32) | ((((x >> 8) & 0xff) as u8 as u32) << 8)
        | ((((x >> 16) & 0xff) as u8 as u32) << 16) | ((((x >> 24) & 0xff) as u8 as u32) << 24)
        == x) by (bit_vector);
}

/// Taking the bytes of the integer four bytes encode gives those bytes back.
pub proof fn lemma_bytes_of_le32(b0: u8, b1: u8, b2: u8, b3: u8)
    ensures
        u32_le_bytes(le32(b0, b1, b2, b3)) == seq![b0, b1, b2, b3],
{
    let x = le32(b0, b1, b2, b3);
    assert((((b0 as u32) | ((b1 as u32) << 8) | ((b2 as u32) << 16) | ((b3 as u32) << 24))
        & 0xff) as u8 == b0) by (bit_vector);
    assert(((((b0 as u32) | ((b1 as u32) << 8) | ((b2 as u32) << 16) | ((b3 as u32) << 24))
        >> 8) & 0xff) as u8 == b1) by (bit_vector);
    assert(((((b0 as u32) | ((b1 as u32) << 8) | ((b2 as u32) << 16) | ((b3 as u32) << 24))
        >> 16) & 0xff) as u8 == b2) by (bit_vector);
    assert(((((b0 as u32) | ((b1 as u32) << 8) | ((b2 as u32) << 16) | ((b3 as u32) << 24))
        >> 24) & 0xff) as u8 == b3) by (bit_vector);
    assert(u32_le_bytes(x) =~= seq![b0, b1, b2, b3]);
}

/// Reads four bytes as a little-endian 32-bit integer.
pub fn decode_le32(b0: u8, b1: u8, b2: u8, b3: u8) -> (r: u32)
    ensures
        r == le32(b0, b1, b2, b3),
{
    (b0 as u32) | ((b1 as u32) << 8) | ((b2 as u32) << 16) | ((b3 as u32) << 24)
}

/// Splits a 32-bit integer into its four little-endian bytes, low byte first.
pub fn encode_le32(x: u32) -> (r: (u8, u8, u8, u8))
    ensures
        seq![r.0, r.1, r.2, r.3] == u32_le_bytes(x),
        le32(r.0, r.1, r.2, r.3) == x,
{
    proof {
        lemma_le32_of_bytes(x);
    }
    ((x & 0xff) as u8, ((x >> 8) & 0xff) as u8, ((x >> 16) & 0xff) as u8, ((x >> 24) & 0xff) as u8)
}

/// A byte sequence is a valid frame when it is at least a header long and
/// its length prefix counts exactly its own bytes.
pub open spec fn valid_frame(b: Seq<u8>) -> bool {
    &&& b.len() >= 12
    &&& b.len() <= u32::MAX
    &&& le32_at(b, 0) == b.len()
}

/// The request identifier held in a frame's header.
pub open spec fn frame_request_id(b: Seq<u8>) -> u32 {
    le32_at(b, 4)
}

/// The response-to identifier held in a frame's header.
pub open spec fn frame_response_to(b: Seq<u8>) -> u32 {
    le32_at(b, 8)
}

/// The opaque body that follows a frame's header.
pub open spec fn frame_body(b: Seq<u8>) -> Seq<u8> {
    b.subrange(12, b.len() as int)
}

/// The frame that carries the given header fields and body: length prefix,
/// request identifier, response-to identifier, then the body.
pub open spec fn spec_frame(request_id: u32, response_to: u32, body: Seq<u8>) -> Seq<u8> {
    u32_le_bytes((body.len() + 12) as u32) + u32_le_bytes(request_id) + u32_le_bytes(response_to)
        + body
}

/// Framing round-trip, one direction: the frame built from any fields and
/// body is valid and parses back to exactly those fields and that body.
pub proof fn lemma_frame_fields(request_id: u32, response_to: u32, body: Seq<u8>)
    requires
        body.len() + 12 <= u32::MAX,
    ensures
        valid_frame(spec_frame(request_id, response_to, body)),
        frame_request_id(spec_frame(request_id, response_to, body)) == request_id,
        frame_response_to(spec_frame(request_id, response_to, body)) == response_to,
        frame_body(spec_frame(request_id, response_to, body)) == body,
{
    let total = (body.len() + 12) as u32;
    let f = spec_frame(request_id, response_to, body);
    lemma_le32_of_bytes(total);
    lemma_le32_of_bytes(request_id);
    lemma_le32_of_bytes(response_to);
    assert(f.len() == body.len() + 12);
    assert(le32_at(f, 0) == total);
    assert(le32_at(f, 4) == request_id);
    assert(le32_at(f, 8) == response_to);
    assert(frame_body(f) =~= body);
}

/// Framing round-trip, the other direction: any valid frame is exactly the
/// frame built from the fields and body parsed out of it, byte for byte.
pub proof fn lemma_frame_round_trip(b: Seq<u8>)
    requires
        valid_frame(b),
    ensures
        spec_frame(frame_request_id(b), frame_response_to(b), frame_body(b)) == b,
{
    lemma_bytes_of_le32(b[0], b[1], b[2], b[3]);
    lemma_bytes_of_le32(b[4], b[5], b[6], b[7]);
    lemma_bytes_of_le32(b[8], b[9], b[10], b[11]);
    assert(frame_body(b).len() == b.len() - 12);
    assert((frame_body(b).len() + 12) as u32 == le32_at(b, 0));
    assert(spec_frame(frame_request_id(b), frame_response_to(b), frame_body(b)) =~= b);
}

/// One framed message: a complete byte sequence whose length prefix counts
/// exactly its own bytes. Immutable but for the two identifier fields, which
/// the proxy rewrites in place, one per direction.
#[derive(Debug)]
pub struct WireMessage {
    bytes: Vec<u8>,
}

impl View for WireMessage {
    type V = Seq<u8>;

    closed spec fn view(&self) -> Seq<u8> {
        self.bytes@
    }
}

impl WireMessage {
    /// A message is well formed when its bytes are a valid frame.
    pub open spec fn wf(self) -> bool {
        valid_frame(self@)
    }

    /// The total length field of the header.
    pub open spec fn spec_total_len(self) -> u32 {
        le32_at(self@, 0)
    }

    /// The request identifier field of the header.
    pub open spec fn spec_request_id(self) -> u32 {
        frame_request_id(self@)
    }

    /// The response-to identifier field of the header.
    pub open spec fn spec_response_to(self) -> u32 {
        frame_response_to(self@)
    }

    /// The opaque body after the header.
    pub open spec fn spec_body(self) -> Seq<u8> {
        frame_body(self@)
    }

    /// Builds the frame that carries the given identifiers and body.
    pub fn encode(request_id: u32, response_to: u32, body: &Vec<u8>) -> (m: Self)
        requires
            body@.len() + 12 <= u32::MAX,
        ensures
            m.wf(),
            m@ == spec_frame(request_id, response_to, body@),
            m.spec_request_id() == request_id,
            m.spec_response_to() == response_to,
            m.spec_body() == body@,
            m@.len() == body@.len() + 12,
    {
        let total: u32 = (body.len() as u32) + 12;
        let (l0, l1, l2, l3) = encode_le32(total);
        let (r0, r1, r2, r3) = encode_le32(request_id);
        let (t0, t1, t2, t3) = encode_le32(response_to);
        let mut bytes: Vec<u8> = Vec::new();
        bytes.push(l0);
        bytes.push(l1);
        bytes.push(l2);
        bytes.push(l3);
        bytes.push(r0);
        bytes.push(r1);
        bytes.push(r2);
        bytes.push(r3);
        bytes.push(t0);
        bytes.push(t1);
        bytes.push(t2);
        bytes.push(t3);
        let mut i: usize = 0;
        while i < body.len()
            invariant
                i <= body@.len(),
                bytes@.len() == 12 + i,
                bytes@.subrange(0, 12) == u32_le_bytes(total) + u32_le_bytes(request_id)
                    + u32_le_bytes(response_to),
                forall|j: int| 0 <= j < i ==> bytes@[12 + j] == body@[j],
            decreases body@.len() - i,
        {
            bytes.push(body[i]);
            i = i + 1;
        }
        proof {
            lemma_frame_fields(request_id, response_to, body@);
            assert(bytes@ =~= spec_frame(request_id, response_to, body@));
        }
        WireMessage { bytes }
    }

    /// Accepts a complete byte sequence as a message exactly when it is a
    /// valid frame; anything else is a protocol violation.
    pub fn from_bytes(bytes: Vec<u8>) -> (r: Result<Self, ProxyError>)
        ensures
            match r {
                Ok(m) => valid_frame(bytes@) && m@ == bytes@,
                Err(e) => !valid_frame(bytes@) && e == ProxyError::ProtocolViolation,
            },
    {
        if bytes.len() < 12 {
            return Err(ProxyError::ProtocolViolation);
        }
        if bytes.len() > u32::MAX as usize {
            return Err(ProxyError::ProtocolViolation);
        }
        let decoded: u32 = decode_le32(bytes[0], bytes[1], bytes[2], bytes[3]);
        if decoded as usize != bytes.len() {
            return Err(ProxyError::ProtocolViolation);
        }
        Ok(WireMessage { bytes })
    }

    /// The total length field of the header.
    pub fn total_len(&self) -> (r: u32)
        requires
            self.wf(),
        ensures
            r == self.spec_total_len(),
            r == self@.len(),
    {
        decode_le32(self.bytes[0], self.bytes[1], self.bytes[2], self.bytes[3])
    }

    /// The request identifier field of the header.
    pub fn request_id(&self) -> (r: u32)
        requires
            self.wf(),
        ensures
            r == self.spec_request_id(),
    {
        decode_le32(self.bytes[4], self.bytes[5], self.bytes[6], self.bytes[7])
    }

    /// The response-to identifier field of the header.
    pub fn response_to(&self) -> (r: u32)
        requires
            self.wf(),
        ensures
            r == self.spec_response_to(),
    {
        decode_le32(self.bytes[8], self.bytes[9], self.bytes[10], self.bytes[11])
    }

    /// The number of bytes in the message.
    pub fn len(&self) -> (r: usize)
        ensures
            r == self@.len(),
    {
        self.bytes.len()
    }

    /// The message's bytes, borrowed, for writing to a connection.
    pub fn as_bytes(&self) -> (r: &Vec<u8>)
        ensures
            r@ == self@,
    {
        &self.bytes
    }

    /// The message's bytes, owned.
    pub fn into_bytes(self) -> (r: Vec<u8>)
        ensures
            r@ == self@,
    {
        self.bytes
    }

    /// Overwrites the request identifier field in place; the length, the
    /// response-to field and the body stay as they were.
    pub fn set_request_id(&mut self, id: u32)
        requires
            old(self).wf(),
        ensures
            final(self).wf(),
            final(self)@.len() == old(self)@.len(),
            final(self).spec_request_id() == id,
            final(self).spec_response_to() == old(self).spec_response_to(),
            final(self).spec_body() == old(self).spec_body(),
            final(self).spec_total_len() == old(self).spec_total_len(),
    {
        let (b0, b1, b2, b3) = encode_le32(id);
        self.bytes.set(4, b0);
        self.bytes.set(5, b1);
        self.bytes.set(6, b2);
        self.bytes.set(7, b3);
        proof {
            assert(final(self).spec_body() =~= old(self).spec_body());
        }
    }

    /// Overwrites the response-to identifier field in place; the length, the
    /// request identifier and the body stay as they were.
    pub fn set_response_to(&mut self, id: u32)
        requires
            old(self).wf(),
        ensures
            final(self).wf(),
            final(self)@.len() == old(self)@.len(),
            final(self).spec_response_to() == id,
            final(self).spec_request_id() == old(self).spec_request_id(),
            final(self).spec_body() == old(self).spec_body(),
            final(self).spec_total_len() == old(self).spec_total_len(),
    {
        let (b0, b1, b2, b3) = encode_le32(id);
        self.bytes.set(8, b0);
        self.bytes.set(9, b1);
        self.bytes.set(10, b2);
        self.bytes.set(11, b3);
        proof {
            assert(final(self).spec_body() =~= old(self).spec_body());
        }
    }
}

} // verus!
