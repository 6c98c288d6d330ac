//! The framed wire protocol.
//!
//! A message travels as a frame: an 8-byte little-endian length header
//! followed by exactly that many payload bytes. The payload of a request
//! frame is an envelope: one tag byte naming the request variant, then the
//! request's own encoded body. A response frame's payload carries the
//! response body alone; the peer knows its shape from the request it sent,
//! because exchanges on one connection alternate strictly (there is no
//! wire-level correlation identifier, by design).

use vstd::prelude::*;

pub mod client;
pub mod codec;
pub mod message;
pub mod server;

use vstd::bytes::{
    lemma_auto_spec_u64_to_from_le_bytes, spec_u64_from_le_bytes, spec_u64_to_le_bytes,
    u64_from_le_bytes, u64_to_le_bytes,
};
use vstd::slice::{slice_subrange, slice_to_vec};

use crate::error::DecodeError;

verus! {

/// Width of the frame header in bytes.
pub const HEADER_SIZE: usize = 8;

/// The header bytes announcing a payload of `n` bytes.
pub open spec fn spec_header(n: u64) -> Seq<u8> {
    spec_u64_to_le_bytes(n)
}

/// The whole frame carrying `payload`.
pub open spec fn spec_frame(payload: Seq<u8>) -> Seq<u8> {
    spec_header(payload.len() as u64) + payload
}

/// Constructor and reader for the fixed-width length header.
pub struct Header;

impl Header {
    /// The header announcing a payload of `size` bytes.
    pub fn create(size: usize) -> (h: Vec<u8>)
        ensures
            h@ == spec_header(size as u64),
            h@.len() == HEADER_SIZE,
    {
        proof {
            lemma_auto_spec_u64_to_from_le_bytes();
        }
        u64_to_le_bytes(size as u64)
    }

    /// The payload length announced by a full header.
    pub fn size(bytes: &[u8]) -> (n: u64)
        requires
            bytes@.len() == HEADER_SIZE,
        ensures
            n == spec_u64_from_le_bytes(bytes@),
    {
        u64_from_le_bytes(bytes)
    }
}

/// Encode one frame: header, then payload.
pub fn encode_frame(payload: &Vec<u8>) -> (f: Vec<u8>)
    ensures
        f@ == spec_frame(payload@),
{
    let mut out = Header::create(payload.len());
    out.extend_from_slice(payload.as_slice());
    proof {
        assert(out@ =~= spec_frame(payload@));
    }
    out
}

/// Spec-level frame reader: the payload starting at `pos` and the position
/// just past it, if the buffer holds a full header and a full payload there.
pub open spec fn spec_read_frame(b: Seq<u8>, pos: int) -> Option<(Seq<u8>, int)> {
    if 0 <= pos && pos + HEADER_SIZE <= b.len() {
        let n = spec_u64_from_le_bytes(b.subrange(pos, pos + HEADER_SIZE)) as int;
        if pos + HEADER_SIZE + n <= b.len() {
            Some((b.subrange(pos + HEADER_SIZE, pos + HEADER_SIZE + n), pos + HEADER_SIZE + n))
        } else {
            None
        }
    } else {
        None
    }
}

/// Outcome of trying to read one frame from the bytes received so far.
pub enum FrameRead {
    /// A full frame: its payload, and the position just past the frame.
    Frame(Vec<u8>, usize),
    /// The stream ended exactly at a frame boundary: a clean peer close.
    PeerClosed,
    /// The stream ended inside a header or inside an announced payload.
    Incomplete,
}

/// Read one frame from `buf` at `pos`. End-of-input exactly at `pos` is the
/// clean peer close; end-of-input after a partial header or partial payload
/// is distinct, so a caller can tell the two apart.
pub fn read_frame(buf: &[u8], pos: usize) -> (r: FrameRead)
    requires
        pos <= buf@.len(),
    ensures
        match r {
            FrameRead::Frame(payload, p) => spec_read_frame(buf@, pos as int) == Some(
                (payload@, p as int),
            ),
            FrameRead::PeerClosed => pos == buf@.len(),
            FrameRead::Incomplete => pos < buf@.len() && spec_read_frame(
                buf@,
                pos as int,
            ) is None,
        },
{
    if pos == buf.len() {
        return FrameRead::PeerClosed;
    }
    if buf.len() - pos < HEADER_SIZE {
        return FrameRead::Incomplete;
    }
    let n = Header::size(slice_subrange(buf, pos, pos + HEADER_SIZE));
    if n <= (buf.len() - pos - HEADER_SIZE) as u64 {
        let start = pos + HEADER_SIZE;
        let end = start + n as usize;
        let payload = slice_to_vec(slice_subrange(buf, start, end));
        FrameRead::Frame(payload, end)
    } else {
        FrameRead::Incomplete
    }
}

/// Length-prefixed framing is self-synchronizing: when two frames stand
/// back-to-back in a stream, reading one frame yields exactly the first
/// payload and lands exactly on the second frame, whose read then yields
/// exactly the second payload. A reader never leaves a frame boundary.
pub proof fn lemma_frames_self_synchronizing(a: Seq<u8>, b: Seq<u8>)
    requires
        a.len() <= u64::MAX,
        b.len() <= u64::MAX,
    ensures
        ({
            let s = spec_frame(a) + spec_frame(b);
            &&& spec_read_frame(s, 0) == Some((a, HEADER_SIZE + a.len() as int))
            &&& spec_read_frame(s, HEADER_SIZE + a.len() as int) == Some((b, s.len() as int))
        }),
{
    lemma_auto_spec_u64_to_from_le_bytes();
    let s = spec_frame(a) + spec_frame(b);
    let ha = HEADER_SIZE as int;
    assert(s.subrange(0, ha) =~= spec_header(a.len() as u64));
    assert(s.subrange(ha, ha + a.len() as int) =~= a);
    let p = ha + a.len() as int;
    assert(s.subrange(p, p + ha) =~= spec_header(b.len() as u64));
    assert(s.subrange(p + ha, p + ha + b.len() as int) =~= b);
}

// ---------------------------------------------------------------------------
// The envelope: tag byte plus request body
// ---------------------------------------------------------------------------

/// Discriminant naming one request variant of the catalog.
#[derive(Debug, Clone, Copy, PartialEq, Eq, Structural)]
pub enum PiteriaTag {
    Hello,
    Overview,
    ViewDeployment,
}

impl PiteriaTag {
    /// The byte carrying this tag on the wire.
    pub open spec fn spec_byte(self) -> u8 {
        match self {
            PiteriaTag::Hello => 0,
            PiteriaTag::Overview => 1,
            PiteriaTag::ViewDeployment => 2,
        }
    }

    /// The tag a byte names, if any.
    pub open spec fn spec_of_byte(b: u8) -> Option<PiteriaTag> {
        if b == 0 {
            Some(PiteriaTag::Hello)
        } else if b == 1 {
            Some(PiteriaTag::Overview)
        } else if b == 2 {
            Some(PiteriaTag::ViewDeployment)
        } else {
            None
        }
    }

    pub fn byte(&self) -> (b: u8)
        ensures
            b == self.spec_byte(),
            Self::spec_of_byte(b) == Some(*self),
    {
        match self {
            PiteriaTag::Hello => 0,
            PiteriaTag::Overview => 1,
            PiteriaTag::ViewDeployment => 2,
        }
    }

    pub fn of_byte(b: u8) -> (r: Option<PiteriaTag>)
        ensures
            r == Self::spec_of_byte(b),
    {
        if b == 0 {
            Some(PiteriaTag::Hello)
        } else if b == 1 {
            Some(PiteriaTag::Overview)
        } else if b == 2 {
            Some(PiteriaTag::ViewDeployment)
        } else {
            None
        }
    }
}

/// A decoded envelope: which request variant, and its encoded body.
pub struct PiteriaRequest {
    pub tag: PiteriaTag,
    pub message: Vec<u8>,
}

/// The envelope bytes for a tag and a body.
pub open spec fn spec_enc_request(tag: PiteriaTag, body: Seq<u8>) -> Seq<u8> {
    seq![tag.spec_byte()] + body
}

impl PiteriaRequest {
    /// Encode the envelope: tag byte, then body.
    pub fn encode(&self) -> (r: Vec<u8>)
        ensures
            r@ == spec_enc_request(self.tag, self.message@),
    {
        let mut out: Vec<u8> = Vec::new();
        out.push(self.tag.byte());
        out.extend_from_slice(self.message.as_slice());
        proof {
            assert(out@ =~= spec_enc_request(self.tag, self.message@));
        }
        out
    }
}

/// Decode a frame payload into an envelope. Fails with `Truncated` exactly on
/// an empty payload and with `BadTag` exactly when the first byte names no
/// request variant; everything after the tag byte is the body.
pub fn decode_request(payload: &[u8]) -> (r: Result<PiteriaRequest, DecodeError>)
    ensures
        match r {
            Ok(req) => payload@.len() >= 1 && PiteriaTag::spec_of_byte(payload@[0]) == Some(
                req.tag,
            ) && req.message@ == payload@.subrange(1, payload@.len() as int),
            Err(e) => match e {
                DecodeError::Truncated => payload@.len() == 0,
                DecodeError::BadTag(b) => payload@.len() >= 1 && b == payload@[0]
                    && PiteriaTag::spec_of_byte(b) is None,
                _ => false,
            },
        },
{
    if payload.len() == 0 {
        return Err(DecodeError::Truncated);
    }
    let b = *vstd::slice::slice_index_get(payload, 0);
    match PiteriaTag::of_byte(b) {
        Some(tag) => {
            let message = slice_to_vec(slice_subrange(payload, 1, payload.len()));
            Ok(PiteriaRequest { tag, message })
        },
        None => Err(DecodeError::BadTag(b)),
    }
}

/// Decoding inverts encoding for every envelope: the round trip of the wire
/// protocol's outer layer.
pub proof fn lemma_request_round_trip(tag: PiteriaTag, body: Seq<u8>)
    ensures
        ({
            let e = spec_enc_request(tag, body);
            &&& e.len() >= 1
            &&& PiteriaTag::spec_of_byte(e[0]) == Some(tag)
            &&& e.subrange(1, e.len() as int) == body
        }),
{
    let e = spec_enc_request(tag, body);
    assert(e.subrange(1, e.len() as int) =~= body);
}

} // verus!
