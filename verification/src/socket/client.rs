//! The client session's verified logic.
//!
//! A client facade lets many concurrent callers share one connection. The
//! session serializes them: it never writes request n+1 before it has fully
//! read the response to request n. The protocol carries no correlation
//! identifier, so this strict alternation is exactly what makes each reply
//! reach the caller whose request produced it. The process around the
//! library runs the channel loop; the functions here decide, for each
//! event, what is sent, what the waiting caller is handed, and when the
//! session stops.

use vstd::prelude::*;

use crate::error::{PiteriaError, PiteriaErrorView, PiteriaIOError, PiteriaIOErrorView};
use crate::socket::message::{
    decode_response, lemma_message_round_trip, spec_dec_message, spec_dec_response,
    spec_response_matches, PiteriaMessage, PiteriaResponse, PiteriaResponseView,
};
use crate::socket::{
    decode_request, lemma_request_round_trip, spec_enc_request, spec_frame, spec_read_frame,
    PiteriaRequest, PiteriaTag,
};
use crate::{spec_respond_rel, PiteriaService};

verus! {

/// The frame a request message travels in: the framed envelope.
pub open spec fn spec_request_frame(m: PiteriaMessage) -> Seq<u8> {
    spec_frame(spec_enc_request(m.spec_tag(), m.spec_body()))
}

/// Build the bytes the session writes for one caller's request.
pub fn encode_request_frame(m: &PiteriaMessage) -> (r: Vec<u8>)
    ensures
        r@ == spec_request_frame(*m),
{
    let req = m.to_request();
    let payload = req.encode();
    crate::socket::encode_frame(&payload)
}

/// Decoding inverts encoding for every request, through the whole wire
/// stack: reading the request's frame yields exactly its envelope, the
/// envelope's first byte names the request's own tag, and the body decodes
/// back to the request itself.
pub proof fn lemma_request_wire_round_trip(m: PiteriaMessage)
    ensures
        ({
            let f = spec_request_frame(m);
            let env = spec_enc_request(m.spec_tag(), m.spec_body());
            &&& spec_read_frame(f, 0) == Some((env, f.len() as int))
            &&& env.len() >= 1
            &&& PiteriaTag::spec_of_byte(env[0]) == Some(m.spec_tag())
            &&& spec_dec_message(m.spec_tag(), env.subrange(1, env.len() as int)) == Ok::<
                PiteriaMessage,
                crate::error::DecodeError,
            >(m)
        }),
{
    let env = spec_enc_request(m.spec_tag(), m.spec_body());
    let f = spec_request_frame(m);
    vstd::bytes::lemma_auto_spec_u64_to_from_le_bytes();
    // the body is at most one encoded id, so the envelope's length fits
    assert(m.spec_body().len() <= 8);
    assert(f == spec_frame(env));
    assert(f.subrange(0, 8) =~= crate::socket::spec_header(env.len() as u64));
    assert(f.subrange(8, 8 + env.len() as int) =~= env);
    lemma_request_round_trip(m.spec_tag(), m.spec_body());
    lemma_message_round_trip(m);
}

/// What one wire exchange ended as, seen by the session after it wrote a
/// request and tried to read the response frame.
pub enum ClientReadOutcome {
    /// A full response frame's payload.
    Reply(Vec<u8>),
    /// End-of-stream at a frame boundary: the server is gone.
    PeerClosed(String),
    /// Some other transport failure.
    Failed(String),
}

/// What the waiting caller is handed for a given read outcome: the decoded
/// response or domain failure on a reply, a connection-lost failure when
/// the peer closed (the pending call resolves rather than hanging), and
/// the transport failure otherwise. The exchange's response shape is fixed
/// by the request's own tag: under strict alternation this reply can
/// belong to no other caller.
pub open spec fn spec_deliver(tag: PiteriaTag, outcome_bytes: Seq<u8>) -> Result<
    PiteriaResponseView,
    PiteriaErrorView,
> {
    match spec_dec_response(tag, outcome_bytes) {
        Ok(inner) => inner,
        Err(de) => Err(PiteriaErrorView::PiteriaIO(PiteriaIOErrorView::Decode(de))),
    }
}

/// Resolve one pending call from the session's read outcome. The second
/// component says whether the session stops: only a peer close ends it.
pub fn client_handle_reply(tag: PiteriaTag, outcome: ClientReadOutcome) -> (r: (
    Result<PiteriaResponse, PiteriaError>,
    bool,
))
    ensures
        match outcome {
            ClientReadOutcome::Reply(bytes) => !r.1 && (match r.0 {
                Ok(resp) => spec_deliver(tag, bytes@) == Ok::<
                    PiteriaResponseView,
                    PiteriaErrorView,
                >(resp@),
                Err(e) => spec_deliver(tag, bytes@) == Err::<
                    PiteriaResponseView,
                    PiteriaErrorView,
                >(e@),
            }),
            ClientReadOutcome::PeerClosed(msg) => r.1 && r.0 == Err::<
                PiteriaResponse,
                PiteriaError,
            >(PiteriaError::PiteriaIO(PiteriaIOError::SocketClosed(msg))),
            ClientReadOutcome::Failed(msg) => !r.1 && r.0 == Err::<PiteriaResponse, PiteriaError>(
                PiteriaError::PiteriaIO(PiteriaIOError::Io(msg)),
            ),
        },
{
    match outcome {
        ClientReadOutcome::Reply(bytes) => {
            match decode_response(tag, &bytes) {
                Ok(inner) => (inner, false),
                Err(de) => (
                    Err(PiteriaError::PiteriaIO(PiteriaIOError::Decode(de))),
                    false,
                ),
            }
        },
        ClientReadOutcome::PeerClosed(msg) => (
            Err(PiteriaError::PiteriaIO(PiteriaIOError::SocketClosed(msg))),
            true,
        ),
        ClientReadOutcome::Failed(msg) => (
            Err(PiteriaError::PiteriaIO(PiteriaIOError::Io(msg))),
            false,
        ),
    }
}

/// Strict one-at-a-time exchanges correlate every caller with its own
/// response. The callers are listed in the order the session serves them;
/// each entry pairs a caller's identity with its request. The result pairs
/// the same identities, in the same order, each with the outcome of
/// dispatching that caller's own request — never another caller's. Each
/// request crosses the wire as its envelope and is decoded back before
/// dispatch, as the server session does.
pub fn run_exchanges(svc: &PiteriaService, callers: &Vec<(u64, PiteriaMessage)>) -> (r: Vec<
    (u64, Result<PiteriaResponse, PiteriaError>),
>)
    ensures
        r@.len() == callers@.len(),
        forall|i: int|
            0 <= i < r@.len() ==> (#[trigger] r@[i]).0 == callers@[i].0 && (match r@[i].1 {
                Ok(resp) => spec_respond_rel(
                    svc@,
                    callers@[i].1.spec_tag(),
                    callers@[i].1.spec_body(),
                    Ok(resp@),
                ) && spec_response_matches(callers@[i].1.spec_tag(), resp@),
                Err(e) => spec_respond_rel(
                    svc@,
                    callers@[i].1.spec_tag(),
                    callers@[i].1.spec_body(),
                    Err(e@),
                ),
            }),
{
    let mut out: Vec<(u64, Result<PiteriaResponse, PiteriaError>)> = Vec::new();
    let mut i: usize = 0;
    while i < callers.len()
        invariant
            i <= callers@.len(),
            out@.len() == i,
            forall|k: int|
                0 <= k < i ==> (#[trigger] out@[k]).0 == callers@[k].0 && (match out@[k].1 {
                    Ok(resp) => spec_respond_rel(
                        svc@,
                        callers@[k].1.spec_tag(),
                        callers@[k].1.spec_body(),
                        Ok(resp@),
                    ) && spec_response_matches(callers@[k].1.spec_tag(), resp@),
                    Err(e) => spec_respond_rel(
                        svc@,
                        callers@[k].1.spec_tag(),
                        callers@[k].1.spec_body(),
                        Err(e@),
                    ),
                }),
        decreases callers@.len() - i,
    {
        let caller = callers[i].0;
        let msg = callers[i].1;
        // The caller's request crosses the wire as its envelope ...
        let req = msg.to_request();
        let payload = req.encode();
        // ... and the server session decodes it back before dispatching.
        let decoded = match decode_request(payload.as_slice()) {
            Ok(d) => d,
            Err(_) => {
                // the envelope of a well-formed message always decodes
                proof {
                    assert(spec_enc_request(msg.spec_tag(), msg.spec_body()).len() >= 1);
                    assert(false);
                }
                PiteriaRequest { tag: msg.tag(), message: msg.encode_body() }
            },
        };
        proof {
            assert(decoded.message@ =~= payload@.subrange(1, payload@.len() as int));
            assert(decoded.message@ =~= msg.spec_body());
        }
        let outcome = svc.respond(&decoded);
        out.push((caller, outcome));
        i += 1;
    }
    out
}

} // verus!
