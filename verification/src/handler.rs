//! One protocol cycle: the frame read from a connection is decoded,
//! dispatched, and answered, or the condition that must end the connection
//! is reported.

use vstd::prelude::*;
use vstd::wrapping::i32_specs;

use crate::codec::{
    dec_request, dec_response, enc_request, enc_response, decode_request, encode_response,
    lemma_request_roundtrip, lemma_response_roundtrip, req_wf, resp_wf,
};
use crate::messages::{ConnError, ReqView, Request, RespView, Response};

verus! {

/// The response owed to one request: an echo keeps its payload unchanged,
/// an add yields the wrapping 32-bit sum of its summands.
pub open spec fn response_view_for(r: ReqView) -> RespView {
    match r {
        ReqView::Echo { content } => RespView::Echo { content },
        ReqView::Add { a, b } => RespView::Sum { result: i32_specs::wrapping_add(a, b) },
    }
}

/// Builds the response to one decoded request.
pub fn respond(r: Request) -> (resp: Response)
    ensures
        resp@ == response_view_for(r@),
{
    match r {
        Request::Echo { content } => Response::Echo { content },
        Request::Add { a, b } => Response::Sum { result: a.wrapping_add(b) },
    }
}

/// The outcome of one cycle on the bytes one read returned: either the one
/// response frame owed, or the condition that ends the connection.  An empty
/// read is the peer closing; a frame that does not parse is a protocol
/// error; a parsed frame without a recognized variant is unsupported.
pub open spec fn frame_outcome(data: Seq<u8>) -> Result<Seq<u8>, ConnError> {
    if data.len() == 0 {
        Err(ConnError::PeerClosed)
    } else {
        match dec_request(data) {
            None => Err(ConnError::ProtocolError),
            Some(None) => Err(ConnError::UnsupportedMessage),
            Some(Some(req)) => Ok(enc_response(response_view_for(req))),
        }
    }
}

/// Runs the compute part of one cycle: decode, dispatch, encode.  Exactly
/// one response is produced, or the connection-ending condition is returned
/// and no bytes are owed to the peer.
pub fn handle_frame(data: &[u8]) -> (r: Result<Vec<u8>, ConnError>)
    ensures
        match frame_outcome(data@) {
            Ok(bytes) => r matches Ok(v) && v@ == bytes,
            Err(e) => r == Err::<Vec<u8>, ConnError>(e),
        },
{
    if data.len() == 0 {
        Err(ConnError::PeerClosed)
    } else {
        match decode_request(data) {
            None => Err(ConnError::ProtocolError),
            Some(None) => Err(ConnError::UnsupportedMessage),
            Some(Some(req)) => {
                let resp = respond(req);
                Ok(encode_response(&resp))
            },
        }
    }
}

/// Law: a frame carrying an echo request is answered by exactly the frame
/// that carries the same content back, unchanged — for every content up to
/// the wire limit, the empty one included.
pub proof fn lemma_echo_service(content: Seq<u8>)
    requires
        req_wf(ReqView::Echo { content }),
    ensures
        frame_outcome(enc_request(ReqView::Echo { content })) == Ok::<Seq<u8>, ConnError>(
            enc_response(RespView::Echo { content }),
        ),
        dec_response(enc_response(RespView::Echo { content })) == Some(
            Some(RespView::Echo { content }),
        ),
{
    lemma_request_roundtrip(ReqView::Echo { content });
    lemma_response_roundtrip(RespView::Echo { content });
}

/// Law: a frame carrying an add request is answered by exactly the frame
/// that carries the wrapping 32-bit sum of its summands — for every pair,
/// negative values and the width's boundaries included.
pub proof fn lemma_sum_service(a: i32, b: i32)
    ensures
        frame_outcome(enc_request(ReqView::Add { a, b })) == Ok::<Seq<u8>, ConnError>(
            enc_response(RespView::Sum { result: i32_specs::wrapping_add(a, b) }),
        ),
        dec_response(enc_response(RespView::Sum { result: i32_specs::wrapping_add(a, b) }))
            == Some(Some(RespView::Sum { result: i32_specs::wrapping_add(a, b) })),
{
    lemma_request_roundtrip(ReqView::Add { a, b });
    lemma_response_roundtrip(RespView::Sum { result: i32_specs::wrapping_add(a, b) });
}

/// Law: a connection that sends zero bytes gets no response; the cycle
/// reports the peer closing, a condition of that connection alone.
pub proof fn lemma_empty_read_closes()
    ensures
        frame_outcome(Seq::empty()) == Err::<Seq<u8>, ConnError>(ConnError::PeerClosed),
{
}

/// Law: a nonempty frame that does not decode gets no response; the cycle
/// reports a protocol error, and only that connection is dropped.
pub proof fn lemma_malformed_frame_drops(data: Seq<u8>)
    requires
        data.len() > 0,
        dec_request(data) is None,
    ensures
        frame_outcome(data) == Err::<Seq<u8>, ConnError>(ConnError::ProtocolError),
{
}

/// Law: a well-formed frame that carries no recognized variant gets no
/// response; the cycle reports it as unsupported.
pub proof fn lemma_unknown_variant_drops(data: Seq<u8>)
    requires
        data.len() > 0,
        dec_request(data) == Some(Option::<ReqView>::None),
    ensures
        frame_outcome(data) == Err::<Seq<u8>, ConnError>(ConnError::UnsupportedMessage),
{
}

} // verus!
