//! The request and response messages of the protocol, and the conditions
//! that end one connection.

use vstd::prelude::*;

verus! {

/// One decoded client request, carried by a single frame.
#[derive(Debug, PartialEq)]
pub enum Request {
    /// Echo the payload back unchanged.
    Echo { content: Vec<u8> },
    /// Add two 32-bit integers.
    Add { a: i32, b: i32 },
}

/// Mathematical model of a [`Request`].
pub enum ReqView {
    Echo { content: Seq<u8> },
    Add { a: i32, b: i32 },
}

impl View for Request {
    type V = ReqView;

    open spec fn view(&self) -> ReqView {
        match self {
            Request::Echo { content } => ReqView::Echo { content: content@ },
            Request::Add { a, b } => ReqView::Add { a: *a, b: *b },
        }
    }
}

/// One response, produced for exactly one well-formed request.
#[derive(Debug, PartialEq)]
pub enum Response {
    /// The payload of an echo request, unchanged.
    Echo { content: Vec<u8> },
    /// The sum of an add request, in wrapping 32-bit arithmetic.
    Sum { result: i32 },
}

/// Mathematical model of a [`Response`].
pub enum RespView {
    Echo { content: Seq<u8> },
    Sum { result: i32 },
}

impl View for Response {
    type V = RespView;

    open spec fn view(&self) -> RespView {
        match self {
            Response::Echo { content } => RespView::Echo { content: content@ },
            Response::Sum { result } => RespView::Sum { result: *result },
        }
    }
}

/// A condition that ends one connection.  Every variant is confined to the
/// connection that raised it; none stops the server itself.
#[derive(Debug, Clone, Copy, PartialEq, Eq, Structural)]
pub enum ConnError {
    /// The peer closed the connection cleanly (a read of zero bytes).
    PeerClosed,
    /// The frame did not decode as any known message.
    ProtocolError,
    /// The frame decoded, but carried no recognized request variant.
    UnsupportedMessage,
}

} // verus!
