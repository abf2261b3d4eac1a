//! The request and response envelopes exchanged over a connection.

use vstd::prelude::*;

verus! {

/// Abstract content of a request envelope.
pub enum RequestView {
    Echo(Seq<char>),
    Add(i32, i32),
}

/// Abstract content of a response envelope.
pub enum ReplyView {
    Echo(Seq<char>),
    Sum(i32),
}

#[derive(Clone, Debug)]
pub struct EchoMessage {
    pub content: String,
}

#[derive(Clone, Copy, Debug, PartialEq, Eq)]
pub struct AddRequest {
    pub a: i32,
    pub b: i32,
}

#[derive(Clone, Copy, Debug, PartialEq, Eq)]
pub struct AddResponse {
    pub result: i32,
}

/// The populated variant of a request envelope.
#[derive(Clone, Debug)]
pub enum ClientPayload {
    EchoMessage(EchoMessage),
    AddRequest(AddRequest),
}

/// The populated variant of a response envelope.
#[derive(Clone, Debug)]
pub enum ServerPayload {
    EchoMessage(EchoMessage),
    AddResponse(AddResponse),
}

/// A request envelope; `None` is an envelope with no populated variant.
#[derive(Clone, Debug)]
pub struct ClientMessage {
    pub message: Option<ClientPayload>,
}

/// A response envelope; `None` is an envelope with no populated variant.
#[derive(Clone, Debug)]
pub struct ServerMessage {
    pub message: Option<ServerPayload>,
}

impl View for ClientPayload {
    type V = RequestView;

    open spec fn view(&self) -> RequestView {
        match self {
            ClientPayload::EchoMessage(e) => RequestView::Echo(e.content@),
            ClientPayload::AddRequest(r) => RequestView::Add(r.a, r.b),
        }
    }
}

impl View for ServerPayload {
    type V = ReplyView;

    open spec fn view(&self) -> ReplyView {
        match self {
            ServerPayload::EchoMessage(e) => ReplyView::Echo(e.content@),
            ServerPayload::AddResponse(r) => ReplyView::Sum(r.result),
        }
    }
}

impl View for ClientMessage {
    type V = Option<RequestView>;

    open spec fn view(&self) -> Option<RequestView> {
        match self.message {
            Some(p) => Some(p@),
            None => None,
        }
    }
}

impl View for ServerMessage {
    type V = Option<ReplyView>;

    open spec fn view(&self) -> Option<ReplyView> {
        match self.message {
            Some(p) => Some(p@),
            None => None,
        }
    }
}

/// `a + b` reduced into the range of `i32` (two's-complement wraparound).
pub open spec fn wrapped_sum(a: i32, b: i32) -> i32 {
    if a + b > i32::MAX {
        (a + b - 0x1_0000_0000) as i32
    } else if a + b < i32::MIN {
        (a + b + 0x1_0000_0000) as i32
    } else {
        (a + b) as i32
    }
}

/// The response that a request calls for.
pub open spec fn reply_to(req: RequestView) -> ReplyView {
    match req {
        RequestView::Echo(s) => ReplyView::Echo(s),
        RequestView::Add(a, b) => ReplyView::Sum(wrapped_sum(a, b)),
    }
}

/// Builds the response to one request: an echo returns its content, an
/// addition returns the wrapped 32-bit sum of its operands.
pub fn respond(req: ClientPayload) -> (r: ServerPayload)
    ensures
        r@ == reply_to(req@),
{
    match req {
        ClientPayload::EchoMessage(e) => ServerPayload::EchoMessage(e),
        ClientPayload::AddRequest(add) => {
            let result = add.a.wrapping_add(add.b);
            ServerPayload::AddResponse(AddResponse { result })
        },
    }
}

} // verus!
