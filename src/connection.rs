//! One receive-dispatch-reply step of a connection, and the accept loop's
//! choice of what to do with each accept attempt.

use vstd::prelude::*;
use vstd::utf8::encode_utf8;
use crate::codec::{
    decode_request, encode_reply, lemma_reply_round_trip, lemma_request_round_trip, reply_bytes,
    reply_of, request_bytes, request_of,
};
use crate::message::{reply_to, respond, wrapped_sum, ReplyView, RequestView, ServerMessage};
use crate::wire::lemma_varint_bytes_len;

verus! {

/// What one read from a connection leads to.
pub enum Outcome {
    /// These bytes are to be written back, then the connection reads again.
    Reply(Vec<u8>),
    /// The peer closed its side (a read of zero bytes): the connection ends.
    Disconnected,
    /// The bytes do not decode; the connection reads again.
    Malformed,
    /// The envelope decoded but holds no variant; the connection reads again.
    NoContent,
}

pub enum OutcomeView {
    Reply(Seq<u8>),
    Disconnected,
    Malformed,
    NoContent,
}

impl View for Outcome {
    type V = OutcomeView;

    open spec fn view(&self) -> OutcomeView {
        match self {
            Outcome::Reply(b) => OutcomeView::Reply(b@),
            Outcome::Disconnected => OutcomeView::Disconnected,
            Outcome::Malformed => OutcomeView::Malformed,
            Outcome::NoContent => OutcomeView::NoContent,
        }
    }
}

/// What the bytes of one read lead to.
pub open spec fn outcome_of(b: Seq<u8>) -> OutcomeView {
    if b.len() == 0 {
        OutcomeView::Disconnected
    } else {
        match request_of(b) {
            None => OutcomeView::Malformed,
            Some(None) => OutcomeView::NoContent,
            Some(Some(q)) => OutcomeView::Reply(reply_bytes(Some(reply_to(q)))),
        }
    }
}

/// Whether an outcome ends the connection.
pub open spec fn ends_connection(o: OutcomeView) -> bool {
    o is Disconnected
}

impl Outcome {
    /// Whether this outcome ends the connection.
    pub fn is_final(&self) -> (r: bool)
        ensures
            r == ends_connection(self@),
    {
        match self {
            Outcome::Disconnected => true,
            _ => false,
        }
    }
}

/// Handles the bytes of one read: an empty read is a disconnect; otherwise
/// the bytes are decoded as a request, and a request with a variant is
/// answered with the encoded response.
pub fn handle_bytes(b: &[u8]) -> (r: Outcome)
    ensures
        r@ == outcome_of(b@),
{
    if b.len() == 0 {
        return Outcome::Disconnected;
    }
    match decode_request(b) {
        None => Outcome::Malformed,
        Some(m) => match m.message {
            None => Outcome::NoContent,
            Some(req) => {
                let reply = ServerMessage { message: Some(respond(req)) };
                Outcome::Reply(encode_reply(&reply))
            },
        },
    }
}

/// What an attempt to accept a connection produced.
pub enum AcceptEvent {
    /// A peer connected.
    Accepted,
    /// No peer was waiting.
    WouldBlock,
    /// Accepting failed for another reason.
    Failed,
}

/// What the accept loop does next.
#[derive(PartialEq, Eq, Debug)]
pub enum AcceptAction {
    /// Hand the new socket to a connection of its own, then accept again.
    Spawn,
    /// Sleep briefly, then accept again.
    Pause,
    /// Report the failure and accept again.
    Retry,
    /// The server was stopped: leave the loop.
    Exit,
}

/// The accept loop's decision: once the running flag is clear it leaves;
/// otherwise an accepted socket gets a connection, an empty queue a pause,
/// and any other failure is reported without ending the loop.
pub fn accept_action(running: bool, event: AcceptEvent) -> (r: AcceptAction)
    ensures
        !running <==> r is Exit,
        running ==> match event {
            AcceptEvent::Accepted => r is Spawn,
            AcceptEvent::WouldBlock => r is Pause,
            AcceptEvent::Failed => r is Retry,
        },
{
    if !running {
        return AcceptAction::Exit;
    }
    match event {
        AcceptEvent::Accepted => AcceptAction::Spawn,
        AcceptEvent::WouldBlock => AcceptAction::Pause,
        AcceptEvent::Failed => AcceptAction::Retry,
    }
}

/// An echo request, however long its text, is answered with an echo response
/// carrying exactly the same text.
pub proof fn echo_returns_content(s: Seq<char>)
    requires
        encode_utf8(s).len() <= isize::MAX,
    ensures
        outcome_of(request_bytes(Some(RequestView::Echo(s)))) == OutcomeView::Reply(
            reply_bytes(Some(ReplyView::Echo(s))),
        ),
        reply_of(reply_bytes(Some(ReplyView::Echo(s)))) == Some(Some(ReplyView::Echo(s))),
{
    let m = Some(RequestView::Echo(s));
    lemma_request_round_trip(m);
    lemma_reply_round_trip(Some(ReplyView::Echo(s)));
    lemma_varint_bytes_len(10);
}

/// An addition request for any two 32-bit operands is answered with their
/// sum wrapped into 32 bits.
pub proof fn add_returns_wrapped_sum(a: i32, b: i32)
    ensures
        outcome_of(request_bytes(Some(RequestView::Add(a, b)))) == OutcomeView::Reply(
            reply_bytes(Some(ReplyView::Sum(wrapped_sum(a, b)))),
        ),
        reply_of(reply_bytes(Some(ReplyView::Sum(wrapped_sum(a, b))))) == Some(
            Some(ReplyView::Sum(wrapped_sum(a, b))),
        ),
        wrapped_sum(a, b) as int == if a + b > i32::MAX {
            a + b - 0x1_0000_0000
        } else if a + b < i32::MIN {
            a + b + 0x1_0000_0000
        } else {
            a + b
        },
{
    let m = Some(RequestView::Add(a, b));
    lemma_request_round_trip(m);
    lemma_reply_round_trip(Some(ReplyView::Sum(wrapped_sum(a, b))));
    lemma_varint_bytes_len(18);
}

/// Malformed bytes do not end a connection, and an echo request read after
/// them is still answered with its own text.
pub proof fn malformed_input_keeps_connection(bad: Seq<u8>, s: Seq<char>)
    requires
        bad.len() > 0,
        request_of(bad) is None,
        encode_utf8(s).len() <= isize::MAX,
    ensures
        outcome_of(bad) == OutcomeView::Malformed,
        !ends_connection(outcome_of(bad)),
        outcome_of(request_bytes(Some(RequestView::Echo(s)))) == OutcomeView::Reply(
            reply_bytes(Some(ReplyView::Echo(s))),
        ),
{
    echo_returns_content(s);
}

} // verus!
