use echo_server::codec::{decode_reply, encode_request};
use echo_server::connection::{accept_action, handle_bytes, AcceptAction, AcceptEvent, Outcome};
use echo_server::message::{AddRequest, ClientMessage, ClientPayload, EchoMessage, ServerPayload};

fn echo_bytes(text: &str) -> Vec<u8> {
    encode_request(&ClientMessage {
        message: Some(ClientPayload::EchoMessage(EchoMessage { content: text.to_string() })),
    })
}

fn add_bytes(a: i32, b: i32) -> Vec<u8> {
    encode_request(&ClientMessage { message: Some(ClientPayload::AddRequest(AddRequest { a, b })) })
}

fn reply_payload(o: Outcome) -> ServerPayload {
    match o {
        Outcome::Reply(bytes) => decode_reply(&bytes).expect("decodes").message.expect("variant"),
        _ => panic!("no reply"),
    }
}

fn echoed(o: Outcome) -> String {
    match reply_payload(o) {
        ServerPayload::EchoMessage(e) => e.content,
        _ => panic!("not an echo"),
    }
}

fn summed(o: Outcome) -> i32 {
    match reply_payload(o) {
        ServerPayload::AddResponse(r) => r.result,
        _ => panic!("not a sum"),
    }
}

#[test]
fn echo_is_answered_with_same_text() {
    for text in ["", "hello", "ünïcödé ✓"] {
        assert_eq!(echoed(handle_bytes(&echo_bytes(text))), text);
    }
}

#[test]
fn echo_reply_bytes() {
    match handle_bytes(&echo_bytes("A")) {
        Outcome::Reply(bytes) => assert_eq!(bytes, vec![0x0a, 0x03, 0x0a, 0x01, 0x41]),
        _ => panic!("no reply"),
    }
}

#[test]
fn add_is_answered_with_sum() {
    assert_eq!(summed(handle_bytes(&add_bytes(2, 3))), 5);
    assert_eq!(summed(handle_bytes(&add_bytes(-10, 4))), -6);
}

#[test]
fn add_wraps_around() {
    assert_eq!(summed(handle_bytes(&add_bytes(2147483647, 1))), -2147483648);
    assert_eq!(summed(handle_bytes(&add_bytes(i32::MIN, -1))), i32::MAX);
}

#[test]
fn empty_read_is_disconnect() {
    let o = handle_bytes(&[]);
    assert!(matches!(o, Outcome::Disconnected));
    assert!(o.is_final());
}

#[test]
fn malformed_bytes_keep_connection() {
    let o = handle_bytes(&[0xff, 0xff]);
    assert!(matches!(o, Outcome::Malformed));
    assert!(!o.is_final());
    assert_eq!(echoed(handle_bytes(&echo_bytes("still here"))), "still here");
}

#[test]
fn envelope_without_variant_is_no_content() {
    // only an unknown field: decodes, but no variant is set
    let o = handle_bytes(&[0x18, 0x01]);
    assert!(matches!(o, Outcome::NoContent));
    assert!(!o.is_final());
}

#[test]
fn separate_connections_get_their_own_replies() {
    let first = handle_bytes(&echo_bytes("A"));
    let second = handle_bytes(&echo_bytes("B"));
    assert_eq!(echoed(first), "A");
    assert_eq!(echoed(second), "B");
}

#[test]
fn accept_loop_decisions() {
    assert_eq!(accept_action(true, AcceptEvent::Accepted), AcceptAction::Spawn);
    assert_eq!(accept_action(true, AcceptEvent::WouldBlock), AcceptAction::Pause);
    assert_eq!(accept_action(true, AcceptEvent::Failed), AcceptAction::Retry);
    assert_eq!(accept_action(false, AcceptEvent::Accepted), AcceptAction::Exit);
    assert_eq!(accept_action(false, AcceptEvent::WouldBlock), AcceptAction::Exit);
}
