use echo_server::codec::{decode_reply, decode_request, encode_reply, encode_request};
use echo_server::message::{
    AddRequest, AddResponse, ClientMessage, ClientPayload, EchoMessage, ServerMessage,
    ServerPayload,
};

fn echo_request(text: &str) -> ClientMessage {
    ClientMessage {
        message: Some(ClientPayload::EchoMessage(EchoMessage { content: text.to_string() })),
    }
}

fn add_request(a: i32, b: i32) -> ClientMessage {
    ClientMessage { message: Some(ClientPayload::AddRequest(AddRequest { a, b })) }
}

fn echo_text(m: &ClientMessage) -> Option<String> {
    match &m.message {
        Some(ClientPayload::EchoMessage(e)) => Some(e.content.clone()),
        _ => None,
    }
}

fn operands(m: &ClientMessage) -> Option<(i32, i32)> {
    match &m.message {
        Some(ClientPayload::AddRequest(r)) => Some((r.a, r.b)),
        _ => None,
    }
}

#[test]
fn echo_request_bytes() {
    assert_eq!(encode_request(&echo_request("A")), vec![0x0a, 0x03, 0x0a, 0x01, 0x41]);
}

#[test]
fn empty_echo_request_bytes() {
    assert_eq!(encode_request(&echo_request("")), vec![0x0a, 0x00]);
}

#[test]
fn empty_envelope_bytes() {
    assert_eq!(encode_request(&ClientMessage { message: None }), Vec::<u8>::new());
}

#[test]
fn add_request_bytes() {
    assert_eq!(encode_request(&add_request(1, 2)), vec![0x12, 0x04, 0x08, 0x01, 0x10, 0x02]);
}

#[test]
fn zero_operands_are_left_out() {
    assert_eq!(encode_request(&add_request(0, 0)), vec![0x12, 0x00]);
}

#[test]
fn negative_result_is_sign_extended() {
    let m = ServerMessage {
        message: Some(ServerPayload::AddResponse(AddResponse { result: i32::MIN })),
    };
    assert_eq!(
        encode_reply(&m),
        vec![0x12, 0x0b, 0x08, 0x80, 0x80, 0x80, 0x80, 0xf8, 0xff, 0xff, 0xff, 0xff, 0x01]
    );
}

#[test]
fn echo_request_round_trip() {
    for text in ["", "A", "hello world", "héllo ✓ 𝄞"] {
        let bytes = encode_request(&echo_request(text));
        let back = decode_request(&bytes).expect("decodes");
        assert_eq!(echo_text(&back), Some(text.to_string()));
    }
}

#[test]
fn add_request_round_trip() {
    for (a, b) in [(0, 0), (1, 2), (-1, 5), (i32::MAX, 1), (i32::MIN, i32::MIN)] {
        let bytes = encode_request(&add_request(a, b));
        let back = decode_request(&bytes).expect("decodes");
        assert_eq!(operands(&back), Some((a, b)));
    }
}

#[test]
fn reply_round_trip() {
    let m = ServerMessage {
        message: Some(ServerPayload::EchoMessage(EchoMessage { content: "B".to_string() })),
    };
    let back = decode_reply(&encode_reply(&m)).expect("decodes");
    match back.message {
        Some(ServerPayload::EchoMessage(e)) => assert_eq!(e.content, "B"),
        _ => panic!("wrong variant"),
    }
    let m = ServerMessage {
        message: Some(ServerPayload::AddResponse(AddResponse { result: -7 })),
    };
    let back = decode_reply(&encode_reply(&m)).expect("decodes");
    match back.message {
        Some(ServerPayload::AddResponse(r)) => assert_eq!(r.result, -7),
        _ => panic!("wrong variant"),
    }
}

#[test]
fn empty_input_is_empty_envelope() {
    let m = decode_request(&[]).expect("decodes");
    assert!(m.message.is_none());
}

#[test]
fn truncated_varint_is_refused() {
    assert!(decode_request(&[0xff]).is_none());
}

#[test]
fn overlong_length_is_refused() {
    assert!(decode_request(&[0x0a, 0x05, 0x0a, 0x01]).is_none());
}

#[test]
fn tag_zero_is_refused() {
    assert!(decode_request(&[0x02, 0x00]).is_none());
}

#[test]
fn wrong_wire_type_is_refused() {
    assert!(decode_request(&[0x08, 0x01]).is_none());
}

#[test]
fn invalid_utf8_is_refused() {
    assert!(decode_request(&[0x0a, 0x03, 0x0a, 0x01, 0xff]).is_none());
}

#[test]
fn eleven_byte_varint_is_refused() {
    let mut bytes = vec![0x08];
    bytes.extend([0x80u8; 10]);
    bytes.push(0x01);
    assert!(decode_request(&[vec![0x12, bytes.len() as u8], bytes].concat()).is_none());
}

#[test]
fn unknown_fields_are_skipped() {
    // field 3 varint, field 4 fixed64, field 5 bytes, field 6 fixed32, then an echo
    let mut bytes = vec![0x18, 0x96, 0x01];
    bytes.extend([0x21, 1, 2, 3, 4, 5, 6, 7, 8]);
    bytes.extend([0x2a, 0x02, 0xaa, 0xbb]);
    bytes.extend([0x35, 1, 2, 3, 4]);
    bytes.extend([0x0a, 0x03, 0x0a, 0x01, 0x41]);
    let m = decode_request(&bytes).expect("decodes");
    assert_eq!(echo_text(&m), Some("A".to_string()));
}

#[test]
fn repeated_sub_messages_merge() {
    // add request with a = 1, then another with b = 2: the second merges into the first
    let bytes = vec![0x12, 0x02, 0x08, 0x01, 0x12, 0x02, 0x10, 0x02];
    let m = decode_request(&bytes).expect("decodes");
    assert_eq!(operands(&m), Some((1, 2)));
}

#[test]
fn later_variant_replaces_earlier() {
    let bytes = vec![0x12, 0x02, 0x08, 0x01, 0x0a, 0x03, 0x0a, 0x01, 0x5a];
    let m = decode_request(&bytes).expect("decodes");
    assert_eq!(echo_text(&m), Some("Z".to_string()));
}

#[test]
fn large_operand_is_cut_to_32_bits() {
    // a = 2^32 + 5 on the wire reads as 5
    let bytes = vec![0x12, 0x06, 0x08, 0x85, 0x80, 0x80, 0x80, 0x10];
    let m = decode_request(&bytes).expect("decodes");
    assert_eq!(operands(&m), Some((5, 0)));
}
