use websocket_core::connection::{process_frame, reply_for, step};
use websocket_core::connection::{ConnectionError, ConnectionState, FrameOutcome, Step};
use websocket_core::frame::{decode, encode, encode_masked, DecodeError, Opcode, WebSocketFrame};
use websocket_core::handshake::HandshakeError;

const KEY: [u8; 4] = [0x37, 0xfa, 0x21, 0x3d];

const REQUEST: &[u8] = b"GET / HTTP/1.1\r\n\
Host: 127.0.0.1:8000\r\n\
Upgrade: websocket\r\n\
Connection: Upgrade\r\n\
Sec-WebSocket-Key: x3JJHMbDL1EzLkh9GBhXDw==\r\n\
Sec-WebSocket-Version: 13\r\n\
\r\n";

const RESPONSE: &[u8] = b"HTTP/1.1 101 Switching Protocols\r\n\
Connection: Upgrade\r\n\
Upgrade: websocket\r\n\
Sec-WebSocket-Accept: HSmrc0sMlYUkAGmm5OPpG2HaGWk=\r\n\
\r\n";

fn message(opcode: Opcode, payload: &[u8]) -> WebSocketFrame {
    WebSocketFrame { fin: true, opcode, masked: true, payload: payload.to_vec() }
}

#[test]
fn handshake_then_hello_is_echoed() {
    let state = ConnectionState::AwaitingHandshake;
    let taken = step(state, REQUEST).unwrap();
    assert_eq!(taken.next, ConnectionState::Streaming);
    assert_eq!(taken.message, None);
    let response = taken.send.unwrap();
    assert_eq!(response, RESPONSE);
    let text = String::from_utf8(response).unwrap();
    assert!(text.contains("Sec-WebSocket-Accept: HSmrc0sMlYUkAGmm5OPpG2HaGWk=\r\n"));

    let frame = [0x81, 0x85, 0x37, 0xfa, 0x21, 0x3d, 0x5f, 0x9f, 0x4d, 0x51, 0x58];
    assert_eq!(frame.to_vec(), encode_masked(Opcode::Text, b"hello", &KEY));
    let taken = step(taken.next, &frame).unwrap();
    assert_eq!(taken.next, ConnectionState::Streaming);
    assert_eq!(taken.message.unwrap().payload, b"hello");
    let reply = taken.send.unwrap();
    assert_eq!(reply, encode(Opcode::Text, b"hello"));
    assert_eq!(reply, [0x81, 0x05, b'h', b'e', b'l', b'l', b'o']);
}

#[test]
fn the_echo_decodes_to_hello_on_the_other_side() {
    let outcome = process_frame(&encode_masked(Opcode::Text, b"hello", &KEY)).unwrap();
    let reply = outcome.reply.unwrap();
    // A client reads an unmasked frame: opcode, length, payload.
    assert_eq!(reply[0], 0x81);
    assert_eq!(reply[1], 5);
    assert_eq!(&reply[2..], b"hello");
    // Sent on by a client, masked, it decodes to the same message.
    let onward = encode_masked(Opcode::Text, &reply[2..], &[9, 8, 7, 6]);
    assert_eq!(decode(&onward).unwrap().payload, b"hello");
}

#[test]
fn step_awaiting_handshake_rejects_a_frame() {
    let frame = encode_masked(Opcode::Text, b"hello", &KEY);
    assert_eq!(
        step(ConnectionState::AwaitingHandshake, &frame),
        Err(ConnectionError::Handshake(HandshakeError::MalformedHeader))
    );
}

#[test]
fn step_awaiting_handshake_reports_the_handshake_error() {
    let bytes = b"GET / HTTP/1.1\r\nUpgrade: websocket\r\nConnection: Upgrade\r\nSec-WebSocket-Version: 13\r\n\r\n";
    assert_eq!(
        step(ConnectionState::AwaitingHandshake, bytes),
        Err(ConnectionError::Handshake(HandshakeError::MissingKey))
    );
    assert_eq!(
        step(ConnectionState::AwaitingHandshake, b"GET / HTTP/1.1\r\n\r\n"),
        Err(ConnectionError::Handshake(HandshakeError::InvalidUpgrade))
    );
}

#[test]
fn step_streaming_takes_a_request_for_a_frame() {
    // "GE" reads as a header: opcode 7, length indicator 0x45 = 69.
    assert_eq!(
        step(ConnectionState::Streaming, REQUEST),
        Err(ConnectionError::Frame(DecodeError::UnsupportedOpcode))
    );
    assert_eq!(
        step(ConnectionState::Streaming, b"GET / HTTP/1.1\r\n\r\n"),
        Err(ConnectionError::Frame(DecodeError::TruncatedFrame))
    );
}

#[test]
fn step_streaming_hands_out_the_message() {
    let frame = encode_masked(Opcode::Text, b"good morning", &KEY);
    assert_eq!(
        step(ConnectionState::Streaming, &frame),
        Ok(Step {
            next: ConnectionState::Streaming,
            message: Some(message(Opcode::Text, b"good morning")),
            send: None,
        })
    );
}

#[test]
fn step_streaming_reports_the_frame_error() {
    assert_eq!(
        step(ConnectionState::Streaming, &[0x81, 0x85, 1, 2, 3, 4]),
        Err(ConnectionError::Frame(DecodeError::TruncatedFrame))
    );
    assert_eq!(
        step(ConnectionState::Streaming, &encode_masked(Opcode::Text, &[0xff], &KEY)),
        Err(ConnectionError::Frame(DecodeError::InvalidUtf8))
    );
    assert_eq!(
        step(ConnectionState::Streaming, &encode_masked(Opcode::Ping, b"", &KEY)),
        Err(ConnectionError::Frame(DecodeError::UnsupportedOpcode))
    );
}

#[test]
fn process_frame_echoes_hello() {
    assert_eq!(
        process_frame(&encode_masked(Opcode::Text, b"hello", &KEY)),
        Ok(FrameOutcome {
            message: message(Opcode::Text, b"hello"),
            reply: Some(vec![0x81, 0x05, b'h', b'e', b'l', b'l', b'o']),
        })
    );
}

#[test]
fn process_frame_echoes_a_binary_hello_as_binary() {
    assert_eq!(
        process_frame(&encode_masked(Opcode::Binary, b"hello", &KEY)),
        Ok(FrameOutcome {
            message: message(Opcode::Binary, b"hello"),
            reply: Some(vec![0x82, 0x05, b'h', b'e', b'l', b'l', b'o']),
        })
    );
}

#[test]
fn process_frame_answers_nothing_else() {
    let others: [&[u8]; 6] = [b"", b"hell", b"hello ", b"Hello", b"HELLO", b"hello\0"];
    for payload in others {
        assert_eq!(
            process_frame(&encode_masked(Opcode::Text, payload, &KEY)),
            Ok(FrameOutcome { message: message(Opcode::Text, payload), reply: None })
        );
    }
}

#[test]
fn process_frame_reports_the_mask_flag_as_received() {
    let outcome = process_frame(&[0x81, 0x00, 0, 0, 0, 0]).unwrap();
    assert!(!outcome.message.masked);
    assert_eq!(outcome.reply, None);
}

#[test]
fn process_frame_rejects_what_is_not_text_or_binary() {
    let unhandled =
        [Opcode::Continuation, Opcode::Close, Opcode::Ping, Opcode::Pong, Opcode::Reserved];
    for opcode in unhandled {
        assert_eq!(
            process_frame(&encode_masked(opcode, b"hello", &KEY)),
            Err(DecodeError::UnsupportedOpcode)
        );
    }
    for code in [3u8, 4, 5, 6, 7, 11, 12, 13, 14, 15] {
        assert_eq!(
            process_frame(&[0x80 | code, 0x80, 0, 0, 0, 0]),
            Err(DecodeError::UnsupportedOpcode)
        );
    }
}

#[test]
fn process_frame_reports_truncation_whatever_the_opcode() {
    for code in 0..16u8 {
        assert_eq!(
            process_frame(&[0x80 | code, 0x85, 1, 2, 3, 4, 0xff]),
            Err(DecodeError::TruncatedFrame)
        );
    }
    assert_eq!(process_frame(&[]), Err(DecodeError::TruncatedFrame));
}

#[test]
fn process_frame_rejects_text_that_is_not_utf8() {
    assert_eq!(
        process_frame(&encode_masked(Opcode::Text, &[b'h', 0xff], &KEY)),
        Err(DecodeError::InvalidUtf8)
    );
    assert_eq!(
        process_frame(&encode_masked(Opcode::Binary, &[b'h', 0xff], &KEY)),
        Ok(FrameOutcome { message: message(Opcode::Binary, &[b'h', 0xff]), reply: None })
    );
}

#[test]
fn reply_for_looks_at_the_payload_only() {
    assert_eq!(
        reply_for(&message(Opcode::Text, b"hello")),
        Some(vec![0x81, 0x05, b'h', b'e', b'l', b'l', b'o'])
    );
    assert_eq!(reply_for(&message(Opcode::Text, b"hello!")), None);
    let unmasked = WebSocketFrame {
        fin: false,
        opcode: Opcode::Pong,
        masked: false,
        payload: b"hello".to_vec(),
    };
    assert_eq!(reply_for(&unmasked), Some(vec![0x8a, 0x05, b'h', b'e', b'l', b'l', b'o']));
}
