//! Behavioural tests of the WebSocket core, driving it with hand-built
//! client frames.

use puck::ws::frame::Frame;
use puck::ws::frame::OpCode;
use puck::ws::message::DecodeMessageError;
use puck::ws::message::Message;
use puck::ws::websocket::NextMessageError;
use puck::ws::websocket::WebSocket;

/// Builds one masked client-to-server frame.
fn client_frame(fin: bool, opcode: u8, payload: &[u8]) -> Vec<u8> {
    let key = [7u8, 42, 0, 255];
    let mut out = Vec::new();
    let b0 = if fin { 0x80 | opcode } else { opcode };
    out.push(b0);
    let len = payload.len();
    if len <= 125 {
        out.push(0x80 | len as u8);
    } else if len < 65536 {
        out.push(0x80 | 126);
        out.extend_from_slice(&(len as u16).to_be_bytes());
    } else {
        out.push(0x80 | 127);
        out.extend_from_slice(&(len as u64).to_be_bytes());
    }
    out.extend_from_slice(&key);
    for (i, b) in payload.iter().enumerate() {
        out.push(b ^ key[i % 4]);
    }
    out
}

#[test]
fn unfragmented_text_frame_yields_text_message() {
    let input = client_frame(true, 1, "hello".as_bytes());
    let mut ws = WebSocket::new();
    let (res, reply) = ws.next(&input);
    assert_eq!(res, Ok(Message::Text("hello".to_string())));
    assert!(reply.is_empty());
}

#[test]
fn unfragmented_text_frame_decodes_multibyte_utf8() {
    let input = client_frame(true, 1, "héllo ✓".as_bytes());
    let mut ws = WebSocket::new();
    let (res, _) = ws.next(&input);
    assert_eq!(res, Ok(Message::Text("héllo ✓".to_string())));
}

#[test]
fn unfragmented_binary_frame_yields_binary_message() {
    let input = client_frame(true, 2, &[0, 1, 2, 250]);
    let mut ws = WebSocket::new();
    let (res, reply) = ws.next(&input);
    assert_eq!(res, Ok(Message::Binary(vec![0, 1, 2, 250])));
    assert!(reply.is_empty());
}

#[test]
fn extended_length_frame_decodes() {
    let payload: Vec<u8> = (0..300).map(|i| (i % 251) as u8).collect();
    let input = client_frame(true, 2, &payload);
    let mut ws = WebSocket::new();
    let (res, _) = ws.next(&input);
    assert_eq!(res, Ok(Message::Binary(payload)));
}

#[test]
fn eight_byte_length_frame_decodes() {
    let payload: Vec<u8> = (0..70000).map(|i| (i % 251) as u8).collect();
    let input = client_frame(true, 2, &payload);
    let mut ws = WebSocket::new();
    let (res, _) = ws.next(&input);
    assert_eq!(res, Ok(Message::Binary(payload)));
}

#[test]
fn fragmented_message_concatenates_payloads() {
    let mut input = client_frame(false, 2, &[1, 2]);
    input.extend(client_frame(false, 0, &[3]));
    input.extend(client_frame(true, 0, &[4, 5]));
    let mut ws = WebSocket::new();
    let (res, _) = ws.next(&input);
    assert_eq!(res, Ok(Message::Binary(vec![1, 2, 3, 4, 5])));
}

#[test]
fn fragmented_message_with_single_final_continue() {
    let mut input = client_frame(false, 1, "ab".as_bytes());
    input.extend(client_frame(true, 0, "cd".as_bytes()));
    let mut ws = WebSocket::new();
    let (res, _) = ws.next(&input);
    assert_eq!(res, Ok(Message::Text("abcd".to_string())));
}

#[test]
fn ping_with_empty_payload_yields_none_and_pong_reply() {
    let input = client_frame(true, 9, &[]);
    let mut ws = WebSocket::new();
    let (res, reply) = ws.next(&input);
    assert_eq!(res, Ok(Message::Ping(None)));
    // An unmasked pong with empty payload.
    assert_eq!(reply, vec![0x8a, 0x00]);
}

#[test]
fn ping_with_payload_yields_some_and_echoing_pong() {
    let input = client_frame(true, 9, &[10, 20, 30]);
    let mut ws = WebSocket::new();
    let (res, reply) = ws.next(&input);
    assert_eq!(res, Ok(Message::Ping(Some(vec![10, 20, 30]))));
    assert_eq!(reply, vec![0x8a, 0x03, 10, 20, 30]);
}

#[test]
fn pong_frame_yields_pong_message_without_reply() {
    let input = client_frame(true, 10, &[9]);
    let mut ws = WebSocket::new();
    let (res, reply) = ws.next(&input);
    assert_eq!(res, Ok(Message::Pong(Some(vec![9]))));
    assert!(reply.is_empty());
}

#[test]
fn invalid_utf8_text_is_client_error_and_connection_stays_open() {
    let mut input = client_frame(true, 1, &[0xff, 0xfe]);
    input.extend(client_frame(true, 2, &[1]));
    let mut ws = WebSocket::new();
    let (res, reply) = ws.next(&input);
    assert_eq!(res, Err(NextMessageError::ClientError));
    assert!(reply.is_empty());
    // Still open: the following frame decodes normally.
    let (res2, _) = ws.next(&input);
    assert_eq!(res2, Ok(Message::Binary(vec![1])));
}

#[test]
fn bare_continue_frame_is_client_error() {
    let input = client_frame(true, 0, &[1, 2]);
    let mut ws = WebSocket::new();
    let (res, _) = ws.next(&input);
    assert_eq!(res, Err(NextMessageError::ClientError));
}

#[test]
fn new_initial_frame_during_fragmentation_is_client_error() {
    let mut input = client_frame(false, 2, &[1]);
    input.extend(client_frame(true, 1, "x".as_bytes()));
    let mut ws = WebSocket::new();
    let (res, _) = ws.next(&input);
    assert_eq!(res, Err(NextMessageError::ClientError));
}

#[test]
fn reserved_bits_are_client_error() {
    let mut input = client_frame(true, 2, &[1]);
    input[0] |= 0x40;
    let mut ws = WebSocket::new();
    let (res, _) = ws.next(&input);
    assert_eq!(res, Err(NextMessageError::ClientError));
}

#[test]
fn unknown_opcode_is_client_error() {
    let input = client_frame(true, 3, &[1]);
    let mut ws = WebSocket::new();
    let (res, _) = ws.next(&input);
    assert_eq!(res, Err(NextMessageError::ClientError));
}

#[test]
fn unmasked_client_frame_is_client_error() {
    // fin Binary, mask flag clear, one payload byte.
    let input = vec![0x82, 0x01, 0x05];
    let mut ws = WebSocket::new();
    let (res, _) = ws.next(&input);
    assert_eq!(res, Err(NextMessageError::ClientError));
}

#[test]
fn truncated_frame_is_client_error() {
    let mut input = client_frame(true, 2, &[1, 2, 3]);
    input.truncate(input.len() - 1);
    let mut ws = WebSocket::new();
    let (res, _) = ws.next(&input);
    assert_eq!(res, Err(NextMessageError::ClientError));
}

#[test]
fn close_frame_closes_connection_and_replies_once() {
    let input = client_frame(true, 8, &[]);
    let mut ws = WebSocket::new();
    let (res, reply) = ws.next(&input);
    assert_eq!(res, Err(NextMessageError::ConnectionClosed));
    // Exactly one unmasked Terminate frame with empty payload.
    assert_eq!(reply, vec![0x88, 0x00]);
    // Closed is absorbing: no further I/O at all.
    let (res2, reply2) = ws.next(&input);
    assert_eq!(res2, Err(NextMessageError::ConnectionClosed));
    assert!(reply2.is_empty());
}

#[test]
fn close_frame_during_fragmentation_closes_connection() {
    let mut input = client_frame(false, 2, &[1]);
    input.extend(client_frame(true, 8, &[]));
    let mut ws = WebSocket::new();
    let (res, reply) = ws.next(&input);
    assert_eq!(res, Err(NextMessageError::ConnectionClosed));
    assert_eq!(reply, vec![0x88, 0x00]);
}

#[test]
fn disposing_open_connection_emits_one_close_frame() {
    let ws = WebSocket::new();
    let out = ws.dispose();
    assert_eq!(out, vec![0x88, 0x00]);
}

#[test]
fn disposing_closed_connection_emits_nothing() {
    let input = client_frame(true, 8, &[]);
    let mut ws = WebSocket::new();
    let _ = ws.next(&input);
    let out = ws.dispose();
    assert!(out.is_empty());
}

/// A reference client-side decoder for unmasked server frames.
fn client_decode(bytes: &[u8]) -> (bool, u8, Vec<u8>) {
    let b0 = bytes[0];
    assert_eq!(bytes[1] & 0x80, 0, "server frames must not be masked");
    let len7 = (bytes[1] & 0x7f) as usize;
    let (len, mut at) = if len7 <= 125 {
        (len7, 2)
    } else if len7 == 126 {
        (u16::from_be_bytes([bytes[2], bytes[3]]) as usize, 4)
    } else {
        (u64::from_be_bytes(bytes[2..10].try_into().unwrap()) as usize, 10)
    };
    let payload = bytes[at..at + len].to_vec();
    at += len;
    assert_eq!(at, bytes.len(), "no trailing bytes");
    (b0 & 0x80 != 0, b0 & 0x0f, payload)
}

#[test]
fn serialize_then_client_decode_round_trips() {
    for payload_len in [0usize, 1, 125, 126, 300, 65535, 65536, 70000] {
        let payload: Vec<u8> = (0..payload_len).map(|i| (i % 253) as u8).collect();
        let frame = Frame {
            fin: true,
            rsv1: false,
            rsv2: false,
            rsv3: false,
            op_code: OpCode::Binary,
            decoded: payload.clone(),
        };
        let bytes = frame.serialize();
        let (fin, opcode, decoded) = client_decode(&bytes);
        assert!(fin);
        assert_eq!(opcode, 2);
        assert_eq!(decoded, payload);
    }
}

#[test]
fn serialize_small_text_frame_exact_bytes() {
    let frame = Frame {
        fin: true,
        rsv1: false,
        rsv2: false,
        rsv3: false,
        op_code: OpCode::Text,
        decoded: b"ok".to_vec(),
    };
    assert_eq!(frame.serialize(), vec![0x81, 0x02, b'o', b'k']);
}

#[test]
fn message_next_advances_past_consumed_frames() {
    let first = client_frame(true, 2, &[1]);
    let second = client_frame(true, 2, &[2]);
    let mut input = first.clone();
    input.extend(second.clone());
    let mut pos = 0usize;
    let m1 = Message::next(&input, &mut pos);
    assert_eq!(m1, Ok(Message::Binary(vec![1])));
    assert_eq!(pos, first.len());
    let m2 = Message::next(&input, &mut pos);
    assert_eq!(m2, Ok(Message::Binary(vec![2])));
    assert_eq!(pos, input.len());
    let m3 = Message::next(&input, &mut pos);
    assert_eq!(m3, Err(DecodeMessageError::ClientProtocolViolationError));
}

#[test]
fn message_next_reports_close_frame() {
    let input = client_frame(true, 8, &[]);
    let mut pos = 0usize;
    let m = Message::next(&input, &mut pos);
    assert_eq!(m, Err(DecodeMessageError::ClientSentCloseFrame));
    assert_eq!(pos, input.len());
}
