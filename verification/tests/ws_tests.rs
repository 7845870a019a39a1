use base64::Engine;
use d3cap::rustwebsocket::{
    b64_encode, ws_accept, ws_make_frame, ws_parse_frame, ws_parse_handshake, Connection,
    ConnState, FrameParse, WS_CLOSING_FRAME, WS_TEXT_FRAME,
};

fn roundtrip(payload: &[u8]) {
    let f = ws_make_frame(payload, WS_TEXT_FRAME);
    match ws_parse_frame(&f) {
        FrameParse::Frame { op, fin, payload: got, consumed } => {
            assert_eq!(op, WS_TEXT_FRAME);
            assert!(fin);
            assert_eq!(got, payload.to_vec());
            assert_eq!(consumed, f.len());
        }
        FrameParse::Incomplete => panic!("frame should be complete"),
    }
}

#[test]
fn frame_roundtrip_at_length_boundaries() {
    roundtrip(b"");
    roundtrip(b"a");
    roundtrip(b"hello world");
    roundtrip(&vec![0x42u8; 125]);
    roundtrip(&vec![0x42u8; 126]);
    roundtrip(&vec![0x42u8; 65535]);
    roundtrip(&vec![0x42u8; 70000]);
}

#[test]
fn short_buffers_are_incomplete() {
    let f = ws_make_frame(b"some payload", WS_TEXT_FRAME);
    for cut in 0..f.len() {
        match ws_parse_frame(&f[..cut]) {
            FrameParse::Incomplete => {}
            _ => panic!("truncated frame parsed as complete"),
        }
    }
}

#[test]
fn masked_frames_are_unmasked() {
    // FIN + text, masked, payload "abc" under key 01 02 03 04
    let buf = vec![
        0x81,
        0x83,
        0x01,
        0x02,
        0x03,
        0x04,
        b'a' ^ 0x01,
        b'b' ^ 0x02,
        b'c' ^ 0x03,
    ];
    match ws_parse_frame(&buf) {
        FrameParse::Frame { op, payload, consumed, .. } => {
            assert_eq!(op, WS_TEXT_FRAME);
            assert_eq!(payload, b"abc".to_vec());
            assert_eq!(consumed, 9);
        }
        FrameParse::Incomplete => panic!("masked frame should parse"),
    }
}

#[test]
fn accept_token_matches_the_documented_derivation() {
    // the well-known sample key and its expected accept token
    let token = ws_accept(b"dGhlIHNhbXBsZSBub25jZQ==");
    assert_eq!(String::from_utf8(token).unwrap(), "s3pPLMBiTxaQ9kYGzzhZRbK+xOo=");
}

#[test]
fn base64_encoder_agrees_with_a_reference() {
    let samples: Vec<Vec<u8>> = vec![
        vec![],
        vec![0],
        vec![255],
        vec![1, 2],
        vec![1, 2, 3],
        vec![1, 2, 3, 4],
        b"any carnal pleasure.".to_vec(),
        (0u8..=255).collect(),
    ];
    for s in samples {
        let mine = String::from_utf8(b64_encode(&s)).unwrap();
        let reference = base64::engine::general_purpose::STANDARD.encode(&s);
        assert_eq!(mine, reference);
    }
}

#[test]
fn handshake_finds_the_key_header() {
    let req = b"GET /chat HTTP/1.1\r\nHost: example\r\nUpgrade: websocket\r\nSec-WebSocket-Key: dGhlIHNhbXBsZSBub25jZQ==\r\n\r\n";
    let key = ws_parse_handshake(req).expect("key expected");
    assert_eq!(key, b"dGhlIHNhbXBsZSBub25jZQ==".to_vec());
    assert!(ws_parse_handshake(b"GET / HTTP/1.1\r\nHost: example\r\n\r\n").is_none());
}

#[test]
fn upgrade_request_opens_the_connection() {
    let mut c = Connection::new();
    assert_eq!(c.state, ConnState::AwaitingHandshake);
    let req = b"GET /chat HTTP/1.1\r\nSec-WebSocket-Key: dGhlIHNhbXBsZSBub25jZQ==\r\n\r\n";
    let resp = String::from_utf8(c.on_request(req)).unwrap();
    assert_eq!(c.state, ConnState::Open);
    assert!(resp.starts_with("HTTP/1.1 101 Switching Protocols\r\n"));
    assert!(resp.contains("Sec-WebSocket-Accept: s3pPLMBiTxaQ9kYGzzhZRbK+xOo=\r\n"));
    assert!(resp.ends_with("\r\n\r\n"));
}

#[test]
fn other_requests_get_not_found_and_close() {
    let mut c = Connection::new();
    let resp = String::from_utf8(c.on_request(b"GET / HTTP/1.1\r\nHost: x\r\n\r\n")).unwrap();
    assert_eq!(resp, "HTTP/1.1 404 Not Found\r\n\r\n");
    assert_eq!(c.state, ConnState::Closed);
}

#[test]
fn close_frame_is_answered_and_connection_closes() {
    let mut c = Connection::new();
    let req = b"GET / HTTP/1.1\r\nSec-WebSocket-Key: dGhlIHNhbXBsZSBub25jZQ==\r\n\r\n";
    c.on_request(req);
    assert_eq!(c.state, ConnState::Open);

    // ordinary traffic keeps the connection open
    assert!(c.on_frame(WS_TEXT_FRAME).is_none());
    assert_eq!(c.state, ConnState::Open);

    let reply = c.on_frame(WS_CLOSING_FRAME).expect("close reply expected");
    assert_eq!(reply, ws_make_frame(b"", WS_CLOSING_FRAME));
    assert_eq!(c.state, ConnState::Closing);
    c.finish_close();
    assert_eq!(c.state, ConnState::Closed);
}

#[test]
fn unrecognized_opcode_counts_as_error() {
    let mut c = Connection::new();
    let req = b"GET / HTTP/1.1\r\nSec-WebSocket-Key: x\r\n\r\n";
    c.on_request(req);
    let reply = c.on_frame(0x7);
    assert!(reply.is_some());
    assert_eq!(c.state, ConnState::Closing);
}

#[test]
fn disconnect_closes_from_any_state() {
    let mut c = Connection::new();
    c.on_disconnect();
    assert_eq!(c.state, ConnState::Closed);
}

#[test]
fn frame_layout_is_exact() {
    assert_eq!(ws_make_frame(b"abc", WS_TEXT_FRAME), vec![0x81, 3, b'a', b'b', b'c']);
    assert_eq!(ws_make_frame(b"", WS_CLOSING_FRAME), vec![0x88, 0]);
    let f = ws_make_frame(&[7u8; 300], WS_TEXT_FRAME);
    assert_eq!(&f[..4], &[0x81, 126, 0x01, 0x2c]);
    assert_eq!(f.len(), 4 + 300);
}
