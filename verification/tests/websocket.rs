use rcgi::env::Env;
use rcgi::tcp_class::http_websocket_func;
use rcgi::tcp_class::websocket_func;
use rcgi::tcp_class::handshake::{accept_key, switch_response_for};

const MASK: [u8; 4] = [0x37, 0xfa, 0x21, 0x3d];
const MASKED_HELLO: [u8; 5] = [0x7f, 0x9f, 0x4d, 0x51, 0x58];

#[test]
fn accept_key_rfc_example() {
    assert_eq!(accept_key("dGhlIHNhbXBsZSBub25jZQ=="), "s3pPLMBiTxaQ9kYGzzhZRbK+xOo=");
    assert_eq!(accept_key("").len(), 28);
}

#[test]
fn switch_response_text() {
    assert_eq!(
        switch_response_for("abc"),
        "HTTP/1.1 101 SWITCH\r\nServer: Rust Cgi\r\nConnection: upgrade\r\nUpgrade: websocket\r\nSec-WebSocket-Accept: abc\r\n\r\n"
    );
}

#[test]
fn old_handshake_uses_capitalised_key() {
    let mut env = Env::new();
    assert_eq!(websocket_func::handshake(&env), None);
    env.insert("Sec-WebSocket-Key".to_string(), "dGhlIHNhbXBsZSBub25jZQ==".to_string());
    let resp = websocket_func::handshake(&env).unwrap();
    assert!(resp.ends_with("Sec-WebSocket-Accept: s3pPLMBiTxaQ9kYGzzhZRbK+xOo=\r\n\r\n"));
}

#[test]
fn new_handshake_and_upgrade_match() {
    let mut env = Env::new();
    assert!(!http_websocket_func::matches(&env));
    env.insert("upgrade".to_string(), "WebSocket".to_string());
    assert!(http_websocket_func::matches(&env));
    env.insert("upgrade".to_string(), "h2c".to_string());
    assert!(!http_websocket_func::matches(&env));
    env.insert("sec-websocket-key".to_string(), "dGhlIHNhbXBsZSBub25jZQ==".to_string());
    let resp = http_websocket_func::handshake(&env).unwrap();
    assert!(resp.ends_with("s3pPLMBiTxaQ9kYGzzhZRbK+xOo=\r\n\r\n"));
}

#[test]
fn old_websocket_unmasks_rfc_hello() {
    let mut ws = websocket_func::Websocket::new();
    assert!(ws.needs_head());
    ws.start_frame(5, MASK);
    assert!(!ws.needs_head());
    let mut data = MASKED_HELLO.to_vec();
    ws.consume(&mut data, 5);
    assert_eq!(data, b"Hello");
    assert!(ws.needs_head());
}

#[test]
fn old_websocket_unmasks_in_chunks_like_whole() {
    let mut ws = websocket_func::Websocket::new();
    ws.start_frame(5, MASK);
    let mut first = MASKED_HELLO[..2].to_vec();
    ws.consume(&mut first, 2);
    assert_eq!(ws.residue(), 3);
    let mut second = MASKED_HELLO[2..].to_vec();
    ws.consume(&mut second, 3);
    first.extend_from_slice(&second);
    assert_eq!(first, b"Hello");
}

#[test]
fn unmask_twice_restores() {
    let mut ws = websocket_func::Websocket::new();
    ws.start_frame(5, MASK);
    let mut data = MASKED_HELLO.to_vec();
    ws.unmask(&mut data, 5);
    ws.unmask(&mut data, 5);
    assert_eq!(data, MASKED_HELLO);
}

#[test]
fn read_plans_follow_residue() {
    let mut ws = websocket_func::Websocket::new();
    ws.start_frame(10, MASK);
    assert_eq!(ws.plan_read(4), rcgi::tcp_class::frame::ReadPlan::Direct);
    assert_eq!(ws.plan_read(10), rcgi::tcp_class::frame::ReadPlan::Staged(10));
}

#[test]
fn copy_staged_overwrites_front() {
    let mut data = vec![0u8; 5];
    websocket_func::copy_staged(&mut data, &[1, 2, 3]);
    assert_eq!(data, vec![1, 2, 3, 0, 0]);
    let mut data = vec![9u8; 4];
    http_websocket_func::copy_staged(&mut data, &[1, 2], 2);
    assert_eq!(data, vec![1, 2, 9, 9]);
}

#[test]
fn new_websocket_unmasks_first_chunk() {
    let mut ws = http_websocket_func::Websocket::new();
    ws.start_frame(5, MASK);
    let mut data = MASKED_HELLO.to_vec();
    ws.consume(&mut data, 5);
    assert_eq!(data, b"Hello");
    assert_eq!(ws.remainder(), 0);
}

#[test]
fn new_websocket_indexes_key_from_processed() {
    // After one byte, byte i takes key byte (1 + i) % 4.
    let mut ws = http_websocket_func::Websocket::new();
    ws.start_frame(5, [1, 2, 3, 4]);
    let mut data = vec![0u8; 1];
    ws.consume(&mut data, 1);
    assert_eq!(data, vec![1]);
    let mut data = vec![0u8; 4];
    ws.consume(&mut data, 4);
    assert_eq!(data, vec![2, 3, 4, 1]);
    assert_eq!(ws.remainder(), 0);
}

#[test]
fn new_websocket_chunks_match_whole_frame() {
    let mut whole = MASKED_HELLO.to_vec();
    let mut ws = http_websocket_func::Websocket::new();
    ws.start_frame(5, MASK);
    ws.consume(&mut whole, 5);
    let mut ws = http_websocket_func::Websocket::new();
    ws.start_frame(5, MASK);
    let mut first = MASKED_HELLO[..3].to_vec();
    ws.consume(&mut first, 3);
    let mut second = MASKED_HELLO[3..].to_vec();
    ws.consume(&mut second, 2);
    first.extend(second);
    assert_eq!(first, whole);
}

#[test]
fn mask_word_and_bytes() {
    assert_eq!(http_websocket_func::mask_word([0x12, 0x34, 0x56, 0x78]), 0x1234_5678);
    assert_eq!(http_websocket_func::mask_bytes(0x1234_5678), [0x12, 0x34, 0x56, 0x78]);
}
