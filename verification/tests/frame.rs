use rcgi::tcp_class::frame::{head_failure, header_len, HeadFailure};
use rcgi::tcp_class::frame::{
    count_bytes, encode_frame, encode_head, frame_kind, head_action, length_field, parse_head,
    read_plan, FrameKind, HeadParse, LengthField, ReadPlan, OPCODE_CLOSE, OPCODE_PONG,
};

#[test]
fn encode_head_short_medium_long() {
    assert_eq!(encode_head(0x81, 5), vec![0x81, 5]);
    assert_eq!(encode_head(0x81, 125), vec![0x81, 125]);
    assert_eq!(encode_head(0x82, 126), vec![0x82, 126, 0, 126]);
    assert_eq!(encode_head(0x82, 65535), vec![0x82, 126, 0xff, 0xff]);
    assert_eq!(encode_head(0x82, 65536), vec![0x82, 127, 0, 0, 0, 0, 0, 1, 0, 0]);
    assert_eq!(
        encode_head(0x81, 0x0102_0304_0506_0708),
        vec![0x81, 127, 1, 2, 3, 4, 5, 6, 7, 8]
    );
}

#[test]
fn encode_frame_appends_payload() {
    assert_eq!(encode_frame(0x81, b"hi"), vec![0x81, 2, b'h', b'i']);
    assert_eq!(encode_frame(0x88, &[]), vec![0x88, 0]);
}

#[test]
fn count_bytes_is_big_endian() {
    assert_eq!(count_bytes(&[]), 0);
    assert_eq!(count_bytes(&[0x01, 0x00]), 256);
    assert_eq!(count_bytes(&[0xff; 8]), u64::MAX);
}

#[test]
fn length_field_cases() {
    assert_eq!(length_field(0x85), LengthField::Short(5));
    assert_eq!(length_field(0xfe), LengthField::Ext16);
    assert_eq!(length_field(0x7f), LengthField::Ext64);
}

#[test]
fn parse_head_masked_text_frame() {
    // "Hello" from RFC 6455, section 5.7: masked text frame.
    let buf = [0x81, 0x85, 0x37, 0xfa, 0x21, 0x3d, 0x7f, 0x9f, 0x4d, 0x51, 0x58];
    match parse_head(&buf) {
        HeadParse::Frame(h) => {
            assert_eq!(h.kind, FrameKind::Text);
            assert_eq!(h.payload_len, 5);
            assert_eq!(h.mask, [0x37, 0xfa, 0x21, 0x3d]);
            assert_eq!(h.head_len, 6);
        }
        _ => panic!("expected a frame"),
    }
}

#[test]
fn parse_head_incomplete_and_unsupported() {
    assert!(matches!(parse_head(&[0x81]), HeadParse::Incomplete));
    assert!(matches!(parse_head(&[0x81, 0x85, 1, 2, 3]), HeadParse::Incomplete));
    assert!(matches!(parse_head(&[0x82, 0xfe, 0x01]), HeadParse::Incomplete));
    assert!(matches!(parse_head(&[0x80, 0x80, 1, 2, 3, 4]), HeadParse::Unsupported));
    assert!(matches!(parse_head(&[0x8a, 0x80, 1, 2, 3, 4]), HeadParse::Unsupported));
}

#[test]
fn encode_then_parse_roundtrip() {
    for len in [0u64, 1, 125, 126, 300, 65535, 65536, 1 << 40] {
        let mut buf = encode_head(0x82, len);
        let head_len = buf.len();
        buf.extend_from_slice(&[9, 8, 7, 6, 0xaa]);
        match parse_head(&buf) {
            HeadParse::Frame(h) => {
                assert_eq!(h.kind, FrameKind::Binary);
                assert_eq!(h.payload_len, len);
                assert_eq!(h.mask, [9, 8, 7, 6]);
                assert_eq!(h.head_len, head_len + 4);
            }
            _ => panic!("expected a frame"),
        }
    }
}

#[test]
fn frame_kinds_and_actions() {
    assert_eq!(frame_kind(0x81), FrameKind::Text);
    assert_eq!(frame_kind(0x82), FrameKind::Binary);
    assert_eq!(frame_kind(0x88), FrameKind::Close);
    assert_eq!(frame_kind(0x89), FrameKind::Ping);
    assert_eq!(frame_kind(0x01), FrameKind::Unsupported);
    let a = head_action(FrameKind::Text, 7);
    assert_eq!((a.payload, a.reply), (Some(7), None));
    let a = head_action(FrameKind::Close, 7);
    assert_eq!((a.payload, a.reply), (None, Some(OPCODE_CLOSE)));
    let a = head_action(FrameKind::Ping, 7);
    assert_eq!((a.payload, a.reply), (Some(0), Some(OPCODE_PONG)));
}

#[test]
fn read_plans() {
    assert_eq!(read_plan(10, 4), ReadPlan::Direct);
    assert_eq!(read_plan(4, 4), ReadPlan::Staged(4));
    assert_eq!(read_plan(0, 4), ReadPlan::Staged(0));
}

#[test]
fn header_lengths_and_read_failures() {
    assert_eq!(header_len(0x85), 6);
    assert_eq!(header_len(0xfe), 8);
    assert_eq!(header_len(0x7f), 14);
    assert_eq!(head_failure(true, true), HeadFailure::Closed);
    assert_eq!(head_failure(true, false), HeadFailure::Failed);
    assert_eq!(head_failure(false, true), HeadFailure::Failed);
}
