use rzgate::protocol::{
    build_keepalive_frame, parse_frame, prepend_header, prepend_router_header, FrameStep, ProtocolError,
    KEEPALIVE_SEGMENT, ROUTER_MAGIC, SHARD_MAGIC,
};

#[test]
fn keepalive_frame_layout() {
    let f = build_keepalive_frame();
    let mut expected = vec![ROUTER_MAGIC];
    let total = 1 + KEEPALIVE_SEGMENT.len() + 1 + 9;
    expected.extend_from_slice(&(total as u32).to_le_bytes());
    expected.push(KEEPALIVE_SEGMENT.len() as u8);
    expected.extend_from_slice(KEEPALIVE_SEGMENT.as_bytes());
    expected.push(0);
    expected.push(SHARD_MAGIC);
    expected.extend_from_slice(&0u32.to_le_bytes());
    expected.extend_from_slice(&0u32.to_le_bytes());
    assert_eq!(f, expected);
    assert_eq!(f.len(), 5 + 24);
    assert_eq!(&f[1..5], &[24, 0, 0, 0]);
}

#[test]
fn shard_frame_layout() {
    let f = prepend_header(0x01020304, &[7, 8, 9]);
    assert_eq!(f, vec![0xFF, 4, 3, 2, 1, 3, 0, 0, 0, 7, 8, 9]);
}

#[test]
fn router_frame_layout() {
    let f = prepend_router_header("s1", true, 5, &[0xAA]);
    // magic, length of the rest (1 + 2 + 1 + 9 + 1 = 14), segment, write flag, shard frame
    assert_eq!(
        f,
        vec![0xFE, 14, 0, 0, 0, 2, b's', b'1', 1, 0xFF, 5, 0, 0, 0, 1, 0, 0, 0, 0xAA]
    );
    let r = prepend_router_header("", false, 0, &[]);
    assert_eq!(r, vec![0xFE, 11, 0, 0, 0, 0, 0, 0xFF, 0, 0, 0, 0, 0, 0, 0, 0]);
}

fn response_payload(status: &str, fields: u16) -> Vec<u8> {
    let mut p = vec![status.len() as u8];
    p.extend_from_slice(status.as_bytes());
    p.extend_from_slice(&fields.to_le_bytes());
    p
}

#[test]
fn parse_frame_ready() {
    let payload = response_payload("SUCCESS", 0);
    let mut buf = prepend_header(42, &payload);
    buf.extend_from_slice(&[0xFF, 1]); // start of the next frame
    match parse_frame(&buf) {
        FrameStep::Ready { consumed, header, payload: p } => {
            assert_eq!(consumed, 9 + payload.len());
            assert_eq!(header.clr_id, 42);
            assert_eq!(header.status_len, 7);
            assert_eq!(header.field_cnt, 0);
            assert_eq!(p, payload);
        }
        _ => panic!("expected a complete frame"),
    }
}

#[test]
fn parse_frame_needs_more() {
    assert!(matches!(parse_frame(&[0xFF, 1, 2]), FrameStep::NeedMore));
    let payload = response_payload("SUCCESS", 3);
    let buf = prepend_header(1, &payload);
    for cut in 0..buf.len() {
        assert!(matches!(parse_frame(&buf[..cut]), FrameStep::NeedMore), "prefix {}", cut);
    }
}

#[test]
fn parse_frame_errors() {
    match parse_frame(&[0x00, 0, 0, 0, 0, 0, 0, 0, 0]) {
        FrameStep::Failed { consumed, error: ProtocolError::MissingMagic(b) } => {
            assert_eq!(consumed, 0);
            assert_eq!(b, 0);
        }
        _ => panic!("expected a missing magic byte"),
    }
    match parse_frame(&prepend_header(1, &[])) {
        FrameStep::Failed { consumed, error: ProtocolError::ShortPayload(m) } => {
            assert_eq!(consumed, 9);
            assert_eq!(m, "empty payload");
        }
        _ => panic!("expected an empty payload"),
    }
    match parse_frame(&prepend_header(1, &[7, b'S', b'U'])) {
        FrameStep::Failed { consumed, error: ProtocolError::ShortPayload(m) } => {
            assert_eq!(consumed, 12);
            assert_eq!(m, "missing field count");
        }
        _ => panic!("expected a missing field count"),
    }
}
