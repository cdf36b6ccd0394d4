use tenover::crc::crc16;
use tenover::error::Error;
use tenover::gfdi::{
    build_ack, build_device_info_response, build_frame, build_host_capabilities, build_protobuf_request,
    parse_capabilities, parse_device_info, parse_frag_header, parse_frame, wrap_cobs, StreamBuffer, CAP_SWING_SENSOR,
    MSG_ACK, MSG_CONFIGURATION, MSG_DEVICE_INFO, MSG_PROTOBUF_REQUEST,
};

#[test]
fn build_and_parse_frame() {
    let payload = b"test";
    let frame = build_frame(5024, payload);
    let parsed = parse_frame(&frame).unwrap();
    assert_eq!(parsed.msg_type, 5024);
    assert_eq!(parsed.payload, payload);
    assert!(parsed.txn_id.is_none());
}

#[test]
fn build_and_parse_ack() {
    let frame = build_ack(5024, 0, b"");
    let parsed = parse_frame(&frame).unwrap();
    assert_eq!(parsed.msg_type, MSG_ACK);
    // ACK payload: [orig_type u16] [status u8]
    assert_eq!(parsed.payload.len(), 3);
    assert_eq!(u16::from_le_bytes([parsed.payload[0], parsed.payload[1]]), 5024);
    assert_eq!(parsed.payload[2], 0);
}

#[test]
fn crc_verified() {
    let frame = build_frame(5024, b"hello");
    // Corrupt one byte
    let mut bad = frame.clone();
    bad[4] ^= 0xFF;
    assert!(parse_frame(&bad).is_err());
}

#[test]
fn cobs_roundtrip() {
    let frame = build_frame(5024, b"test payload with \x00 zeros");
    let wrapped = wrap_cobs(&frame);
    // First and last bytes are 0x00 delimiters
    assert_eq!(wrapped[0], 0x00);
    assert_eq!(wrapped[wrapped.len() - 1], 0x00);
}

#[test]
fn stream_buffer_single_frame() {
    let frame = build_frame(5024, b"test");
    let cobs_frame = wrap_cobs(&frame);

    let mut buf = StreamBuffer::new();
    buf.extend(&cobs_frame).unwrap();
    let f = buf.next_frame().unwrap().unwrap();
    assert_eq!(f.msg_type, 5024);
    assert_eq!(f.payload, b"test");
    assert!(buf.next_frame().is_none());
}

#[test]
fn stream_buffer_split_chunks() {
    let frame = build_frame(5050, b"payload");
    let cobs_frame = wrap_cobs(&frame);

    let mut buf = StreamBuffer::new();
    // Feed in two halves
    let mid = cobs_frame.len() / 2;
    buf.extend(&cobs_frame[..mid]).unwrap();
    assert!(buf.next_frame().is_none()); // incomplete
    buf.extend(&cobs_frame[mid..]).unwrap();
    let f = buf.next_frame().unwrap().unwrap();
    assert_eq!(f.msg_type, 5050);
}

#[test]
fn parse_device_info_r10() {
    // Minimal 5024 payload based on R10 captures
    let mut payload = Vec::new();
    payload.extend_from_slice(&150u16.to_le_bytes()); // protocol_version
    payload.extend_from_slice(&3622u16.to_le_bytes()); // product_number (0x0E26)
    payload.extend_from_slice(&0x12345678u32.to_le_bytes()); // unit_id
    payload.extend_from_slice(&430u16.to_le_bytes()); // software_version (4.30)
    payload.extend_from_slice(&0x021Bu16.to_le_bytes()); // max_packet_size

    // friendly_name: "Approach R10"
    let name = b"Approach R10";
    payload.push(name.len() as u8);
    payload.extend_from_slice(name);

    // device_name: "ApproachR10"
    let dev = b"ApproachR10";
    payload.push(dev.len() as u8);
    payload.extend_from_slice(dev);

    // model_name: empty
    payload.push(0);

    let info = parse_device_info(&payload).unwrap();
    assert_eq!(info.protocol_version, 150);
    assert_eq!(info.product_number, 3622);
    assert_eq!(info.software_version, 430);
    assert_eq!(info.friendly_name, "Approach R10");
    assert_eq!(info.device_name, "ApproachR10");
}

#[test]
fn capabilities_swing_sensor() {
    let caps_frame = build_host_capabilities();
    let parsed = parse_frame(&caps_frame).unwrap();
    assert_eq!(parsed.msg_type, MSG_CONFIGURATION);
    let caps = parse_capabilities(&parsed.payload);
    assert!(caps.contains(&CAP_SWING_SENSOR));
}

#[test]
fn frag_header_roundtrip() {
    let pb_data = b"protobuf payload";
    let frame = build_protobuf_request(42, pb_data);
    let parsed = parse_frame(&frame).unwrap();
    assert_eq!(parsed.msg_type, MSG_PROTOBUF_REQUEST);

    let (hdr, data) = parse_frag_header(&parsed.payload).unwrap();
    assert_eq!(hdr.req_id, 42);
    assert_eq!(hdr.offset, 0);
    assert_eq!(hdr.total_len, pb_data.len() as u32);
    assert_eq!(hdr.chunk_size, pb_data.len() as u32);
    assert_eq!(data, pb_data);
}

#[test]
fn txn_id_detection() {
    // Build a frame that mimics a compressed header with txn_id
    // [length u16] [msg_type-5000 u8] [txn_id|0x80 u8] [payload] [crc u16]
    let mut frame = Vec::new();
    let payload = b"test";
    let length = (2 + 1 + 1 + payload.len() + 2) as u16;
    frame.extend_from_slice(&length.to_le_bytes());
    frame.push(43); // 5043 - 5000
    frame.push(0x81); // txn_id=1 | 0x80
    frame.extend_from_slice(payload);
    let crc = crc16(&frame);
    frame.extend_from_slice(&crc.to_le_bytes());

    let parsed = parse_frame(&frame).unwrap();
    assert_eq!(parsed.msg_type, 5043);
    assert_eq!(parsed.txn_id, Some(1));
    assert_eq!(parsed.payload, payload);
}

// ── Further cases ──

#[test]
fn frame_exact_bytes() {
    // [len=8][type=5024][0xAB 0xCD][crc]
    let frame = build_frame(5024, &[0xAB, 0xCD]);
    let body = [0x08, 0x00, 0xA0, 0x13, 0xAB, 0xCD];
    let crc = crc16(&body).to_le_bytes();
    assert_eq!(frame, [&body[..], &crc[..]].concat());
}

#[test]
fn parse_frame_errors() {
    match parse_frame(&[1, 2, 3, 4, 5]) {
        Err(Error::FrameTooShort { len, min }) => {
            assert_eq!(len, 5);
            assert_eq!(min, 6);
        }
        other => panic!("unexpected {other:?}"),
    }
    let mut frame = build_frame(5000, b"x");
    let n = frame.len();
    frame[n - 1] ^= 0x01;
    match parse_frame(&frame) {
        Err(Error::Crc { expected, actual }) => assert_ne!(expected, actual),
        other => panic!("unexpected {other:?}"),
    }
}

#[test]
fn stream_buffer_bad_cobs_and_empty_blocks() {
    let mut buf = StreamBuffer::new();
    // An empty block is skipped; a block whose code runs past its end is a COBS error.
    buf.extend(&[0x00, 0x00, 0x00, 0x05, 0x01, 0x00, 0x09]).unwrap();
    assert!(matches!(buf.next_frame(), Some(Err(Error::Cobs(_)))));
    assert!(buf.next_frame().is_none());
}

#[test]
fn stream_buffer_overflow() {
    let mut buf = StreamBuffer::new();
    buf.extend(&vec![0x11; 65_000]).unwrap();
    match buf.extend(&vec![0x22; 1_000]) {
        Err(Error::FrameTooShort { len, min }) => {
            assert_eq!(len, 1_000);
            assert_eq!(min, 0);
        }
        other => panic!("unexpected {other:?}"),
    }
    // The buffer was emptied: a fresh frame parses.
    buf.extend(&wrap_cobs(&build_frame(5024, b"ok"))).unwrap();
    assert_eq!(buf.next_frame().unwrap().unwrap().payload, b"ok");
}

#[test]
fn stream_buffer_two_frames_garbage_first() {
    let mut data = vec![0x31, 0x32];
    data.extend(wrap_cobs(&build_frame(5024, b"one")));
    data.extend(wrap_cobs(&build_frame(5050, b"two")));
    let mut buf = StreamBuffer::new();
    buf.extend(&data).unwrap();
    let f1 = buf.next_frame().unwrap().unwrap();
    assert_eq!((f1.msg_type, f1.payload.as_slice()), (5024, b"one".as_slice()));
    let f2 = buf.next_frame().unwrap().unwrap();
    assert_eq!((f2.msg_type, f2.payload.as_slice()), (5050, b"two".as_slice()));
    assert!(buf.next_frame().is_none());
}

#[test]
fn device_info_too_short() {
    assert!(matches!(parse_device_info(&[0u8; 11]), Err(Error::FrameTooShort { len: 11, min: 12 })));
}

#[test]
fn device_info_response_is_ack_of_5024() {
    let frame = build_device_info_response();
    let parsed = parse_frame(&frame).unwrap();
    assert_eq!(parsed.msg_type, MSG_ACK);
    assert_eq!(u16::from_le_bytes([parsed.payload[0], parsed.payload[1]]), MSG_DEVICE_INFO);
    assert_eq!(parsed.payload[2], 0);
    // Host protocol version 150 follows.
    assert_eq!(u16::from_le_bytes([parsed.payload[3], parsed.payload[4]]), 150);
}

#[test]
fn capabilities_bits() {
    // [count][bitmap]: bits 0 and 9.
    assert_eq!(parse_capabilities(&[2, 0x01, 0x02]), vec![0, 9]);
    assert!(parse_capabilities(&[]).is_empty());
}

#[test]
fn frag_header_too_short() {
    assert!(matches!(parse_frag_header(&[0u8; 13]), Err(Error::FrameTooShort { len: 13, min: 14 })));
}

#[test]
fn stream_buffer_stray_delimiter() {
    let frame = build_frame(5024, b"after a stray zero");
    let mut data = vec![0x00];
    data.extend(wrap_cobs(&frame));
    let mut buf = StreamBuffer::new();
    buf.extend(&data).unwrap();
    let f = buf.next_frame().unwrap().unwrap();
    assert_eq!(f.payload, b"after a stray zero");
    assert!(buf.next_frame().is_none());
}

#[test]
fn stream_buffer_any_split_same_frames() {
    let mut stream = vec![0x07, 0x00];
    stream.extend(wrap_cobs(&build_frame(5024, b"one")));
    stream.extend(wrap_cobs(&build_frame(5050, b"two, a bit longer")));
    stream.extend([0x00, 0x00, 0x03, 0x01, 0x00]);
    stream.extend(wrap_cobs(&build_frame(5043, b"three")));
    let describe = |r: Result<tenover::gfdi::GfdiFrame, Error>| match r {
        Ok(f) => format!("{}:{:?}", f.msg_type, f.payload),
        Err(e) => format!("{e:?}"),
    };
    let mut whole = StreamBuffer::new();
    whole.extend(&stream).unwrap();
    let mut expected = Vec::new();
    while let Some(r) = whole.next_frame() {
        expected.push(describe(r));
    }
    assert_eq!(expected.len(), 4);
    for size in [1usize, 2, 3, 5, 7, 19] {
        let mut buf = StreamBuffer::new();
        let mut got = Vec::new();
        for chunk in stream.chunks(size) {
            buf.extend(chunk).unwrap();
            while let Some(r) = buf.next_frame() {
                got.push(describe(r));
            }
        }
        assert_eq!(got, expected);
    }
}
