use tenover::multilink::{
    build_register, chunk_with_handle, parse_register_response, strip_handle, RegisterStatus, ServiceId,
};

#[test]
fn register_command_format() {
    let cmd = build_register(1, ServiceId::Gfdi);
    assert_eq!(
        cmd,
        [0x00, 0x00, 0x01, 0x00, 0x00, 0x00, 0x00, 0x00, 0x00, 0x00, 0x01, 0x00, 0x00]
    );
}

#[test]
fn parse_register_success() {
    // Real response from R10: handle=1, flags=0
    let resp = [
        0x00, 0x01, 0x01, 0x00, 0x00, 0x00, 0x00, 0x00, 0x00, 0x00, 0x01, 0x00, 0x00, 0x01,
        0x00, 0x00,
    ];
    let (status, handle, flags) = parse_register_response(&resp).unwrap();
    assert_eq!(status, RegisterStatus::Success);
    assert_eq!(handle, 1);
    assert_eq!(flags, 0);
}

#[test]
fn strip_handle_match() {
    let chunk = [0x01, 0xAA, 0xBB];
    assert_eq!(strip_handle(&chunk, 0x01), Some([0xAA, 0xBB].as_slice()));
}

#[test]
fn strip_handle_mismatch() {
    let chunk = [0x02, 0xAA, 0xBB];
    assert_eq!(strip_handle(&chunk, 0x01), None);
}

#[test]
fn chunking_mtu_20() {
    let data = vec![0xAA; 40];
    let chunks = chunk_with_handle(&data, 0x01, 20);
    // 40 bytes / 19 per chunk = 3 chunks (19 + 19 + 2)
    assert_eq!(chunks.len(), 3);
    assert_eq!(chunks[0].len(), 20); // handle + 19
    assert_eq!(chunks[0][0], 0x01);
    assert_eq!(chunks[1].len(), 20);
    assert_eq!(chunks[2].len(), 3); // handle + 2
}

// ── Further cases ──

#[test]
fn register_other_service() {
    let cmd = build_register(0x0102_0304_0506_0708, ServiceId::KeepAlive);
    assert_eq!(
        cmd,
        [0x00, 0x00, 0x08, 0x07, 0x06, 0x05, 0x04, 0x03, 0x02, 0x01, 22, 0x00, 0x00]
    );
}

#[test]
fn parse_register_refusals() {
    let mut resp = [0u8; 15];
    resp[1] = 0x01;
    resp[12] = 3;
    resp[13] = 7;
    resp[14] = 9;
    assert_eq!(parse_register_response(&resp), Some((RegisterStatus::AlreadyInUse, 7, 9)));
    // Too short.
    assert_eq!(parse_register_response(&resp[..14]), None);
    // Not a REGISTER_RESPONSE.
    resp[1] = 0x00;
    assert_eq!(parse_register_response(&resp), None);
    // Unknown status.
    resp[1] = 0x01;
    resp[12] = 5;
    assert_eq!(parse_register_response(&resp), None);
}

#[test]
fn strip_handle_empty_chunk() {
    assert_eq!(strip_handle(&[], 0x01), None);
    assert_eq!(strip_handle(&[0x01], 0x01), Some([].as_slice()));
}

#[test]
fn chunks_reassemble() {
    let data: Vec<u8> = (0..100u8).collect();
    for mtu in [2usize, 3, 7, 20, 101, 200] {
        let chunks = chunk_with_handle(&data, 0x05, mtu);
        let mut joined = Vec::new();
        for c in &chunks {
            assert_eq!(c[0], 0x05);
            assert!(c.len() >= 2 && c.len() <= mtu);
            joined.extend_from_slice(&c[1..]);
        }
        assert_eq!(joined, data);
    }
}

#[test]
fn chunking_degenerate_mtu() {
    assert!(chunk_with_handle(&[1, 2, 3], 0x01, 0).is_empty());
    assert!(chunk_with_handle(&[1, 2, 3], 0x01, 1).is_empty());
    assert!(chunk_with_handle(&[], 0x01, 20).is_empty());
}

#[test]
fn register_status_codes() {
    assert_eq!(RegisterStatus::from_u8(0), Some(RegisterStatus::Success));
    assert_eq!(RegisterStatus::from_u8(4), Some(RegisterStatus::Rejected));
    assert_eq!(RegisterStatus::from_u8(5), None);
    assert_eq!(RegisterStatus::Rejected.code(), 4);
    assert_eq!(ServiceId::Echo.id(), 15);
}
