use tenover::cobs::{decode, encode};

#[test]
fn roundtrip_empty() {
    let data = b"";
    let encoded = encode(data);
    let decoded = decode(&encoded).unwrap();
    assert_eq!(decoded, data);
}

#[test]
fn roundtrip_no_zeros() {
    let data = b"hello";
    let encoded = encode(data);
    assert!(!encoded.contains(&0x00));
    let decoded = decode(&encoded).unwrap();
    assert_eq!(decoded, data);
}

#[test]
fn roundtrip_with_interior_zeros() {
    // COBS can't roundtrip data ending with 0x00 — the trailing zero
    // merges with the frame delimiter. GFDI frames end with CRC bytes,
    // so this is fine. Test interior zeros only.
    let data = b"\x00hello\x00world";
    let encoded = encode(data);
    assert!(!encoded.contains(&0x00));
    let decoded = decode(&encoded).unwrap();
    assert_eq!(decoded, data);
}

#[test]
fn roundtrip_zeros_then_data() {
    let data = [0x00, 0x00, 0x00, 0x01];
    let encoded = encode(&data);
    assert!(!encoded.contains(&0x00));
    let decoded = decode(&encoded).unwrap();
    assert_eq!(decoded, data);
}

#[test]
fn roundtrip_254_nonzero() {
    let data: Vec<u8> = (1..=254).collect();
    let encoded = encode(&data);
    assert!(!encoded.contains(&0x00));
    let decoded = decode(&encoded).unwrap();
    assert_eq!(decoded, data);
}

#[test]
fn roundtrip_255_nonzero() {
    let data: Vec<u8> = (1..=255).collect();
    let encoded = encode(&data);
    assert!(!encoded.contains(&0x00));
    let decoded = decode(&encoded).unwrap();
    assert_eq!(decoded, data);
}

#[test]
fn known_vector() {
    let data = [0x01, 0x00, 0x02];
    let encoded = encode(&data);
    let decoded = decode(&encoded).unwrap();
    assert_eq!(decoded, data);
}

// ── Further cases ──

#[test]
fn encode_exact_bytes() {
    assert_eq!(encode(&[0x01, 0x00, 0x02]), vec![0x02, 0x01, 0x02, 0x02]);
    assert_eq!(encode(&[]), Vec::<u8>::new());
    assert_eq!(encode(&[0x00]), vec![0x01]);
    assert_eq!(encode(&[0x11, 0x22, 0x00]), vec![0x03, 0x11, 0x22]);
}

#[test]
fn decode_stops_at_zero_code() {
    assert_eq!(decode(&[0x02, 0x41, 0x00, 0x03]).unwrap(), vec![0x41]);
}

#[test]
fn decode_rejects_overrunning_block() {
    let err = decode(&[0x05, 0x01]).unwrap_err();
    assert_eq!(err.message(), "COBS decode error: malformed input");
}

#[test]
fn trailing_zero_does_not_roundtrip() {
    // Data ending in a zero byte comes back without it.
    let encoded = encode(&[0x07, 0x00]);
    assert_eq!(decode(&encoded).unwrap(), vec![0x07]);
}

#[test]
fn roundtrip_zero_after_full_block() {
    let mut data: Vec<u8> = (1..=254).collect();
    data.push(0x00);
    data.push(0x05);
    let encoded = encode(&data);
    assert!(!encoded.contains(&0x00));
    assert_eq!(encoded[0], 0xFF);
    assert_eq!(&encoded[255..], &[0x01, 0x02, 0x05]);
    assert_eq!(decode(&encoded).unwrap(), data);
}

#[test]
fn roundtrip_long_runs_with_zeros() {
    let mut data = Vec::new();
    for k in 0..3u32 {
        data.extend((0..(254 * (k + 1) + k)).map(|i| (i % 255 + 1) as u8));
        data.push(0x00);
        data.push(0x00);
    }
    data.push(0x42);
    assert_eq!(decode(&encode(&data)).unwrap(), data);
}
