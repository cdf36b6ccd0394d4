use tenover::crc::crc16;

/// Standard CRC-16/ARC check value for "123456789".
#[test]
fn check_value() {
    assert_eq!(crc16(b"123456789"), 0xBB3D);
}

#[test]
fn empty() {
    assert_eq!(crc16(b""), 0);
}

#[test]
fn single_byte() {
    assert_eq!(crc16(&[0x01]), 0xC0C1);
}

/// Bit-at-a-time CRC-16/ARC, to hold the table-driven one against.
fn bitwise_arc(data: &[u8]) -> u16 {
    let mut crc: u16 = 0;
    for &b in data {
        crc ^= u16::from(b);
        for _ in 0..8 {
            crc = if crc & 1 != 0 { (crc >> 1) ^ 0xA001 } else { crc >> 1 };
        }
    }
    crc
}

#[test]
fn table_matches_bitwise() {
    let data: Vec<u8> = (0..=255u8).chain([0xFF, 0x00, 0x80, 0x7F]).collect();
    for n in 0..data.len() {
        assert_eq!(crc16(&data[..n]), bitwise_arc(&data[..n]));
    }
}

#[test]
fn crc_residue_is_zero() {
    for data in [&b""[..], b"123456789", &[0x00, 0xFF, 0x10][..]] {
        let mut with_crc = data.to_vec();
        with_crc.extend_from_slice(&crc16(data).to_le_bytes());
        assert_eq!(crc16(&with_crc), 0);
    }
}
