//! CRC-16/ARC (also CRC-16/LHA, CRC-IBM).
//!
//! Nibble-based lookup table implementation matching the Garmin GFDI CRC.
//! Poly 0x8005 reflected, init=0, no final XOR.

use vstd::prelude::*;

verus! {

/// One bit of the reflected CRC-16/ARC register update (polynomial 0xA001).
pub open spec fn crc_bit(c: u16) -> u16 {
    if c & 1 == 1 {
        (c >> 1) ^ 0xA001u16
    } else {
        c >> 1
    }
}

/// Four register updates: the contribution of one nibble.
pub open spec fn crc_nibble(c: u16) -> u16 {
    crc_bit(crc_bit(crc_bit(crc_bit(c))))
}

/// The CRC-16/ARC register after absorbing one byte, bit by bit.
pub open spec fn crc_byte(crc: u16, b: u8) -> u16 {
    crc_nibble(crc_nibble(crc ^ (b as u16)))
}

/// CRC-16/ARC of a byte sequence: init 0, reflected input and output,
/// polynomial 0x8005 (0xA001 reflected), no final XOR.
pub open spec fn crc_arc(s: Seq<u8>) -> u16
    decreases s.len(),
{
    if s.len() == 0 {
        0
    } else {
        crc_byte(crc_arc(s.drop_last()), s.last())
    }
}

const TABLE: [u16; 16] = [
    0x0000, 0xCC01, 0xD801, 0x1400, 0xF001, 0x3C00, 0x2800, 0xE401,
    0xA001, 0x6C00, 0x7800, 0xB401, 0x5000, 0x9C01, 0x8801, 0x4400,
];

/// The entries of `TABLE`, written out by index.
spec fn table_entry(n: u16) -> u16 {
    if n == 0 { 0x0000 } else if n == 1 { 0xCC01 } else if n == 2 { 0xD801 } else if n == 3 { 0x1400 }
    else if n == 4 { 0xF001 } else if n == 5 { 0x3C00 } else if n == 6 { 0x2800 } else if n == 7 { 0xE401 }
    else if n == 8 { 0xA001 } else if n == 9 { 0x6C00 } else if n == 10 { 0x7800 } else if n == 11 { 0xB401 }
    else if n == 12 { 0x5000 } else if n == 13 { 0x9C01 } else if n == 14 { 0x8801 } else { 0x4400 }
}

/// Table lookup: the nibble contribution of `n`, read from `TABLE`.
fn table(n: u16) -> (r: u16)
    requires
        n < 16,
    ensures
        r == crc_nibble(n),
{
    let r = TABLE[n as usize];
    assert(TABLE@ =~= seq![
        0x0000u16, 0xCC01, 0xD801, 0x1400, 0xF001, 0x3C00, 0x2800, 0xE401,
        0xA001, 0x6C00, 0x7800, 0xB401, 0x5000, 0x9C01, 0x8801, 0x4400,
    ]);
    assert(r == table_entry(n));
    assert(n < 16 ==> crc_nibble(n) == table_entry(n)) by (bit_vector);
    r
}

/// Compute CRC-16/ARC over `data`.
pub fn crc16(data: &[u8]) -> (r: u16)
    ensures
        r == crc_arc(data@),
{
    let mut crc: u16 = 0;
    let mut i: usize = 0;
    while i < data.len()
        invariant
            i <= data.len(),
            crc == crc_arc(data@.take(i as int)),
        decreases data.len() - i,
    {
        let b = data[i];
        assert(crc & 0xF < 16 && b & 0xF < 16 && b >> 4 < 16) by (bit_vector);
        let t1 = table(crc & 0xF);
        let t2 = table((b & 0xF) as u16);
        let tmp = ((crc >> 4) & 0x0FFF) ^ t1 ^ t2;
        assert(tmp & 0xF < 16) by (bit_vector);
        let t3 = table(tmp & 0xF);
        let t4 = table((b >> 4) as u16);
        let next = ((tmp >> 4) & 0x0FFF) ^ t3 ^ t4;
        proof {
            lemma_table_step(crc, b);
            assert(data@.take(i + 1).drop_last() =~= data@.take(i as int));
        }
        crc = next;
        i += 1;
    }
    assert(data@.take(i as int) =~= data@);
    crc
}

/// The two-lookup nibble step computes the bitwise register update of a byte.
proof fn lemma_table_step(crc: u16, b: u8)
    ensures
        ({
            let tmp = ((crc >> 4) & 0x0FFF) ^ crc_nibble(crc & 0xF) ^ crc_nibble((b & 0xF) as u16);
            ((tmp >> 4) & 0x0FFF) ^ crc_nibble(tmp & 0xF) ^ crc_nibble((b >> 4) as u16)
        }) == crc_byte(crc, b),
{
    assert(({
        let tmp = ((crc >> 4) & 0x0FFF) ^ crc_nibble(crc & 0xF) ^ crc_nibble((b & 0xF) as u16);
        ((tmp >> 4) & 0x0FFF) ^ crc_nibble(tmp & 0xF) ^ crc_nibble((b >> 4) as u16)
    }) == crc_nibble(crc_nibble(crc ^ (b as u16)))) by (bit_vector);
}

/// A message followed by its own CRC, least significant byte first, checks
/// to zero: the CRC of the whole is 0.
pub proof fn lemma_crc_residue(data: Seq<u8>)
    ensures
        ({
            let c = crc_arc(data);
            crc_arc(data + seq![(c & 0xFF) as u8, (c >> 8) as u8]) == 0
        }),
{
    let c = crc_arc(data);
    let lo = (c & 0xFF) as u8;
    let hi = (c >> 8) as u8;
    let s1 = data + seq![lo];
    let s2 = s1 + seq![hi];
    assert(data + seq![lo, hi] =~= s2);
    assert(s2.drop_last() =~= s1);
    assert(s1.drop_last() =~= data);
    // Absorbing the low byte of the register clears it and leaves the high byte.
    let x = c ^ (lo as u16);
    assert(x == c & 0xFF00) by (bit_vector)
        requires
            lo == (c & 0xFF) as u8,
            x == c ^ (lo as u16),
    ;
    assert(x & 0xFF == 0 && x >> 8 == c >> 8) by (bit_vector)
        requires
            x == c & 0xFF00,
    ;
    assert(crc_nibble(crc_nibble(x)) == x >> 8) by (bit_vector)
        requires
            x & 0xFF == 0,
    ;
    assert(crc_byte(c, lo) == c >> 8);
    assert((c >> 8) ^ (hi as u16) == 0) by (bit_vector)
        requires
            hi == (c >> 8) as u8,
    ;
    assert(crc_nibble(crc_nibble(0u16)) == 0) by (bit_vector);
    assert(s1.last() == lo && s2.last() == hi);
    assert(crc_arc(s1) == crc_byte(c, lo));
    assert(crc_arc(s1) == c >> 8);
    assert(crc_byte(c >> 8, hi) == 0);
    assert(crc_arc(s2) == crc_byte(crc_arc(s1), hi));
}

} // verus!
