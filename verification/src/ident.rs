//! Random-looking shot identifiers in UUID v4 form.
//!
//! The identifier is drawn from a xorshift128+ generator seeded with the
//! nanoseconds since the Unix epoch, with the version (4) and variant bits
//! set, and written as 32 lowercase hex digits grouped 8-4-4-4-12.

use vstd::prelude::*;
use crate::multilink::le64;
use crate::text::string_of_chars;

verus! {

/// One step of xorshift128+: the new pair of state words.
pub open spec fn xorshift_next(s0: u64, s1: u64) -> (u64, u64) {
    let x1 = s0 ^ (s0 << 23u64);
    let x2 = x1 ^ (x1 >> 17u64);
    let x3 = x2 ^ s1;
    let x4 = x3 ^ (s1 >> 26u64);
    (s1, x4)
}

/// The generator state a seed gives: its low 64 bits, and the low 64 bits of
/// its (wrapping) product with 6364136223846793005; a zero word is replaced
/// by a fixed constant.
pub open spec fn seed_state(seed: u128) -> (u64, u64) {
    let a = seed as u64;
    let b = seed.wrapping_mul(6_364_136_223_846_793_005u128) as u64;
    (
        if a == 0 { 0x1234_5678_9abc_def0u64 } else { a },
        if b == 0 { 0xfedc_ba98_7654_3210u64 } else { b },
    )
}

/// The sixteen identifier bytes for a seed: two outputs of the generator,
/// each written least significant byte first, then the version nibble of
/// byte 6 set to 4 and the variant bits of byte 8 set to `10`.
pub open spec fn uuid_bytes(seed: u128) -> Seq<u8> {
    let (a0, b0) = seed_state(seed);
    let (a1, b1) = xorshift_next(a0, b0);
    let (a2, b2) = xorshift_next(a1, b1);
    let raw = le64(a1.wrapping_add(b1)) + le64(a2.wrapping_add(b2));
    raw.update(6, (raw[6] & 0x0f) | 0x40).update(8, (raw[8] & 0x3f) | 0x80)
}

/// The lowercase hex digit of `n` (below 16).
pub open spec fn hex_char(n: u8) -> char {
    if n < 10 { (48 + n) as char } else { (87 + n) as char }
}

/// The first `i` bytes of `b` written as two hex digits each, with a dash
/// after bytes 4, 6, 8 and 10.
pub open spec fn uuid_text_upto(b: Seq<u8>, i: nat) -> Seq<char>
    decreases i,
{
    if i == 0 {
        Seq::empty()
    } else {
        let k = (i - 1) as int;
        let digits = seq![hex_char(b[k] >> 4u8), hex_char(b[k] & 0x0f)];
        let dash = if k == 3 || k == 5 || k == 7 || k == 9 { seq!['-'] } else { Seq::empty() };
        uuid_text_upto(b, (i - 1) as nat) + digits + dash
    }
}

/// The text of an identifier: its sixteen bytes in hex, grouped 8-4-4-4-12.
pub open spec fn uuid_text(b: Seq<u8>) -> Seq<char> {
    uuid_text_upto(b, 16)
}

/// A point in time from the system clock.
#[verifier::external_type_specification]
#[verifier::external_body]
pub struct ExSystemTime(std::time::SystemTime);

/// The error of a system time before the one it is measured from.
#[verifier::external_type_specification]
#[verifier::external_body]
pub struct ExSystemTimeError(std::time::SystemTimeError);

/// Calls `SystemTime::now`. Nothing is claimed of the result, which rests
/// on the clock.
#[verifier::external_body]
fn system_now() -> std::time::SystemTime {
    std::time::SystemTime::now()
}

/// Calls `SystemTime::duration_since(UNIX_EPOCH)`: the time since the Unix
/// epoch, or an error when `t` is before it. Nothing is claimed of the result.
#[verifier::external_body]
fn since_unix_epoch(t: &std::time::SystemTime) -> Result<std::time::Duration, std::time::SystemTimeError> {
    t.duration_since(std::time::UNIX_EPOCH)
}

/// The nanoseconds of the longest duration, `Duration::MAX`: `u64::MAX`
/// seconds and 999 999 999 nanoseconds.
pub const MAX_DURATION_NANOS: u128 = 18_446_744_073_709_551_615_999_999_999;

/// Calls `Duration::as_nanos`: the whole nanoseconds of `d`. The contract
/// claims only that they are at most those of `Duration::MAX`, as a duration
/// is opaque here.
#[verifier::external_body]
fn whole_nanos(d: &std::time::Duration) -> (r: u128)
    ensures
        r <= MAX_DURATION_NANOS,
{
    d.as_nanos()
}

/// Nanoseconds since the Unix epoch, zero when the clock is before it: the
/// nanoseconds of a duration, so at most those of `Duration::MAX`.
fn unix_nanos() -> (r: u128)
    ensures
        r <= MAX_DURATION_NANOS,
{
    match since_unix_epoch(&system_now()) {
        Ok(d) => whole_nanos(&d),
        Err(_) => 0,
    }
}

fn hex_digit(n: u8) -> (r: char)
    requires
        n < 16,
    ensures
        r == hex_char(n),
{
    if n < 10 { (48 + n) as char } else { (87 + n) as char }
}

fn push_le64(out: &mut Vec<u8>, v: u64)
    ensures
        final(out)@ == old(out)@ + le64(v),
{
    out.push((v & 0xFF) as u8);
    out.push(((v >> 8) & 0xFF) as u8);
    out.push(((v >> 16) & 0xFF) as u8);
    out.push(((v >> 24) & 0xFF) as u8);
    out.push(((v >> 32) & 0xFF) as u8);
    out.push(((v >> 40) & 0xFF) as u8);
    out.push(((v >> 48) & 0xFF) as u8);
    out.push((v >> 56) as u8);
    assert(final(out)@ =~= old(out)@ + le64(v));
}

/// The identifier bytes for a seed (see `uuid_bytes`).
pub fn uuid_bytes_from_seed(seed: u128) -> (r: Vec<u8>)
    ensures
        r@ == uuid_bytes(seed),
{
    // xorshift128+ with time-based seed
    let mut s0 = seed as u64;
    let mut s1 = seed.wrapping_mul(6_364_136_223_846_793_005) as u64;
    if s0 == 0 {
        s0 = 0x1234_5678_9abc_def0;
    }
    if s1 == 0 {
        s1 = 0xfedc_ba98_7654_3210;
    }
    let mut bytes: Vec<u8> = Vec::new();
    let mut round: usize = 0;
    while round < 2
        invariant
            round <= 2,
            ({
                let (a0, b0) = seed_state(seed);
                let (a1, b1) = xorshift_next(a0, b0);
                let (a2, b2) = xorshift_next(a1, b1);
                &&& round == 0 ==> (s0, s1) == (a0, b0) && bytes@ == Seq::<u8>::empty()
                &&& round == 1 ==> (s0, s1) == (a1, b1) && bytes@ == le64(a1.wrapping_add(b1))
                &&& round == 2 ==> (s0, s1) == (a2, b2)
                    && bytes@ == le64(a1.wrapping_add(b1)) + le64(a2.wrapping_add(b2))
            }),
        decreases 2 - round,
    {
        let mut x = s0;
        let y = s1;
        s0 = y;
        x = x ^ (x << 23);
        x = x ^ (x >> 17);
        x = x ^ y;
        x = x ^ (y >> 26);
        s1 = x;
        let val = s0.wrapping_add(s1);
        push_le64(&mut bytes, val);
        round += 1;
    }
    // Set version 4 and variant bits
    let b6 = (bytes[6] & 0x0f) | 0x40;
    bytes.set(6, b6);
    let b8 = (bytes[8] & 0x3f) | 0x80;
    bytes.set(8, b8);
    bytes
}

/// The text of identifier bytes (see `uuid_text`).
pub fn uuid_string(bytes: &[u8]) -> (r: String)
    requires
        bytes@.len() == 16,
    ensures
        r@ == uuid_text(bytes@),
{
    let mut cs: Vec<char> = Vec::new();
    let mut i: usize = 0;
    while i < 16
        invariant
            i <= 16,
            bytes@.len() == 16,
            cs@ == uuid_text_upto(bytes@, i as nat),
        decreases 16 - i,
    {
        let b = bytes[i];
        assert(b >> 4u8 < 16) by (bit_vector);
        assert(b & 0x0f < 16) by (bit_vector);
        cs.push(hex_digit(b >> 4));
        cs.push(hex_digit(b & 0x0f));
        if i == 3 || i == 5 || i == 7 || i == 9 {
            cs.push('-');
        }
        proof {
            let k = i as int;
            let digits = seq![hex_char(bytes@[k] >> 4u8), hex_char(bytes@[k] & 0x0f)];
            let dash = if k == 3 || k == 5 || k == 7 || k == 9 { seq!['-'] } else { Seq::<char>::empty() };
            assert(cs@ =~= uuid_text_upto(bytes@, i as nat) + digits + dash);
        }
        i += 1;
    }
    string_of_chars(cs)
}

/// The identifier for a seed: `uuid_text(uuid_bytes(seed))`.
pub fn uuid_v4_from_seed(seed: u128) -> (r: String)
    ensures
        r@ == uuid_text(uuid_bytes(seed)),
{
    let bytes = uuid_bytes_from_seed(seed);
    uuid_string(bytes.as_slice())
}

/// Generate a UUID v4 string, seeded from the clock: the identifier for the
/// nanoseconds since the Unix epoch (see `uuid_v4_from_seed`).
pub fn uuid_v4() -> (r: String)
    ensures
        exists|seed: u128| r@ == #[trigger] uuid_text(uuid_bytes(seed)),
{
    let seed = unix_nanos();
    uuid_v4_from_seed(seed)
}

} // verus!
