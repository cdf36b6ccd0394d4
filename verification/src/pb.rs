//! Protobuf wire-format primitives, taken from `prost`, and a field walker
//! that gathers the fields of one message type from its encoded bytes.

use vstd::prelude::*;
use prost::DecodeError as ProtobufError;
use crate::gfdi::u32_le;

verus! {

// ── Varints ──

/// Decoding of a LEB128 varint from byte `k` on, as `prost` reads it: at
/// most ten bytes, the tenth of which must be 0 or 1. Returns the value and
/// the number of bytes up to and including the last one.
pub open spec fn varint_from(s: Seq<u8>, k: nat) -> Option<(int, nat)>
    decreases 10 - k,
{
    if k >= 10 || k >= s.len() {
        None
    } else if s[k as int] < 0x80 {
        if k == 9 && s[k as int] >= 2 {
            None
        } else {
            Some((s[k as int] as int, k + 1))
        }
    } else {
        match varint_from(s, k + 1) {
            None => None,
            Some((v, n)) => Some(((s[k as int] - 0x80) + 128 * v, n)),
        }
    }
}

/// The varint at the start of `s`: its value and its length in bytes.
pub open spec fn varint_spec(s: Seq<u8>) -> Option<(int, nat)> {
    varint_from(s, 0)
}

/// The LEB128 encoding of `v` that `prost` writes: seven bits per byte,
/// least significant first, high bit set on all but the last byte.
pub open spec fn varint_bytes(v: u64) -> Seq<u8>
    decreases v,
{
    if v < 0x80 {
        seq![v as u8]
    } else {
        proof {
            assert(v >= 0x80 ==> v >> 7 < v) by (bit_vector);
        }
        seq![((v & 0x7F) | 0x80) as u8] + varint_bytes(v >> 7)
    }
}

/// Calls `prost::encoding::decode_varint` on `data[pos..end]`. The contract
/// claims that it succeeds exactly when `varint_spec` finds a varint there,
/// with that value, and hands back how many bytes of the range remain after it.
#[verifier::external_body]
fn decode_varint_at(data: &[u8], pos: usize, end: usize) -> (r: Result<(u64, usize), ProtobufError>)
    requires
        pos <= end <= data@.len(),
    ensures
        match r {
            Ok((v, rem)) => rem <= end - pos && varint_spec(data@.subrange(pos as int, end as int))
                == Some((v as int, ((end - pos) - rem) as nat)),
            Err(_) => varint_spec(data@.subrange(pos as int, end as int)).is_none(),
        },
{
    let mut buf: &[u8] = &data[pos..end];
    let v = prost::encoding::decode_varint(&mut buf)?;
    Ok((v, buf.len()))
}

/// Calls `prost::encoding::encode_varint` with a `Vec<u8>` as the buffer.
/// The contract claims that it appends the LEB128 encoding of `v`.
#[verifier::external_body]
pub(crate) fn encode_varint(v: u64, out: &mut Vec<u8>)
    ensures
        final(out)@ == old(out)@ + varint_bytes(v),
{
    prost::encoding::encode_varint(v, out)
}

// ── Keys and wire types ──

pub const WIRE_VARINT: u8 = 0;
pub const WIRE_SIXTY_FOUR_BIT: u8 = 1;
pub const WIRE_LENGTH_DELIMITED: u8 = 2;
pub const WIRE_START_GROUP: u8 = 3;
pub const WIRE_END_GROUP: u8 = 4;
pub const WIRE_THIRTY_TWO_BIT: u8 = 5;

/// Calls `prost::encoding::encode_key` with a `Vec<u8>` as the buffer (the
/// wire type converted by `WireType::try_from`). The contract claims that it
/// appends the varint of `(tag << 3) | wire_type`.
#[verifier::external_body]
pub(crate) fn encode_key(tag: u32, wire_type: u8, out: &mut Vec<u8>)
    requires
        1 <= tag <= 0x1FFF_FFFF,
        wire_type <= 5,
    ensures
        final(out)@ == old(out)@ + varint_bytes((tag * 8 + wire_type) as u64),
{
    if let Ok(wt) = prost::encoding::WireType::try_from(u64::from(wire_type)) {
        prost::encoding::encode_key(tag, wt, out);
    }
}

/// The key at the start of `s` as `prost::encoding::decode_key` reads it:
/// a varint of at most `u32::MAX` whose low three bits are a wire type (at
/// most 5) and whose remaining bits, the tag, are not zero. Returns the
/// tag, the wire type and the key's length.
pub open spec fn key_spec(s: Seq<u8>) -> Option<(u32, u8, nat)> {
    match varint_spec(s) {
        None => None,
        Some((k, n)) => if k > u32::MAX || k % 8 > 5 || k / 8 < 1 {
            None
        } else {
            Some(((k / 8) as u32, (k % 8) as u8, n))
        },
    }
}

/// Calls `prost::encoding::decode_key` on `data[pos..end]`. The contract
/// claims that it succeeds exactly when `key_spec` finds a key there, with
/// that tag and wire type, and hands back how many bytes of the range remain.
#[verifier::external_body]
fn decode_key_at(data: &[u8], pos: usize, end: usize) -> (r: Result<(u32, u8, usize), ProtobufError>)
    requires
        pos <= end <= data@.len(),
    ensures
        match r {
            Ok((tag, wt, rem)) => rem <= end - pos && key_spec(data@.subrange(pos as int, end as int))
                == Some((tag, wt, ((end - pos) - rem) as nat)),
            Err(_) => key_spec(data@.subrange(pos as int, end as int)).is_none(),
        },
{
    let mut buf: &[u8] = &data[pos..end];
    let (tag, wt) = prost::encoding::decode_key(&mut buf)?;
    Ok((tag, wt as u8, buf.len()))
}

/// Calls `prost::encoding::check_wire_type` (the wire types converted by
/// `WireType::try_from`). The contract claims that it succeeds exactly when
/// the two wire types are equal.
#[verifier::external_body]
fn check_wire_type(expected: u8, actual: u8) -> (r: Result<(), ProtobufError>)
    requires
        expected <= 5,
        actual <= 5,
    ensures
        r is Ok <==> expected == actual,
{
    let e = prost::encoding::WireType::try_from(u64::from(expected))?;
    let a = prost::encoding::WireType::try_from(u64::from(actual))?;
    prost::encoding::check_wire_type(e, a)
}

/// How many bytes `prost::encoding::skip_field` consumes when it skips a
/// group (wire type 3) with the given tag at the start of `data`, or `None`
/// when it refuses the group.
pub uninterp spec fn group_len(tag: u32, data: Seq<u8>) -> Option<nat>;

/// How many bytes of `s` the value of a field of wire type `wt` occupies,
/// as `prost::encoding::skip_field` skips it.
pub open spec fn skip_spec(wt: u8, tag: u32, s: Seq<u8>) -> Option<nat> {
    if wt == WIRE_VARINT {
        match varint_spec(s) {
            None => None,
            Some((_, n)) => Some(n),
        }
    } else if wt == WIRE_SIXTY_FOUR_BIT {
        if s.len() >= 8 { Some(8) } else { None }
    } else if wt == WIRE_LENGTH_DELIMITED {
        match varint_spec(s) {
            None => None,
            Some((l, n)) => if l <= s.len() - n { Some((n + l) as nat) } else { None },
        }
    } else if wt == WIRE_THIRTY_TWO_BIT {
        if s.len() >= 4 { Some(4) } else { None }
    } else if wt == WIRE_START_GROUP {
        match group_len(tag, s) {
            None => None,
            Some(n) => if n <= s.len() { Some(n) } else { None },
        }
    } else {
        None
    }
}

/// Calls `prost::encoding::skip_field` on `data[pos..end]` with a fresh
/// decode context. The contract claims that it consumes the value of a
/// field of the given wire type as `skip_spec` states (a varint; 8 or 4
/// bytes; a length and that many bytes; an end-group key is refused) and
/// hands back how many bytes of the range remain. For a group, how far it
/// skips is left to the named `group_len`.
#[verifier::external_body]
fn skip_field_at(wt: u8, tag: u32, data: &[u8], pos: usize, end: usize) -> (r: Result<usize, ProtobufError>)
    requires
        pos <= end <= data@.len(),
        wt <= 5,
    ensures
        match r {
            Ok(rem) => rem <= end - pos && skip_spec(wt, tag, data@.subrange(pos as int, end as int))
                == Some(((end - pos) - rem) as nat),
            Err(_) => skip_spec(wt, tag, data@.subrange(pos as int, end as int)).is_none(),
        },
        wt == WIRE_START_GROUP && r is Ok ==> group_len(tag, data@.subrange(pos as int, end as int))
            == Some(((end - pos) - r->Ok_0) as nat),
{
    let w = prost::encoding::WireType::try_from(u64::from(wt))?;
    let mut buf: &[u8] = &data[pos..end];
    prost::encoding::skip_field(w, tag, &mut buf, prost::encoding::DecodeContext::default())?;
    Ok(buf.len())
}


// ── Fields ──

/// One field as the walker sees it: tag, wire type, how many bytes it
/// occupies, its value (a varint's value, or a 32-bit field's bits), and for
/// a length-delimited field the offsets of its contents.
pub struct FieldSpec {
    pub tag: u32,
    pub wire: u8,
    pub len: nat,
    pub value: int,
    pub start: nat,
    pub end: nat,
}

/// The field at the start of `s`: a key, then a value that `prost` can skip.
pub open spec fn field_spec(s: Seq<u8>) -> Option<FieldSpec> {
    match key_spec(s) {
        None => None,
        Some((tag, wt, kl)) => {
            let rest = s.skip(kl as int);
            match skip_spec(wt, tag, rest) {
                None => None,
                Some(fl) => Some(FieldSpec {
                    tag,
                    wire: wt,
                    len: kl + fl,
                    value: if wt == WIRE_VARINT {
                        varint_spec(rest).unwrap().0
                    } else if wt == WIRE_THIRTY_TWO_BIT {
                        u32_le(rest[0], rest[1], rest[2], rest[3]) as int
                    } else {
                        0
                    },
                    start: if wt == WIRE_LENGTH_DELIMITED { kl + varint_spec(rest).unwrap().1 } else { kl + fl },
                    end: kl + fl,
                }),
            }
        },
    }
}

/// A field found in `data`, with absolute positions.
pub struct Field {
    pub tag: u32,
    pub wire: u8,
    pub next: usize,
    pub value: u64,
    pub start: usize,
    pub end: usize,
}

/// Read the field at `data[lo..hi]`.
fn next_field(data: &[u8], lo: usize, hi: usize) -> (r: Result<Field, ProtobufError>)
    requires
        lo < hi <= data@.len(),
    ensures
        match r {
            Ok(f) => field_spec(data@.subrange(lo as int, hi as int)) matches Some(fs) && {
                &&& f.tag == fs.tag
                &&& f.wire == fs.wire
                &&& f.next == lo + fs.len
                &&& f.value == fs.value
                &&& f.start == lo + fs.start
                &&& f.end == lo + fs.end
                &&& lo < f.next <= hi
                &&& f.start <= f.end == f.next
            },
            Err(_) => field_spec(data@.subrange(lo as int, hi as int)).is_none(),
        },
{
    let ghost s = data@.subrange(lo as int, hi as int);
    let (tag, wt, krem) = decode_key_at(data, lo, hi)?;
    proof {
        lemma_varint_len(s, 0);
    }
    let p = hi - krem;
    let ghost kl = (p - lo) as nat;
    assert(data@.subrange(p as int, hi as int) =~= s.skip(kl as int));
    let frem = skip_field_at(wt, tag, data, p, hi)?;
    let next = hi - frem;
    let mut value: u64 = 0;
    let mut start: usize = next;
    if wt == WIRE_VARINT {
        match decode_varint_at(data, p, hi) {
            Ok((v, _)) => {
                value = v;
            },
            Err(e) => {
                return Err(e);
            },
        }
    } else if wt == WIRE_THIRTY_TWO_BIT {
        value = ((data[p] as u32) | ((data[p + 1] as u32) << 8) | ((data[p + 2] as u32) << 16)
            | ((data[p + 3] as u32) << 24)) as u64;
    } else if wt == WIRE_LENGTH_DELIMITED {
        match decode_varint_at(data, p, hi) {
            Ok((_, vrem)) => {
                start = hi - vrem;
            },
            Err(e) => {
                return Err(e);
            },
        }
    }
    proof {
        let rest = s.skip(kl as int);
        if wt == WIRE_THIRTY_TWO_BIT {
            assert(rest[0] == data@[p as int] && rest[1] == data@[p + 1] && rest[2] == data@[p + 2] && rest[3] == data@[p + 3]);
        }
        if wt == WIRE_LENGTH_DELIMITED {
            assert(start <= next);
        }
    }
    Ok(Field { tag, wire: wt, next, value, start, end: next })
}

// ── Message walking ──

/// How a message type reads one of its fields.
#[derive(Debug, Clone, Copy, PartialEq, Eq, Structural)]
pub enum Kind {
    /// A varint scalar (integer or enum); the last occurrence wins.
    Int,
    /// A 32-bit scalar (a float's bits); the last occurrence wins.
    Float,
    /// A message (optional or repeated); every occurrence is kept.
    Msg,
    /// A repeated enum, packed or not; its values are checked, not kept.
    Enums,
}

/// The message types the walker knows.
#[derive(Debug, Clone, Copy, PartialEq, Eq, Structural)]
pub enum Msg {
    Smart,
    EventSharing,
    SubscribeRequest,
    AlertMessage,
    SubscribeResponse,
    AlertStatus,
    AlertNotification,
    AlertDetails,
    State,
    Metrics,
    BallMetrics,
    ClubMetrics,
    SwingMetrics,
    LmError,
    Tilt,
    CalibrationStatus,
    LaunchMonitor,
    WakeUpResponse,
    /// A message whose fields are all skipped (only its encoding is checked).
    Opaque,
}

/// Number of field slots of a message type.
pub open spec fn n_slots(m: Msg) -> nat {
    match m {
        Msg::Smart => 2,
        Msg::EventSharing => 4,
        Msg::SubscribeRequest => 1,
        Msg::AlertMessage => 1,
        Msg::SubscribeResponse => 1,
        Msg::AlertStatus => 2,
        Msg::AlertNotification => 2,
        Msg::AlertDetails => 4,
        Msg::State => 1,
        Msg::Metrics => 5,
        Msg::BallMetrics => 7,
        Msg::ClubMetrics => 4,
        Msg::SwingMetrics => 5,
        Msg::LmError => 3,
        Msg::Tilt => 2,
        Msg::CalibrationStatus => 2,
        Msg::LaunchMonitor => 3,
        Msg::WakeUpResponse => 1,
        Msg::Opaque => 0,
    }
}

/// The slot and kind of field `tag` of message type `m`; `None` for fields
/// the type does not know, which are skipped.
pub open spec fn kind_of(m: Msg, tag: u32) -> Option<(nat, Kind)> {
    match m {
        Msg::Smart => if tag == 30 { Some((0, Kind::Msg)) } else if tag == 38 { Some((1, Kind::Msg)) } else { None },
        Msg::EventSharing => if 1 <= tag <= 3 { Some(((tag - 1) as nat, Kind::Msg)) } else if tag == 4 || tag == 5 {
            Some((3, Kind::Msg))
        } else {
            None
        },
        Msg::SubscribeRequest => if tag == 1 { Some((0, Kind::Msg)) } else { None },
        Msg::AlertMessage => if tag == 1 { Some((0, Kind::Int)) } else { None },
        Msg::SubscribeResponse => if tag == 1 { Some((0, Kind::Msg)) } else { None },
        Msg::AlertStatus => if 1 <= tag <= 2 { Some(((tag - 1) as nat, Kind::Int)) } else { None },
        Msg::AlertNotification => if tag == 1 { Some((0, Kind::Enums)) } else if tag == 1001 { Some((1, Kind::Msg)) } else { None },
        Msg::AlertDetails => if 1 <= tag <= 4 { Some(((tag - 1) as nat, Kind::Msg)) } else { None },
        Msg::State => if tag == 1 { Some((0, Kind::Int)) } else { None },
        Msg::Metrics => if 1 <= tag <= 2 { Some(((tag - 1) as nat, Kind::Int)) } else if 3 <= tag <= 5 {
            Some(((tag - 1) as nat, Kind::Msg))
        } else {
            None
        },
        Msg::BallMetrics => if 1 <= tag <= 5 { Some(((tag - 1) as nat, Kind::Float)) } else if 6 <= tag <= 7 {
            Some(((tag - 1) as nat, Kind::Int))
        } else {
            None
        },
        Msg::ClubMetrics => if 1 <= tag <= 4 { Some(((tag - 1) as nat, Kind::Float)) } else { None },
        Msg::SwingMetrics => if 1 <= tag <= 5 { Some(((tag - 1) as nat, Kind::Int)) } else { None },
        Msg::LmError => if 1 <= tag <= 2 { Some(((tag - 1) as nat, Kind::Int)) } else if tag == 3 { Some((2, Kind::Msg)) } else { None },
        Msg::Tilt => if 1 <= tag <= 2 { Some(((tag - 1) as nat, Kind::Float)) } else { None },
        Msg::CalibrationStatus => if 1 <= tag <= 2 { Some(((tag - 1) as nat, Kind::Int)) } else { None },
        Msg::LaunchMonitor => if tag == 3 { Some((0, Kind::Msg)) } else if tag == 4 { Some((1, Kind::Msg)) } else if 1 <= tag <= 12 {
            Some((2, Kind::Msg))
        } else {
            None
        },
        Msg::WakeUpResponse => if tag == 1 { Some((0, Kind::Int)) } else { None },
        Msg::Opaque => None,
    }
}

fn n_slots_of(m: Msg) -> (r: usize)
    ensures
        r == n_slots(m),
{
    match m {
        Msg::Smart => 2,
        Msg::EventSharing => 4,
        Msg::SubscribeRequest => 1,
        Msg::AlertMessage => 1,
        Msg::SubscribeResponse => 1,
        Msg::AlertStatus => 2,
        Msg::AlertNotification => 2,
        Msg::AlertDetails => 4,
        Msg::State => 1,
        Msg::Metrics => 5,
        Msg::BallMetrics => 7,
        Msg::ClubMetrics => 4,
        Msg::SwingMetrics => 5,
        Msg::LmError => 3,
        Msg::Tilt => 2,
        Msg::CalibrationStatus => 2,
        Msg::LaunchMonitor => 3,
        Msg::WakeUpResponse => 1,
        Msg::Opaque => 0,
    }
}

fn kind_of_field(m: Msg, tag: u32) -> (r: Option<(usize, Kind)>)
    ensures
        match r {
            None => kind_of(m, tag).is_none(),
            Some((slot, k)) => kind_of(m, tag) == Some((slot as nat, k)) && slot < n_slots(m),
        },
{
    match m {
        Msg::Smart => if tag == 30 { Some((0, Kind::Msg)) } else if tag == 38 { Some((1, Kind::Msg)) } else { None },
        Msg::EventSharing => if 1 <= tag && tag <= 3 { Some(((tag - 1) as usize, Kind::Msg)) } else if tag == 4 || tag == 5 {
            Some((3, Kind::Msg))
        } else {
            None
        },
        Msg::SubscribeRequest => if tag == 1 { Some((0, Kind::Msg)) } else { None },
        Msg::AlertMessage => if tag == 1 { Some((0, Kind::Int)) } else { None },
        Msg::SubscribeResponse => if tag == 1 { Some((0, Kind::Msg)) } else { None },
        Msg::AlertStatus => if 1 <= tag && tag <= 2 { Some(((tag - 1) as usize, Kind::Int)) } else { None },
        Msg::AlertNotification => if tag == 1 { Some((0, Kind::Enums)) } else if tag == 1001 { Some((1, Kind::Msg)) } else { None },
        Msg::AlertDetails => if 1 <= tag && tag <= 4 { Some(((tag - 1) as usize, Kind::Msg)) } else { None },
        Msg::State => if tag == 1 { Some((0, Kind::Int)) } else { None },
        Msg::Metrics => if 1 <= tag && tag <= 2 { Some(((tag - 1) as usize, Kind::Int)) } else if 3 <= tag && tag <= 5 {
            Some(((tag - 1) as usize, Kind::Msg))
        } else {
            None
        },
        Msg::BallMetrics => if 1 <= tag && tag <= 5 { Some(((tag - 1) as usize, Kind::Float)) } else if 6 <= tag && tag <= 7 {
            Some(((tag - 1) as usize, Kind::Int))
        } else {
            None
        },
        Msg::ClubMetrics => if 1 <= tag && tag <= 4 { Some(((tag - 1) as usize, Kind::Float)) } else { None },
        Msg::SwingMetrics => if 1 <= tag && tag <= 5 { Some(((tag - 1) as usize, Kind::Int)) } else { None },
        Msg::LmError => if 1 <= tag && tag <= 2 { Some(((tag - 1) as usize, Kind::Int)) } else if tag == 3 {
            Some((2, Kind::Msg))
        } else {
            None
        },
        Msg::Tilt => if 1 <= tag && tag <= 2 { Some(((tag - 1) as usize, Kind::Float)) } else { None },
        Msg::CalibrationStatus => if 1 <= tag && tag <= 2 { Some(((tag - 1) as usize, Kind::Int)) } else { None },
        Msg::LaunchMonitor => if tag == 3 { Some((0, Kind::Msg)) } else if tag == 4 { Some((1, Kind::Msg)) } else if 1 <= tag && tag <= 12 {
            Some((2, Kind::Msg))
        } else {
            None
        },
        Msg::WakeUpResponse => if tag == 1 { Some((0, Kind::Int)) } else { None },
        Msg::Opaque => None,
    }
}

/// A sequence of complete varints that fills `s` exactly (packed repeated values).
pub open spec fn packed_ok(s: Seq<u8>) -> bool
    decreases s.len(),
{
    if s.len() == 0 {
        true
    } else {
        match varint_spec(s) {
            None => false,
            Some((_, n)) => 0 < n <= s.len() && packed_ok(s.skip(n as int)),
        }
    }
}

/// What the walker has gathered of a message: the last value of each scalar
/// slot, and every message occurrence as `(slot, start, end)` in order.
pub type Gathered = (Seq<Option<u64>>, Seq<(usize, usize, usize)>);

/// Nothing gathered yet.
pub open spec fn gathered_init(m: Msg) -> Gathered {
    (Seq::new(n_slots(m), |i: int| None::<u64>), Seq::empty())
}

/// Take one field found at offset `lo` of `data` into what is gathered, or
/// refuse it (a known field with the wrong wire type, or a malformed packed
/// list). Unknown fields are skipped.
pub open spec fn apply_spec(data: Seq<u8>, m: Msg, acc: Gathered, f: FieldSpec, lo: int) -> Option<Gathered> {
    match kind_of(m, f.tag) {
        None => Some(acc),
        Some((slot, k)) => match k {
            Kind::Int => if f.wire == WIRE_VARINT {
                Some((acc.0.update(slot as int, Some(f.value as u64)), acc.1))
            } else {
                None
            },
            Kind::Float => if f.wire == WIRE_THIRTY_TWO_BIT {
                Some((acc.0.update(slot as int, Some(f.value as u64)), acc.1))
            } else {
                None
            },
            Kind::Msg => if f.wire == WIRE_LENGTH_DELIMITED {
                Some((acc.0, acc.1.push((slot as usize, (lo + f.start) as usize, (lo + f.end) as usize))))
            } else {
                None
            },
            Kind::Enums => if f.wire == WIRE_VARINT {
                Some(acc)
            } else if f.wire == WIRE_LENGTH_DELIMITED && packed_ok(data.subrange(lo + f.start, lo + f.end)) {
                Some(acc)
            } else {
                None
            },
        },
    }
}

/// Walk the fields of `data[lo..hi]` as message type `m`.
pub open spec fn gather_range(data: Seq<u8>, lo: int, hi: int, m: Msg, acc: Gathered) -> Option<Gathered>
    decreases hi - lo,
{
    if lo >= hi || hi > data.len() || lo < 0 {
        Some(acc)
    } else {
        match field_spec(data.subrange(lo, hi)) {
            None => None,
            Some(f) => if f.len == 0 || f.len > hi - lo {
                None
            } else {
                match apply_spec(data, m, acc, f, lo) {
                    None => None,
                    Some(a2) => gather_range(data, lo + f.len, hi, m, a2),
                }
            },
        }
    }
}

/// Walk the ranges `rs` of `data` in order as one message of type `m`
/// (later occurrences of a message merge into earlier ones).
pub open spec fn gather_ranges(data: Seq<u8>, rs: Seq<(usize, usize)>, m: Msg, acc: Gathered) -> Option<Gathered>
    decreases rs.len(),
{
    if rs.len() == 0 {
        Some(acc)
    } else {
        match gather_range(data, rs[0].0 as int, rs[0].1 as int, m, acc) {
            None => None,
            Some(a2) => gather_ranges(data, rs.drop_first(), m, a2),
        }
    }
}

/// What the walker gathers of a message of type `m` spread over `rs`.
pub open spec fn gather_spec(data: Seq<u8>, rs: Seq<(usize, usize)>, m: Msg) -> Option<Gathered> {
    gather_ranges(data, rs, m, gathered_init(m))
}

/// The ranges of the occurrences of slot `slot`, in order.
pub open spec fn ranges_of(occ: Seq<(usize, usize, usize)>, slot: usize) -> Seq<(usize, usize)>
    decreases occ.len(),
{
    if occ.len() == 0 {
        Seq::empty()
    } else {
        ranges_of(occ.drop_last(), slot) + (if occ.last().0 == slot {
            seq![(occ.last().1, occ.last().2)]
        } else {
            Seq::empty()
        })
    }
}

/// Every range lies within `n` bytes.
pub open spec fn ranges_within(rs: Seq<(usize, usize)>, n: nat) -> bool {
    forall|i: int| 0 <= i < rs.len() ==> #[trigger] rs[i].0 <= rs[i].1 <= n
}

/// Every occurrence lies within `n` bytes.
pub open spec fn occ_within(occ: Seq<(usize, usize, usize)>, n: nat) -> bool {
    forall|i: int| 0 <= i < occ.len() ==> #[trigger] occ[i].1 <= occ[i].2 <= n
}

fn check_packed(data: &[u8], lo: usize, hi: usize) -> (r: Result<(), ProtobufError>)
    requires
        lo <= hi <= data@.len(),
    ensures
        r is Ok <==> packed_ok(data@.subrange(lo as int, hi as int)),
{
    let mut pos = lo;
    while pos < hi
        invariant
            lo <= pos <= hi <= data@.len(),
            packed_ok(data@.subrange(lo as int, hi as int)) == packed_ok(data@.subrange(pos as int, hi as int)),
        decreases hi - pos,
    {
        let ghost s = data@.subrange(pos as int, hi as int);
        proof {
            lemma_varint_len(s, 0);
        }
        let (_, rem) = decode_varint_at(data, pos, hi)?;
        let ghost n = ((hi - pos) - rem) as nat;
        proof {
            assert(s.skip(n as int) =~= data@.subrange(pos + n, hi as int));
        }
        pos = hi - rem;
    }
    assert(data@.subrange(pos as int, hi as int) =~= Seq::<u8>::empty());
    Ok(())
}

proof fn lemma_varint_len(s: Seq<u8>, k: nat)
    ensures
        varint_from(s, k) matches Some((_, n)) ==> k < n <= s.len() && n <= 10,
    decreases 10 - k,
{
    if k < 10 && k < s.len() && s[k as int] >= 0x80 {
        lemma_varint_len(s, k + 1);
    }
}


/// Walk the ranges `rs` of `data` as one message of type `m`, gathering its
/// known fields.
pub fn gather(data: &[u8], rs: &Vec<(usize, usize)>, m: Msg) -> (r: Result<(Vec<Option<u64>>, Vec<(usize, usize, usize)>), ProtobufError>)
    requires
        ranges_within(rs@, data@.len()),
    ensures
        match r {
            Ok((sc, occ)) => gather_spec(data@, rs@, m) == Some((sc@, occ@)) && occ_within(occ@, data@.len())
                && sc@.len() == n_slots(m),
            Err(_) => gather_spec(data@, rs@, m).is_none(),
        },
{
    let n = n_slots_of(m);
    let mut scalars: Vec<Option<u64>> = Vec::new();
    let mut k: usize = 0;
    while k < n
        invariant
            k <= n,
            n == n_slots(m),
            scalars@ =~= Seq::new(k as nat, |i: int| None::<u64>),
        decreases n - k,
    {
        scalars.push(None);
        k += 1;
    }
    let mut occ: Vec<(usize, usize, usize)> = Vec::new();
    let mut i: usize = 0;
    assert(rs@.skip(0) =~= rs@);
    while i < rs.len()
        invariant
            i <= rs@.len(),
            ranges_within(rs@, data@.len()),
            scalars@.len() == n_slots(m),
            occ_within(occ@, data@.len()),
            gather_spec(data@, rs@, m) == gather_ranges(data@, rs@.skip(i as int), m, (scalars@, occ@)),
        decreases rs.len() - i,
    {
        let (lo, hi) = rs[i];
        assert(rs@[i as int].0 <= rs@[i as int].1 <= data@.len());
        let ghost acc0: Gathered = (scalars@, occ@);
        proof {
            assert(rs@.skip(i as int).drop_first() =~= rs@.skip(i + 1));
            assert(rs@.skip(i as int)[0] == rs@[i as int]);
        }
        let mut pos = lo;
        while pos < hi
            invariant
                lo <= pos <= hi <= data@.len(),
                scalars@.len() == n_slots(m),
                occ_within(occ@, data@.len()),
                gather_range(data@, lo as int, hi as int, m, acc0) == gather_range(data@, pos as int, hi as int, m, (scalars@, occ@)),
                gather_spec(data@, rs@, m) == gather_ranges(data@, rs@.skip(i as int), m, acc0),
                rs@.skip(i as int).len() > 0,
                rs@.skip(i as int)[0] == (lo, hi),
            decreases hi - pos,
        {
            let f = next_field(data, pos, hi)?;
            let ghost fs = field_spec(data@.subrange(pos as int, hi as int)).unwrap();
            match kind_of_field(m, f.tag) {
                None => {},
                Some((slot, kind)) => match kind {
                    Kind::Int => {
                        check_wire_type(WIRE_VARINT, f.wire)?;
                        scalars.set(slot, Some(f.value));
                    },
                    Kind::Float => {
                        check_wire_type(WIRE_THIRTY_TWO_BIT, f.wire)?;
                        scalars.set(slot, Some(f.value));
                    },
                    Kind::Msg => {
                        check_wire_type(WIRE_LENGTH_DELIMITED, f.wire)?;
                        occ.push((slot, f.start, f.end));
                    },
                    Kind::Enums => {
                        if f.wire != WIRE_VARINT {
                            check_wire_type(WIRE_LENGTH_DELIMITED, f.wire)?;
                            check_packed(data, f.start, f.end)?;
                        }
                    },
                },
            }
            pos = f.next;
        }
        i += 1;
    }
    assert(rs@.skip(i as int) =~= Seq::<(usize, usize)>::empty());
    Ok((scalars, occ))
}

/// The ranges of the occurrences of `slot`, in order.
pub fn ranges_of_slot(occ: &Vec<(usize, usize, usize)>, slot: usize) -> (r: Vec<(usize, usize)>)
    ensures
        r@ == ranges_of(occ@, slot),
        forall|n: nat| occ_within(occ@, n) ==> ranges_within(r@, n),
{
    let mut out: Vec<(usize, usize)> = Vec::new();
    let mut i: usize = 0;
    while i < occ.len()
        invariant
            i <= occ@.len(),
            out@ == ranges_of(occ@.take(i as int), slot),
            forall|j: int| 0 <= j < out@.len() ==> exists|k: int| 0 <= k < i && #[trigger] out@[j] == (occ@[k].1, occ@[k].2),
        decreases occ.len() - i,
    {
        let (s, a, b) = occ[i];
        let ghost old_out = out@;
        if s == slot {
            out.push((a, b));
        }
        proof {
            assert(occ@.take(i + 1).drop_last() =~= occ@.take(i as int));
            assert forall|j: int| 0 <= j < out@.len() implies exists|k: int| 0 <= k < i + 1 && #[trigger] out@[j] == (occ@[k].1, occ@[k].2) by {
                if j < old_out.len() {
                    let k = choose|k: int| 0 <= k < i && #[trigger] old_out[j] == (occ@[k].1, occ@[k].2);
                    assert(out@[j] == (occ@[k].1, occ@[k].2));
                } else {
                    assert(out@[j] == (occ@[i as int].1, occ@[i as int].2));
                }
            }
        }
        i += 1;
    }
    assert(occ@.take(i as int) =~= occ@);
    proof {
        assert forall|n: nat| occ_within(occ@, n) implies ranges_within(out@, n) by {
            assert forall|j: int| 0 <= j < out@.len() implies #[trigger] out@[j].0 <= out@[j].1 <= n by {
                let k = choose|k: int| 0 <= k < i && #[trigger] out@[j] == (occ@[k].1, occ@[k].2);
                assert(occ@[k].1 <= occ@[k].2 <= n);
            }
        }
    }
    out
}

} // verus!
