//! GFDI (Garmin Framework Device Interface) framing layer.
//!
//! Handles frame construction, parsing, CRC verification, COBS wrapping,
//! and the 5024/5050 handshake sequence.
//!
//! Wire format: `[0x00] [COBS(frame)] [0x00]`
//! Frame: `[length: u16 LE] [header: 2-4 bytes] [payload] [crc: u16 LE]`

use vstd::prelude::*;
use crate::cobs;
use crate::cobs::{decode_spec, encode_spec, roundtrips};
use crate::crc::{crc16, crc_arc};
use crate::error::Error;
use crate::multilink::{le16, le32};

verus! {

// ── Message types ──

pub const MSG_ACK: u16 = 5000;
pub const MSG_DEVICE_INFO: u16 = 5024;
pub const MSG_FIT_DEFINITION: u16 = 5011;
pub const MSG_FIT_DATA: u16 = 5012;
pub const MSG_CONFIGURATION: u16 = 5050;
pub const MSG_PROTOBUF_REQUEST: u16 = 5043;
pub const MSG_PROTOBUF_RESPONSE: u16 = 5044;

/// Capability bit for R10 launch monitor (SwingSensor).
pub const CAP_SWING_SENSOR: usize = 30;

/// Parsed GFDI frame.
#[derive(Debug, Clone)]
pub struct GfdiFrame {
    pub msg_type: u16,
    pub txn_id: Option<u8>,
    pub payload: Vec<u8>,
}

/// A parsed frame as plain values.
pub struct GfdiFrameView {
    pub msg_type: u16,
    pub txn_id: Option<u8>,
    pub payload: Seq<u8>,
}

impl View for GfdiFrame {
    type V = GfdiFrameView;

    open spec fn view(&self) -> GfdiFrameView {
        GfdiFrameView { msg_type: self.msg_type, txn_id: self.txn_id, payload: self.payload@ }
    }
}

/// Little-endian u16 from two bytes.
pub open spec fn u16_le(lo: u8, hi: u8) -> u16 {
    (lo as u16) | ((hi as u16) << 8)
}

/// Little-endian u32 from four bytes.
pub open spec fn u32_le(b0: u8, b1: u8, b2: u8, b3: u8) -> u32 {
    (b0 as u32) | ((b1 as u32) << 8) | ((b2 as u32) << 16) | ((b3 as u32) << 24)
}

/// What `parse_frame` makes of a decoded (post-COBS) frame: frames shorter
/// than 6 bytes and frames whose trailing CRC is not the CRC-16/ARC of the
/// bytes before it are refused; a header whose byte 3 has its high bit set
/// is the compressed form (`type - 5000`, transaction id), otherwise byte
/// 2-3 hold the message type.
pub open spec fn parse_frame_spec(f: Seq<u8>) -> Result<GfdiFrameView, Error> {
    if f.len() < 6 {
        Err(Error::FrameTooShort { len: f.len() as usize, min: 6 })
    } else {
        let crc_recv = u16_le(f[f.len() - 2], f[f.len() - 1]);
        let crc_calc = crc_arc(f.take(f.len() - 2));
        if crc_recv != crc_calc {
            Err(Error::Crc { expected: crc_calc, actual: crc_recv })
        } else {
            let payload = f.subrange(4, f.len() - 2);
            if f[3] & 0x80 != 0 {
                Ok(GfdiFrameView { msg_type: (f[2] + 5000) as u16, txn_id: Some(f[3] & 0x7F), payload })
            } else {
                Ok(GfdiFrameView { msg_type: u16_le(f[2], f[3]), txn_id: None, payload })
            }
        }
    }
}

/// The frame `build_frame` produces: `[length: u16] [msg_type: u16] [payload] [crc: u16]`,
/// the length taken modulo 2^16.
pub open spec fn build_frame_spec(msg_type: u16, payload: Seq<u8>) -> Seq<u8> {
    let body = le16(((6 + payload.len()) % 0x10000) as u16) + le16(msg_type) + payload;
    body + le16(crc_arc(body))
}

/// The ACK frame `build_ack` produces.
pub open spec fn ack_spec(orig_msg_type: u16, status: u8, payload: Seq<u8>) -> Seq<u8> {
    build_frame_spec(MSG_ACK, le16(orig_msg_type) + seq![status] + payload)
}

/// A frame as it travels on the wire: `[0x00] [COBS(frame)] [0x00]`.
pub open spec fn wrap_spec(frame: Seq<u8>) -> Seq<u8> {
    seq![0u8] + encode_spec(frame) + seq![0u8]
}

/// Append `v` to `out` as two little-endian bytes.
fn push_le16(out: &mut Vec<u8>, v: u16)
    ensures
        final(out)@ == old(out)@ + le16(v),
{
    out.push((v & 0xFF) as u8);
    out.push((v >> 8) as u8);
    assert(final(out)@ =~= old(out)@ + le16(v));
}

/// Append `v` to `out` as four little-endian bytes.
fn push_le32(out: &mut Vec<u8>, v: u32)
    ensures
        final(out)@ == old(out)@ + le32(v),
{
    out.push((v & 0xFF) as u8);
    out.push(((v >> 8) & 0xFF) as u8);
    out.push(((v >> 16) & 0xFF) as u8);
    out.push((v >> 24) as u8);
    assert(final(out)@ =~= old(out)@ + le32(v));
}

/// Append all of `data` to `out`.
fn push_all(out: &mut Vec<u8>, data: &[u8])
    ensures
        final(out)@ == old(out)@ + data@,
{
    let mut j: usize = 0;
    while j < data.len()
        invariant
            j <= data.len(),
            out@ == old(out)@ + data@.take(j as int),
        decreases data.len() - j,
    {
        out.push(data[j]);
        j += 1;
        assert(data@.take(j as int) =~= data@.take(j - 1) + seq![data@[j - 1]]);
    }
    assert(data@.take(j as int) =~= data@);
}

/// Copy of `data[a..b]`.
fn copy_range(data: &[u8], a: usize, b: usize) -> (r: Vec<u8>)
    requires
        a <= b <= data.len(),
    ensures
        r@ == data@.subrange(a as int, b as int),
{
    let mut out: Vec<u8> = Vec::new();
    let mut j = a;
    while j < b
        invariant
            a <= j <= b <= data.len(),
            out@ == data@.subrange(a as int, j as int),
        decreases b - j,
    {
        out.push(data[j]);
        j += 1;
        assert(data@.subrange(a as int, j as int) =~= data@.subrange(a as int, j - 1) + seq![data@[j - 1]]);
    }
    out
}

proof fn lemma_u16_le(v: u16)
    ensures
        u16_le(le16(v)[0], le16(v)[1]) == v,
{
    assert(((v & 0xFF) as u8 as u16) | (((v >> 8) as u8 as u16) << 8) == v) by (bit_vector);
}

// ── Frame parsing ──

/// Parse a decoded (post-COBS) GFDI frame.
///
/// # Errors
///
/// Returns `Err` if the frame is too short or CRC verification fails.
pub fn parse_frame(frame: &[u8]) -> (r: Result<GfdiFrame, Error>)
    ensures
        match r {
            Ok(f) => parse_frame_spec(frame@) == Ok::<GfdiFrameView, Error>(f@),
            Err(e) => parse_frame_spec(frame@) == Err::<GfdiFrameView, Error>(e),
        },
{
    let n = frame.len();
    if n < 6 {
        return Err(Error::FrameTooShort { len: n, min: 6 });
    }
    // Verify CRC (all bytes except last 2)
    let crc_recv = (frame[n - 2] as u16) | ((frame[n - 1] as u16) << 8);
    let body = &frame[0..n - 2];
    let crc_calc = crc16(body);
    assert(body@ =~= frame@.take(n - 2));
    if crc_recv != crc_calc {
        return Err(Error::Crc { expected: crc_calc, actual: crc_recv });
    }
    // Detect header variant: if byte[3] has high bit set, it's a txn_id message
    let (msg_type, txn_id) = if frame[3] & 0x80 != 0 {
        // Compressed header with transaction ID
        ((frame[2] as u16) + 5000, Some(frame[3] & 0x7F))
    } else {
        // Standard 4-byte header
        ((frame[2] as u16) | ((frame[3] as u16) << 8), None)
    };
    let payload = copy_range(frame, 4, n - 2);
    Ok(GfdiFrame { msg_type, txn_id, payload })
}

// ── Frame building ──

/// Build a raw GFDI frame with 4-byte header (no transaction ID).
///
/// Format: `[length: u16] [msg_type: u16] [payload] [crc: u16]`
pub fn build_frame(msg_type: u16, payload: &[u8]) -> (r: Vec<u8>)
    ensures
        r@ == build_frame_spec(msg_type, payload@),
{
    // length = 2 (length field) + 2 (msg_type) + payload + 2 (crc), modulo 2^16
    let length = ((payload.len() % 0x10000) as u16).wrapping_add(6);
    assert(length == ((6 + payload@.len()) % 0x10000) as u16);
    let mut frame: Vec<u8> = Vec::new();
    push_le16(&mut frame, length);
    push_le16(&mut frame, msg_type);
    push_all(&mut frame, payload);
    let crc = crc16(frame.as_slice());
    push_le16(&mut frame, crc);
    frame
}

/// Build an ACK (type 5000) response frame with 4-byte header.
///
/// Format: `[length: u16] [5000: u16] [orig_type: u16] [status: u8] [payload] [crc: u16]`
pub fn build_ack(orig_msg_type: u16, status: u8, payload: &[u8]) -> (r: Vec<u8>)
    ensures
        r@ == ack_spec(orig_msg_type, status, payload@),
{
    let mut ack_payload: Vec<u8> = Vec::new();
    push_le16(&mut ack_payload, orig_msg_type);
    ack_payload.push(status);
    push_all(&mut ack_payload, payload);
    assert(ack_payload@ =~= le16(orig_msg_type) + seq![status] + payload@);
    build_frame(MSG_ACK, ack_payload.as_slice())
}

/// COBS-encode a frame for transmission: `[0x00] [COBS(frame)] [0x00]`.
pub fn wrap_cobs(frame: &[u8]) -> (r: Vec<u8>)
    ensures
        r@ == wrap_spec(frame@),
{
    let encoded = cobs::encode(frame);
    let mut out: Vec<u8> = Vec::new();
    out.push(0x00);
    push_all(&mut out, encoded.as_slice());
    out.push(0x00);
    assert(out@ =~= wrap_spec(frame@));
    out
}

/// A standard-header frame parses back to its message type and payload,
/// with no transaction id, whenever the message type's high byte does not
/// have its top bit set (such a byte would read as a compressed header).
pub proof fn lemma_frame_roundtrip(msg_type: u16, payload: Seq<u8>)
    requires
        msg_type & 0x8000 == 0,
    ensures
        parse_frame_spec(build_frame_spec(msg_type, payload))
            == Ok::<GfdiFrameView, Error>(GfdiFrameView { msg_type, txn_id: None, payload }),
{
    let len16 = ((6 + payload.len()) % 0x10000) as u16;
    let body = le16(len16) + le16(msg_type) + payload;
    let f = build_frame_spec(msg_type, payload);
    let c = crc_arc(body);
    assert(f.take(f.len() - 2) =~= body);
    assert(f[f.len() - 2] == le16(c)[0]);
    assert(f[f.len() - 1] == le16(c)[1]);
    lemma_u16_le(c);
    lemma_u16_le(msg_type);
    assert(f[2] == le16(msg_type)[0]);
    assert(f[3] == le16(msg_type)[1]);
    assert(msg_type & 0x8000 == 0 ==> ((msg_type >> 8) as u8) & 0x80 == 0) by (bit_vector);
    assert(f.subrange(4, f.len() - 2) =~= payload);
}


// ── Stream buffer for reassembling COBS frames from BLE chunks ──

/// Maximum buffer size (64 KB). R10 messages are < 200 bytes; this cap
/// prevents unbounded growth from malformed data.
pub const STREAM_BUFFER_MAX: usize = 65536;

/// Index of the first zero byte of `s`, if any.
pub open spec fn first_zero(s: Seq<u8>) -> Option<int>
    decreases s.len(),
{
    if s.len() == 0 {
        None
    } else if s[0] == 0 {
        Some(0)
    } else {
        match first_zero(s.drop_first()) {
            None => None,
            Some(k) => Some(k + 1),
        }
    }
}

/// What `next_frame` returns for a decoded (or undecodable) COBS block.
pub open spec fn frame_of_block(block: Seq<u8>) -> Result<GfdiFrameView, Error> {
    match decode_spec(block) {
        None => Err(Error::Cobs(cobs::DecodeError)),
        Some(d) => parse_frame_spec(d),
    }
}

/// The next complete frame of a stream buffer and the buffer left after it.
/// A frame is the block between the first zero byte and the zero byte after
/// it; everything up to and including the closing zero is consumed. Where
/// the two zeros are adjacent (an empty block) the first one is dropped and
/// the second opens the next frame. Without two zero bytes the buffer is
/// left as it is.
pub open spec fn next_frame_spec(b: Seq<u8>) -> (Option<Result<GfdiFrameView, Error>>, Seq<u8>)
    decreases b.len(),
{
    match first_zero(b) {
        None => (None, b),
        Some(start) => match first_zero(b.skip(start + 1)) {
            None => (None, b),
            Some(rel) => {
                let end = start + 1 + rel;
                let block = b.subrange(start + 1, end);
                let rest = b.skip(end + 1);
                if 0 <= start && 0 <= rel && end < b.len() {
                    if block.len() == 0 {
                        next_frame_spec(b.skip(end))
                    } else {
                        (Some(frame_of_block(block)), rest)
                    }
                } else {
                    (None, b)
                }
            },
        },
    }
}

/// The errors a stream buffer can yield are framing errors: a bad CRC, a
/// bad COBS block or a frame too short.
pub proof fn lemma_next_frame_errors(b: Seq<u8>)
    ensures
        next_frame_spec(b).0 matches Some(Err(e)) ==> (e is Crc || e is Cobs || e is FrameTooShort),
    decreases b.len(),
{
    if let Some(start) = first_zero(b) {
        if let Some(rel) = first_zero(b.skip(start + 1)) {
            let end = start + 1 + rel;
            if 0 <= start && 0 <= rel && end < b.len() && end == start + 1 {
                lemma_next_frame_errors(b.skip(end));
            }
        }
    }
}

/// Every frame `next_frame` would return from `b`, in order, by calling it
/// until it returns nothing, and the bytes left buffered then.
pub open spec fn drain_spec(b: Seq<u8>) -> (Seq<Result<GfdiFrameView, Error>>, Seq<u8>)
    decreases b.len(),
{
    match next_frame_spec(b) {
        (None, rest) => (Seq::empty(), rest),
        (Some(x), rest) => if rest.len() < b.len() {
            let (xs, left) = drain_spec(rest);
            (seq![x] + xs, left)
        } else {
            (seq![x], rest)
        },
    }
}

/// The stream bytes of a sequence of chunks, one after another.
pub open spec fn concat_chunks(cs: Seq<Seq<u8>>) -> Seq<u8>
    decreases cs.len(),
{
    if cs.len() == 0 {
        Seq::empty()
    } else {
        cs[0] + concat_chunks(cs.drop_first())
    }
}

/// The frames a buffer holding `carry` yields when the chunks arrive one by
/// one and every complete frame is taken after each.
pub open spec fn drain_chunks(carry: Seq<u8>, cs: Seq<Seq<u8>>) -> Seq<Result<GfdiFrameView, Error>>
    decreases cs.len(),
{
    if cs.len() == 0 {
        Seq::empty()
    } else {
        let (xs, left) = drain_spec(carry + cs[0]);
        xs + drain_chunks(left, cs.drop_first())
    }
}

/// The bytes that carry `frames` on the wire, one wrapped frame after another.
pub open spec fn wire_of(frames: Seq<Seq<u8>>) -> Seq<u8>
    decreases frames.len(),
{
    if frames.len() == 0 {
        Seq::empty()
    } else {
        wrap_spec(frames[0]) + wire_of(frames.drop_first())
    }
}

proof fn lemma_first_zero_extend(x: Seq<u8>, y: Seq<u8>)
    requires
        first_zero(x) is Some,
    ensures
        first_zero(x + y) == first_zero(x),
{
    lemma_first_zero(x);
    let k = first_zero(x)->0;
    assert forall|j: int| 0 <= j < k implies (x + y)[j] != 0 by {
        assert((x + y)[j] == x[j]);
    }
    assert((x + y)[k] == x[k]);
    lemma_first_zero_at(x + y, k);
}

/// A frame found in `x` is found the same way in `x + y`, with `y` left
/// buffered after the rest of `x`.
proof fn lemma_next_frame_extend(x: Seq<u8>, y: Seq<u8>)
    ensures
        next_frame_spec(x).0 is Some ==> next_frame_spec(x + y) == (next_frame_spec(x).0, next_frame_spec(x).1 + y),
        next_frame_spec(x).0 is Some ==> next_frame_spec(x).1.len() < x.len(),
        next_frame_spec(x).0 is None ==> next_frame_spec(x + y) == next_frame_spec(next_frame_spec(x).1 + y),
        next_frame_spec(x).0 is None ==> next_frame_spec(next_frame_spec(x).1).0 is None,
    decreases x.len(),
{
    lemma_first_zero(x);
    if let Some(start) = first_zero(x) {
        lemma_first_zero(x.skip(start + 1));
        if let Some(rel) = first_zero(x.skip(start + 1)) {
            let end = start + 1 + rel;
            lemma_first_zero_extend(x, y);
            assert((x + y).skip(start + 1) =~= x.skip(start + 1) + y);
            lemma_first_zero_extend(x.skip(start + 1), y);
            assert((x + y).subrange(start + 1, end) =~= x.subrange(start + 1, end));
            assert((x + y).skip(end + 1) =~= x.skip(end + 1) + y);
            assert((x + y).skip(end) =~= x.skip(end) + y);
            if end == start + 1 {
                lemma_next_frame_extend(x.skip(end), y);
            }
        }
    }
    if next_frame_spec(x).0 is None && next_frame_spec(x).1 == x {
        assert(x + y =~= next_frame_spec(x).1 + y);
    }
}

/// Two buffers with the same next frame and remainder drain alike.
proof fn lemma_drain_same_next(a: Seq<u8>, b: Seq<u8>)
    requires
        next_frame_spec(a) == next_frame_spec(b),
    ensures
        drain_spec(a) == drain_spec(b),
{
    lemma_next_frame_extend(a, Seq::empty());
    lemma_next_frame_extend(b, Seq::empty());
}

/// What draining leaves buffered holds no complete frame.
proof fn lemma_drain_left(x: Seq<u8>)
    ensures
        next_frame_spec(drain_spec(x).1).0 is None,
    decreases x.len(),
{
    lemma_next_frame_extend(x, Seq::empty());
    match next_frame_spec(x) {
        (None, _) => {},
        (Some(_), rest) => {
            lemma_drain_left(rest);
        },
    }
}

/// Draining `x + y` yields the frames of `x`, then those of what `x` left
/// buffered followed by `y`.
proof fn lemma_drain_extend(x: Seq<u8>, y: Seq<u8>)
    ensures
        drain_spec(x + y).0 == drain_spec(x).0 + drain_spec(drain_spec(x).1 + y).0,
        drain_spec(x + y).1 == drain_spec(drain_spec(x).1 + y).1,
    decreases x.len(),
{
    lemma_next_frame_extend(x, y);
    match next_frame_spec(x) {
        (None, rest) => {
            lemma_next_frame_extend(rest + y, Seq::empty());
            lemma_next_frame_extend(x + y, Seq::empty());
            lemma_drain_same_next(x + y, rest + y);
            assert(Seq::<Result<GfdiFrameView, Error>>::empty() + drain_spec(rest + y).0 =~= drain_spec(rest + y).0);
        },
        (Some(f), rest) => {
            lemma_next_frame_extend(x + y, Seq::empty());
            lemma_drain_extend(rest, y);
            let (xs, left) = drain_spec(rest);
            assert(drain_spec(x) == (seq![f] + xs, left));
            assert(rest + y == next_frame_spec(x + y).1);
            assert((rest + y).len() < (x + y).len());
            assert(drain_spec(x + y).0 == seq![f] + drain_spec(rest + y).0);
            assert(seq![f] + (xs + drain_spec(left + y).0) =~= (seq![f] + xs) + drain_spec(left + y).0);
        },
    }
}

/// How the stream is split into notifications does not change the frames:
/// starting from a buffer that holds no complete frame (an empty one, or
/// one just drained), feeding the chunks one by one and taking every
/// complete frame after each yields the same frames and errors, in the same
/// order, as feeding them all at once.
pub proof fn lemma_stream_split(carry: Seq<u8>, cs: Seq<Seq<u8>>)
    requires
        next_frame_spec(carry).0 is None,
    ensures
        drain_chunks(carry, cs) == drain_spec(carry + concat_chunks(cs)).0,
    decreases cs.len(),
{
    if cs.len() == 0 {
        assert(carry + concat_chunks(cs) =~= carry);
        assert(drain_spec(carry).0 =~= Seq::<Result<GfdiFrameView, Error>>::empty());
    } else {
        let x = carry + cs[0];
        let rest = concat_chunks(cs.drop_first());
        assert(carry + concat_chunks(cs) =~= x + rest);
        lemma_drain_extend(x, rest);
        lemma_drain_left(x);
        lemma_stream_split(drain_spec(x).1, cs.drop_first());
    }
}

/// Every complete frame comes out once, in arrival order: draining the wire
/// bytes of non-empty frames yields, for each, the frame its COBS block
/// decodes to, and leaves nothing buffered.
pub proof fn lemma_frames_in_order(frames: Seq<Seq<u8>>)
    requires
        forall|i: int| 0 <= i < frames.len() ==> (#[trigger] frames[i]).len() > 0,
    ensures
        drain_spec(wire_of(frames)) == (
            frames.map_values(|f: Seq<u8>| frame_of_block(encode_spec(f))),
            Seq::<u8>::empty(),
        ),
    decreases frames.len(),
{
    if frames.len() == 0 {
        assert(next_frame_spec(Seq::<u8>::empty()).0 is None);
        assert(frames.map_values(|f: Seq<u8>| frame_of_block(encode_spec(f))) =~= Seq::<Result<GfdiFrameView, Error>>::empty());
    } else {
        let f = frames[0];
        let later = frames.drop_first();
        assert forall|i: int| 0 <= i < later.len() implies (#[trigger] later[i]).len() > 0 by {
            assert(later[i] == frames[i + 1]);
        }
        lemma_frames_in_order(later);
        lemma_stream_block(Seq::empty(), f, wire_of(later));
        assert(Seq::<u8>::empty() + wrap_spec(f) + wire_of(later) =~= wire_of(frames));
        lemma_next_frame_extend(wire_of(frames), Seq::empty());
        assert(frames.map_values(|f: Seq<u8>| frame_of_block(encode_spec(f)))
            =~= seq![frame_of_block(encode_spec(f))] + later.map_values(|f: Seq<u8>| frame_of_block(encode_spec(f))));
    }
}

/// A `next_frame` result as plain values.
pub open spec fn frame_result_view(r: Option<Result<GfdiFrame, Error>>) -> Option<Result<GfdiFrameView, Error>> {
    match r {
        None => None,
        Some(Ok(f)) => Some(Ok(f@)),
        Some(Err(e)) => Some(Err(e)),
    }
}

proof fn lemma_first_zero(s: Seq<u8>)
    ensures
        match first_zero(s) {
            None => forall|j: int| 0 <= j < s.len() ==> s[j] != 0,
            Some(k) => 0 <= k < s.len() && s[k] == 0 && forall|j: int| 0 <= j < k ==> s[j] != 0,
        },
    decreases s.len(),
{
    if s.len() > 0 && s[0] != 0 {
        lemma_first_zero(s.drop_first());
        match first_zero(s.drop_first()) {
            None => {
                assert forall|j: int| 0 <= j < s.len() implies s[j] != 0 by {
                    if j > 0 {
                        assert(s[j] == s.drop_first()[j - 1]);
                    }
                }
            },
            Some(k) => {
                assert forall|j: int| 0 <= j < k + 1 implies s[j] != 0 by {
                    if j > 0 {
                        assert(s[j] == s.drop_first()[j - 1]);
                    }
                }
            },
        }
    }
}

proof fn lemma_first_zero_at(s: Seq<u8>, k: int)
    requires
        0 <= k <= s.len(),
        forall|j: int| 0 <= j < k ==> s[j] != 0,
        k < s.len() ==> s[k] == 0,
    ensures
        first_zero(s) == (if k < s.len() { Some(k) } else { None::<int> }),
    decreases k,
{
    if k > 0 {
        lemma_first_zero_at(s.drop_first(), k - 1);
    }
}

/// Accumulates BLE notification data and extracts complete COBS frames.
///
/// GFDI frames are delimited by `0x00` bytes. BLE notifications may split
/// a frame across multiple chunks. This buffer collects chunks and yields
/// complete frames as they arrive.
#[derive(Debug)]
pub struct StreamBuffer {
    buf: Vec<u8>,
}

impl View for StreamBuffer {
    type V = Seq<u8>;

    closed spec fn view(&self) -> Seq<u8> {
        self.buf@
    }
}

impl StreamBuffer {
    /// The buffer never holds more than `STREAM_BUFFER_MAX` bytes.
    #[verifier::type_invariant]
    closed spec fn wf(self) -> bool {
        self.buf@.len() <= STREAM_BUFFER_MAX
    }

    /// An empty buffer.
    pub fn new() -> (r: Self)
        ensures
            r@ == Seq::<u8>::empty(),
    {
        Self { buf: Vec::new() }
    }

    /// Append raw data (handle already stripped).
    ///
    /// Returns `Err` (and empties the buffer) if the buffer would exceed 64 KB
    /// (malformed stream).
    pub fn extend(&mut self, data: &[u8]) -> (r: Result<(), Error>)
        ensures
            old(self)@.len() + data@.len() > STREAM_BUFFER_MAX ==> {
                &&& r == Err::<(), Error>(Error::FrameTooShort { len: data@.len() as usize, min: 0 })
                &&& final(self)@ == Seq::<u8>::empty()
            },
            old(self)@.len() + data@.len() <= STREAM_BUFFER_MAX ==> {
                &&& r is Ok
                &&& final(self)@ == old(self)@ + data@
            },
    {
        proof {
            use_type_invariant(&*self);
        }
        if data.len() > STREAM_BUFFER_MAX - self.buf.len() {
            self.buf = Vec::new();
            return Err(Error::FrameTooShort { len: self.buf.len() + data.len(), min: 0 });
        }
        let mut b = self.buf.clone();
        assert(b@ == self.buf@);
        push_all(&mut b, data);
        self.buf = b;
        Ok(())
    }

    /// Drop everything before index `k`.
    fn drain_to(&mut self, k: usize)
        requires
            k <= old(self)@.len(),
        ensures
            final(self)@ == old(self)@.skip(k as int),
    {
        proof {
            use_type_invariant(&*self);
        }
        let rest = copy_range(self.buf.as_slice(), k, self.buf.len());
        self.buf = rest;
    }

    /// Index of the first zero byte at or after `from`.
    fn find_zero(&self, from: usize) -> (r: Option<usize>)
        requires
            from <= self@.len(),
        ensures
            match first_zero(self@.skip(from as int)) {
                None => r.is_none(),
                Some(k) => r == Some((from + k) as usize),
            },
    {
        let mut i = from;
        while i < self.buf.len() && self.buf[i] != 0
            invariant
                from <= i <= self.buf@.len(),
                forall|j: int| from <= j < i ==> self.buf@[j] != 0,
            decreases self.buf.len() - i,
        {
            i += 1;
        }
        proof {
            let s = self@.skip(from as int);
            assert forall|j: int| 0 <= j < i - from implies s[j] != 0 by {
                assert(s[j] == self.buf@[from + j]);
            }
            lemma_first_zero_at(s, i - from);
        }
        if i < self.buf.len() { Some(i) } else { None }
    }

    /// Extract the next complete COBS-delimited frame from the buffer.
    /// Returns `None` if no complete frame is available.
    /// Incomplete data remains in the buffer for future calls.
    pub fn next_frame(&mut self) -> (r: Option<Result<GfdiFrame, Error>>)
        ensures
            (frame_result_view(r), final(self)@) == next_frame_spec(old(self)@),
    {
        loop
            invariant
                next_frame_spec(old(self)@) == next_frame_spec(self@),
            decreases self@.len(),
        {
            proof {
                use_type_invariant(&*self);
            }
            let start = match self.find_zero(0) {
                None => {
                    assert(self@.skip(0) =~= self@);
                    return None;
                },
                Some(s) => s,
            };
            assert(self@.skip(0) =~= self@);
            proof {
                lemma_first_zero(self@);
            }
            let end = match self.find_zero(start + 1) {
                None => return None,
                Some(e) => e,
            };
            proof {
                lemma_first_zero(self@.skip(start + 1));
            }
            if end == start + 1 {
                // An empty block: the closing zero opens the next frame.
                self.drain_to(end);
                continue;
            }
            let block = copy_range(self.buf.as_slice(), start + 1, end);
            self.drain_to(end + 1);
            let r = match cobs::decode(block.as_slice()) {
                Ok(decoded) => parse_frame(decoded.as_slice()),
                Err(e) => Err(Error::Cobs(e)),
            };
            return Some(r);
        }
    }
}

/// A complete wire frame after bytes that hold no zero byte is returned by
/// the next `next_frame`, as the frame its COBS block decodes to, and
/// everything after it stays buffered.
pub proof fn lemma_stream_block(pre: Seq<u8>, frame: Seq<u8>, tail: Seq<u8>)
    requires
        forall|j: int| 0 <= j < pre.len() ==> pre[j] != 0,
        frame.len() > 0,
    ensures
        next_frame_spec(pre + wrap_spec(frame) + tail)
            == (Some(frame_of_block(encode_spec(frame))), tail),
{
    let e = encode_spec(frame);
    crate::cobs::lemma_encode_no_zero(frame);
    crate::cobs::lemma_encode_nonempty(frame);
    let b = pre + wrap_spec(frame) + tail;
    let start = pre.len() as int;
    assert forall|j: int| 0 <= j < start implies b[j] != 0 by {
        assert(b[j] == pre[j]);
    }
    lemma_first_zero_at(b, start);
    let s = b.skip(start + 1);
    assert forall|j: int| 0 <= j < e.len() implies s[j] != 0 by {
        assert(s[j] == e[j]);
    }
    assert(s[e.len() as int] == 0);
    lemma_first_zero_at(s, e.len() as int);
    assert(b.subrange(start + 1, start + 1 + e.len()) =~= e);
    assert(b.skip(start + 1 + e.len() + 1) =~= tail);
}

/// A complete wire frame after bytes that hold no zero byte is returned by
/// the next `next_frame`, parsed from the frame bytes whenever the frame
/// survives COBS, and everything after it stays buffered.
pub proof fn lemma_stream_frame(pre: Seq<u8>, frame: Seq<u8>, tail: Seq<u8>)
    requires
        forall|j: int| 0 <= j < pre.len() ==> pre[j] != 0,
        frame.len() > 0,
        roundtrips(frame),
    ensures
        next_frame_spec(pre + wrap_spec(frame) + tail)
            == (Some(parse_frame_spec(frame)), tail),
{
    lemma_stream_block(pre, frame, tail);
    crate::cobs::lemma_cobs_roundtrip(frame);
}

/// Until its closing zero byte arrives, a wire frame after bytes that hold
/// no zero byte yields nothing and stays buffered as it is.
pub proof fn lemma_stream_partial(pre: Seq<u8>, frame: Seq<u8>, k: int)
    requires
        forall|j: int| 0 <= j < pre.len() ==> pre[j] != 0,
        0 <= k < wrap_spec(frame).len(),
    ensures
        next_frame_spec(pre + wrap_spec(frame).take(k)) == (None::<Result<GfdiFrameView, Error>>, pre + wrap_spec(frame).take(k)),
{
    let e = encode_spec(frame);
    crate::cobs::lemma_encode_no_zero(frame);
    let w = wrap_spec(frame);
    let b = pre + w.take(k);
    let start = pre.len() as int;
    if k == 0 {
        assert(b =~= pre);
        lemma_first_zero_at(b, b.len() as int);
    } else {
        assert forall|j: int| 0 <= j < start implies b[j] != 0 by {
            assert(b[j] == pre[j]);
        }
        lemma_first_zero_at(b, start);
        let s = b.skip(start + 1);
        assert forall|j: int| 0 <= j < s.len() implies s[j] != 0 by {
            assert(s[j] == w[j + 1]);
            assert(w[j + 1] == e[j]);
        }
        lemma_first_zero_at(s, s.len() as int);
    }
}

/// End to end: a standard-header frame, wrapped for the wire and fed to a
/// stream buffer that holds no zero byte, comes back out of `next_frame`
/// with its message type and payload, whenever its bytes survive COBS.
pub proof fn lemma_wire_roundtrip(pre: Seq<u8>, msg_type: u16, payload: Seq<u8>)
    requires
        forall|j: int| 0 <= j < pre.len() ==> pre[j] != 0,
        msg_type & 0x8000 == 0,
        roundtrips(build_frame_spec(msg_type, payload)),
    ensures
        next_frame_spec(pre + wrap_spec(build_frame_spec(msg_type, payload)))
            == (Some(Ok::<GfdiFrameView, Error>(GfdiFrameView { msg_type, txn_id: None, payload })), Seq::<u8>::empty()),
{
    let f = build_frame_spec(msg_type, payload);
    lemma_frame_roundtrip(msg_type, payload);
    lemma_stream_frame(pre, f, Seq::empty());
    assert(pre + wrap_spec(f) + Seq::<u8>::empty() =~= pre + wrap_spec(f));
}


// ── Handshake helpers ──

/// What `String::from_utf8_lossy` makes of `bytes`: the characters of a
/// valid UTF-8 input, with each invalid sequence replaced by U+FFFD.
pub uninterp spec fn utf8_lossy(bytes: Seq<u8>) -> Seq<char>;

/// Calls `String::from_utf8_lossy` and takes ownership of the result. The
/// contract claims that the result is the named function of the bytes, and
/// that valid UTF-8 comes back as the characters it encodes.
#[verifier::external_body]
fn string_from_utf8_lossy(bytes: &[u8]) -> (r: String)
    ensures
        r@ == utf8_lossy(bytes@),
        vstd::utf8::valid_utf8(bytes@) ==> r@ == vstd::utf8::decode_utf8(bytes@),
{
    String::from_utf8_lossy(bytes).into_owned()
}

/// Device information from the 5024 handshake message.
#[derive(Debug)]
pub struct DeviceInfo {
    pub protocol_version: u16,
    pub product_number: u16,
    pub unit_id: u32,
    pub software_version: u16,
    pub max_packet_size: u16,
    pub friendly_name: String,
    pub device_name: String,
    pub model_name: String,
}

/// Device information as plain values.
pub struct DeviceInfoView {
    pub protocol_version: u16,
    pub product_number: u16,
    pub unit_id: u32,
    pub software_version: u16,
    pub max_packet_size: u16,
    pub friendly_name: Seq<char>,
    pub device_name: Seq<char>,
    pub model_name: Seq<char>,
}

impl View for DeviceInfo {
    type V = DeviceInfoView;

    open spec fn view(&self) -> DeviceInfoView {
        DeviceInfoView {
            protocol_version: self.protocol_version,
            product_number: self.product_number,
            unit_id: self.unit_id,
            software_version: self.software_version,
            max_packet_size: self.max_packet_size,
            friendly_name: self.friendly_name@,
            device_name: self.device_name@,
            model_name: self.model_name@,
        }
    }
}

/// The text `String::from_utf8_lossy` makes of `bytes`: the characters they
/// encode when they are valid UTF-8.
pub open spec fn lossy_text(bytes: Seq<u8>) -> Seq<char> {
    if vstd::utf8::valid_utf8(bytes) { vstd::utf8::decode_utf8(bytes) } else { utf8_lossy(bytes) }
}

/// A length-prefixed string read at `pos` and the position after it. Past
/// the end of `data` the string is empty and the position stays; when the
/// length byte announces more bytes than remain, the string is empty and
/// only the length byte is consumed.
pub open spec fn lp_string(data: Seq<u8>, pos: int) -> (Seq<char>, int) {
    if pos >= data.len() {
        (Seq::empty(), pos)
    } else {
        let len = data[pos] as int;
        let p1 = pos + 1;
        if p1 + len > data.len() {
            (Seq::empty(), p1)
        } else {
            (lossy_text(data.subrange(p1, p1 + len)), p1 + len)
        }
    }
}

/// What `parse_device_info` makes of a 5024 payload: payloads shorter than
/// 12 bytes are refused; the fixed fields are little-endian and three
/// length-prefixed strings follow.
pub open spec fn device_info_spec(p: Seq<u8>) -> Result<DeviceInfoView, Error> {
    if p.len() < 12 {
        Err(Error::FrameTooShort { len: p.len() as usize, min: 12 })
    } else {
        let (friendly_name, p1) = lp_string(p, 12);
        let (device_name, p2) = lp_string(p, p1);
        let (model_name, _p3) = lp_string(p, p2);
        Ok(DeviceInfoView {
            protocol_version: u16_le(p[0], p[1]),
            product_number: u16_le(p[2], p[3]),
            unit_id: u32_le(p[4], p[5], p[6], p[7]),
            software_version: u16_le(p[8], p[9]),
            max_packet_size: u16_le(p[10], p[11]),
            friendly_name,
            device_name,
            model_name,
        })
    }
}

fn read_u16(data: &[u8], i: usize) -> (r: u16)
    requires
        i + 2 <= data@.len(),
    ensures
        r == u16_le(data@[i as int], data@[i + 1]),
{
    (data[i] as u16) | ((data[i + 1] as u16) << 8)
}

fn read_u32(data: &[u8], i: usize) -> (r: u32)
    requires
        i + 4 <= data@.len(),
    ensures
        r == u32_le(data@[i as int], data@[i + 1], data@[i + 2], data@[i + 3]),
{
    (data[i] as u32) | ((data[i + 1] as u32) << 8) | ((data[i + 2] as u32) << 16) | ((data[i + 3] as u32) << 24)
}

fn read_length_prefixed_string(data: &[u8], pos: &mut usize) -> (s: String)
    ensures
        (s@, *final(pos) as int) == lp_string(data@, *old(pos) as int),
{
    if *pos >= data.len() {
        return String::new();
    }
    let len = data[*pos] as usize;
    *pos += 1;
    if len > data.len() - *pos {
        return String::new();
    }
    let s = string_from_utf8_lossy(&data[*pos..*pos + len]);
    *pos += len;
    s
}

/// Parse device information from a 5024 payload.
///
/// # Errors
///
/// Returns `Err` if the payload is too short to contain required fields.
pub fn parse_device_info(payload: &[u8]) -> (r: Result<DeviceInfo, Error>)
    ensures
        match r {
            Ok(d) => device_info_spec(payload@) == Ok::<DeviceInfoView, Error>(d@),
            Err(e) => device_info_spec(payload@) == Err::<DeviceInfoView, Error>(e),
        },
{
    if payload.len() < 12 {
        return Err(Error::FrameTooShort { len: payload.len(), min: 12 });
    }
    let protocol_version = read_u16(payload, 0);
    let product_number = read_u16(payload, 2);
    let unit_id = read_u32(payload, 4);
    let software_version = read_u16(payload, 8);
    let max_packet_size = read_u16(payload, 10);

    let mut pos: usize = 12;
    let friendly_name = read_length_prefixed_string(payload, &mut pos);
    let device_name = read_length_prefixed_string(payload, &mut pos);
    let model_name = read_length_prefixed_string(payload, &mut pos);

    Ok(DeviceInfo {
        protocol_version,
        product_number,
        unit_id,
        software_version,
        max_packet_size,
        friendly_name,
        device_name,
        model_name,
    })
}

/// The host information sent in reply to a 5024: protocol version 150,
/// product number and unit id all ones, application version 100, maximum
/// packet size 0xFFFF, the strings "divotmaker", "Linux" and "Desktop", and
/// a final flag byte 1.
pub open spec fn host_info_spec() -> Seq<u8> {
    le16(150) + le16(0xFFFF) + le32(0xFFFF_FFFF) + le16(100) + le16(0xFFFF)
        + seq![10u8, 0x64, 0x69, 0x76, 0x6f, 0x74, 0x6d, 0x61, 0x6b, 0x65, 0x72]
        + seq![5u8, 0x4c, 0x69, 0x6e, 0x75, 0x78]
        + seq![7u8, 0x44, 0x65, 0x73, 0x6b, 0x74, 0x6f, 0x70]
        + seq![1u8]
}

/// Build the host response payload for a 5024 ACK.
///
/// The response is wrapped in an ACK frame (type 5000) with the host's
/// own device information.
pub fn build_device_info_response() -> (r: Vec<u8>)
    ensures
        r@ == ack_spec(MSG_DEVICE_INFO, 0, host_info_spec()),
{
    let mut host: Vec<u8> = Vec::new();
    push_le16(&mut host, 150);
    push_le16(&mut host, 0xFFFF);
    push_le32(&mut host, 0xFFFF_FFFF);
    push_le16(&mut host, 100);
    push_le16(&mut host, 0xFFFF);
    // Length-prefixed strings
    let friendly: [u8; 11] = [10, 0x64, 0x69, 0x76, 0x6f, 0x74, 0x6d, 0x61, 0x6b, 0x65, 0x72];
    let manufacturer: [u8; 6] = [5, 0x4c, 0x69, 0x6e, 0x75, 0x78];
    let model: [u8; 8] = [7, 0x44, 0x65, 0x73, 0x6b, 0x74, 0x6f, 0x70];
    push_all(&mut host, friendly.as_slice());
    push_all(&mut host, manufacturer.as_slice());
    push_all(&mut host, model.as_slice());
    // unknown_flag = 1
    host.push(0x01);
    assert(host@ =~= host_info_spec());
    build_ack(MSG_DEVICE_INFO, 0, host.as_slice())
}

/// Capability indices of the bits of `b` from bit `bit` on, counted from `base`.
pub open spec fn byte_caps(b: u8, base: int, bit: int) -> Seq<usize>
    decreases 8 - bit,
{
    if bit >= 8 || bit < 0 {
        Seq::empty()
    } else {
        (if b & (1u8 << (bit as u8)) != 0 { seq![(base + bit) as usize] } else { Seq::empty() })
            + byte_caps(b, base, bit + 1)
    }
}

/// Capability indices of the bitmap bytes from index `i` on, in ascending order.
pub open spec fn caps_of(bm: Seq<u8>, i: int) -> Seq<usize>
    decreases bm.len() - i,
{
    if i >= bm.len() || i < 0 {
        Seq::empty()
    } else {
        byte_caps(bm[i], 8 * i, 0) + caps_of(bm, i + 1)
    }
}

/// The bitmap of a 5050 payload: after the size byte, at most that many bytes.
pub open spec fn caps_bitmap(p: Seq<u8>) -> Seq<u8> {
    let end = if p.len() < 1 + p[0] { p.len() as int } else { 1 + p[0] };
    p.subrange(1, end)
}

/// What `parse_capabilities` returns: the set bit indices of the bitmap, ascending.
pub open spec fn capabilities_spec(p: Seq<u8>) -> Seq<usize> {
    if p.len() == 0 {
        Seq::empty()
    } else {
        caps_of(caps_bitmap(p), 0)
    }
}

/// Whether capability `k` is set in a bitmap: bit `k % 8` of byte `k / 8`.
pub open spec fn cap_bit_set(bm: Seq<u8>, k: int) -> bool {
    0 <= k < 8 * bm.len() && bm[k / 8] & (1u8 << ((k % 8) as u8)) != 0
}

proof fn lemma_byte_caps(b: u8, base: int, bit: int, x: int)
    requires
        0 <= base,
        base + 8 <= usize::MAX,
        0 <= bit <= 8,
    ensures
        byte_caps(b, base, bit).contains(x as usize) && 0 <= x <= usize::MAX
            <==> (base + bit <= x < base + 8 && b & (1u8 << ((x - base) as u8)) != 0),
    decreases 8 - bit,
{
    if bit < 8 {
        lemma_byte_caps(b, base, bit + 1, x);
        let head = if b & (1u8 << (bit as u8)) != 0 { seq![(base + bit) as usize] } else { Seq::<usize>::empty() };
        let tail = byte_caps(b, base, bit + 1);
        assert(byte_caps(b, base, bit) == head + tail);
        if 0 <= x <= usize::MAX {
            if head.contains(x as usize) {
                assert(x == base + bit);
            }
            if x == base + bit && b & (1u8 << ((x - base) as u8)) != 0 {
                assert(head[0] == x as usize);
                assert((head + tail)[0] == x as usize);
            }
            if tail.contains(x as usize) {
                let j = choose|j: int| 0 <= j < tail.len() && tail[j] == x as usize;
                assert((head + tail)[head.len() + j] == x as usize);
            }
            if (head + tail).contains(x as usize) {
                let j = choose|j: int| 0 <= j < (head + tail).len() && (head + tail)[j] == x as usize;
                if j >= head.len() {
                    assert(tail[j - head.len()] == x as usize);
                } else {
                    assert(head[j] == x as usize);
                }
            }
        }
    } else {
        assert(byte_caps(b, base, bit) =~= Seq::<usize>::empty());
    }
}

proof fn lemma_caps_of(bm: Seq<u8>, i: int, x: int)
    requires
        0 <= i <= bm.len(),
        bm.len() < 256,
    ensures
        caps_of(bm, i).contains(x as usize) && 0 <= x <= usize::MAX
            <==> (8 * i <= x && cap_bit_set(bm, x)),
    decreases bm.len() - i,
{
    if i < bm.len() {
        lemma_caps_of(bm, i + 1, x);
        lemma_byte_caps(bm[i], 8 * i, 0, x);
        let head = byte_caps(bm[i], 8 * i, 0);
        let tail = caps_of(bm, i + 1);
        assert(caps_of(bm, i) == head + tail);
        if 0 <= x <= usize::MAX {
            if 8 * i <= x < 8 * i + 8 {
                assert(x / 8 == i);
                assert(x - 8 * i == x % 8);
            }
            if tail.contains(x as usize) {
                let j = choose|j: int| 0 <= j < tail.len() && tail[j] == x as usize;
                assert((head + tail)[head.len() + j] == x as usize);
            }
            if head.contains(x as usize) {
                let j = choose|j: int| 0 <= j < head.len() && head[j] == x as usize;
                assert((head + tail)[j] == x as usize);
            }
            if (head + tail).contains(x as usize) {
                let j = choose|j: int| 0 <= j < (head + tail).len() && (head + tail)[j] == x as usize;
                if j >= head.len() {
                    assert(tail[j - head.len()] == x as usize);
                } else {
                    assert(head[j] == x as usize);
                }
            }
        }
    } else {
        assert(caps_of(bm, i) =~= Seq::<usize>::empty());
    }
}

/// The capabilities `parse_capabilities` lists are exactly the bits set in
/// the payload's bitmap: capability `k` is listed iff bit `k % 8` of bitmap
/// byte `k / 8` is set.
pub proof fn lemma_capabilities_are_set_bits(p: Seq<u8>, k: usize)
    requires
        p.len() > 0,
    ensures
        capabilities_spec(p).contains(k) <==> cap_bit_set(caps_bitmap(p), k as int),
{
    let bm = caps_bitmap(p);
    lemma_caps_of(bm, 0, k as int);
}

/// Parse capability bitmap from a 5050 payload.
///
/// Returns the set of active capability bit indices.
pub fn parse_capabilities(payload: &[u8]) -> (r: Vec<usize>)
    ensures
        r@ == capabilities_spec(payload@),
{
    if payload.len() == 0 {
        return Vec::new();
    }
    let bitmap_size = payload[0] as usize;
    let end = if payload.len() < 1 + bitmap_size { payload.len() } else { 1 + bitmap_size };
    let bitmap = &payload[1..end];
    let ghost bm = bitmap@;
    assert(bm =~= caps_bitmap(payload@));

    let mut caps: Vec<usize> = Vec::new();
    let mut byte_idx: usize = 0;
    while byte_idx < bitmap.len()
        invariant
            bm == bitmap@,
            bitmap@.len() < 256,
            byte_idx <= bitmap@.len(),
            caps_of(bm, 0) == caps@ + caps_of(bm, byte_idx as int),
        decreases bitmap.len() - byte_idx,
    {
        let byte = bitmap[byte_idx];
        let mut bit: u8 = 0;
        let ghost caps0 = caps@;
        while bit < 8
            invariant
                bit <= 8,
                byte_idx < 256,
                caps0 + byte_caps(byte, 8 * byte_idx, 0) == caps@ + byte_caps(byte, 8 * byte_idx, bit as int),
            decreases 8 - bit,
        {
            if byte & (1u8 << bit) != 0 {
                caps.push(byte_idx * 8 + bit as usize);
            }
            proof {
                let base = 8 * byte_idx;
                if byte & (1u8 << bit) != 0 {
                    assert(byte_caps(byte, base, bit as int) == seq![(base + bit) as usize] + byte_caps(byte, base, bit + 1));
                } else {
                    assert(byte_caps(byte, base, bit as int) =~= byte_caps(byte, base, bit + 1));
                }
            }
            bit += 1;
        }
        proof {
            assert(byte_caps(byte, 8 * byte_idx, 8) =~= Seq::<usize>::empty());
            assert(caps_of(bm, byte_idx as int) == byte_caps(byte, 8 * byte_idx, 0) + caps_of(bm, byte_idx + 1));
        }
        byte_idx += 1;
    }
    assert(caps_of(bm, byte_idx as int) =~= Seq::<usize>::empty());
    caps
}

/// The 5050 payload the host sends: a 13-byte bitmap with only bit 30
/// (SwingSensor) set, after its size byte.
pub open spec fn host_capabilities_payload() -> Seq<u8> {
    seq![13u8, 0, 0, 0, 0x40, 0, 0, 0, 0, 0, 0, 0, 0, 0]
}

/// Build a host capabilities 5050 frame with SwingSensor (bit 30) set.
pub fn build_host_capabilities() -> (r: Vec<u8>)
    ensures
        r@ == build_frame_spec(MSG_CONFIGURATION, host_capabilities_payload()),
        capabilities_spec(host_capabilities_payload()) == seq![CAP_SWING_SENSOR],
{
    // 13-byte bitmap with bit 30 set
    let mut bitmap: [u8; 13] = [0, 0, 0, 0, 0, 0, 0, 0, 0, 0, 0, 0, 0];
    bitmap[CAP_SWING_SENSOR / 8] = bitmap[CAP_SWING_SENSOR / 8] | (1u8 << (CAP_SWING_SENSOR % 8) as u8);
    assert((0u8 | (1u8 << 6u8)) == 0x40u8) by (bit_vector);
    let mut payload: Vec<u8> = Vec::new();
    payload.push(13u8); // always 13
    push_all(&mut payload, bitmap.as_slice());
    assert(payload@ =~= host_capabilities_payload());
    proof {
        lemma_host_capabilities();
    }
    build_frame(MSG_CONFIGURATION, payload.as_slice())
}

proof fn lemma_host_capabilities()
    ensures
        capabilities_spec(host_capabilities_payload()) == seq![CAP_SWING_SENSOR],
{
    let p = host_capabilities_payload();
    let bm = caps_bitmap(p);
    assert(bm =~= seq![0u8, 0, 0, 0x40, 0, 0, 0, 0, 0, 0, 0, 0, 0]);
    lemma_caps_zero_range(bm, 4, 13);
    lemma_caps_zero_range(bm, 0, 3);
    assert(caps_of(bm, 13) =~= Seq::<usize>::empty());
    reveal_with_fuel(byte_caps, 9);
    assert(0x40u8 & (1u8 << 6u8) != 0) by (bit_vector);
    assert(0x40u8 & (1u8 << 0u8) == 0 && 0x40u8 & (1u8 << 1u8) == 0 && 0x40u8 & (1u8 << 2u8) == 0
        && 0x40u8 & (1u8 << 3u8) == 0 && 0x40u8 & (1u8 << 4u8) == 0 && 0x40u8 & (1u8 << 5u8) == 0
        && 0x40u8 & (1u8 << 7u8) == 0) by (bit_vector);
    assert(byte_caps(0x40, 24, 0) =~= seq![30usize]);
    assert(caps_of(bm, 3) == byte_caps(0x40, 24, 0) + caps_of(bm, 4));
    assert(caps_of(bm, 3) =~= seq![30usize]);
}

proof fn lemma_caps_zero_range(bm: Seq<u8>, lo: int, hi: int)
    requires
        0 <= lo <= hi <= bm.len(),
        forall|i: int| lo <= i < hi ==> bm[i] == 0,
    ensures
        caps_of(bm, lo) == caps_of(bm, hi),
    decreases hi - lo,
{
    if lo < hi {
        lemma_caps_zero_range(bm, lo + 1, hi);
        lemma_byte_caps_zero(8 * lo, 0);
        assert(caps_of(bm, lo) =~= byte_caps(0, 8 * lo, 0) + caps_of(bm, lo + 1));
    }
}

proof fn lemma_byte_caps_zero(base: int, bit: int)
    ensures
        byte_caps(0, base, bit) == Seq::<usize>::empty(),
    decreases 8 - bit,
{
    if 0 <= bit < 8 {
        assert(0u8 & (1u8 << (bit as u8)) == 0) by (bit_vector);
        lemma_byte_caps_zero(base, bit + 1);
        assert(byte_caps(0, base, bit) =~= byte_caps(0, base, bit + 1));
    }
}

// ── Protobuf fragmentation ──

/// Protobuf fragmentation header (14 bytes before protobuf payload in 5043/5044).
#[derive(Debug, Clone, Copy, PartialEq, Eq, Structural)]
pub struct FragHeader {
    pub req_id: u16,
    pub offset: u32,
    pub total_len: u32,
    pub chunk_size: u32,
}

/// What `parse_frag_header` makes of a 5043/5044 payload: payloads shorter
/// than 14 bytes are refused; the protobuf data is what follows the header,
/// cut to `chunk_size` bytes.
pub open spec fn frag_header_spec(p: Seq<u8>) -> Result<(FragHeader, Seq<u8>), Error> {
    if p.len() < 14 {
        Err(Error::FrameTooShort { len: p.len() as usize, min: 14 })
    } else {
        let chunk_size = u32_le(p[10], p[11], p[12], p[13]);
        let end = if chunk_size >= p.len() - 14 { p.len() as int } else { 14 + chunk_size };
        Ok((
            FragHeader {
                req_id: u16_le(p[0], p[1]),
                offset: u32_le(p[2], p[3], p[4], p[5]),
                total_len: u32_le(p[6], p[7], p[8], p[9]),
                chunk_size,
            },
            p.subrange(14, end),
        ))
    }
}

/// Parse protobuf fragmentation header from a 5043/5044 payload.
///
/// # Errors
///
/// Returns `Err` if the payload is too short.
pub fn parse_frag_header(payload: &[u8]) -> (r: Result<(FragHeader, &[u8]), Error>)
    ensures
        match r {
            Ok((h, d)) => frag_header_spec(payload@) == Ok::<(FragHeader, Seq<u8>), Error>((h, d@)),
            Err(e) => frag_header_spec(payload@) == Err::<(FragHeader, Seq<u8>), Error>(e),
        },
{
    if payload.len() < 14 {
        return Err(Error::FrameTooShort { len: payload.len(), min: 14 });
    }
    let req_id = read_u16(payload, 0);
    let offset = read_u32(payload, 2);
    let total_len = read_u32(payload, 6);
    let chunk_size = read_u32(payload, 10);
    let end = if chunk_size as usize >= payload.len() - 14 { payload.len() } else { 14 + chunk_size as usize };
    let pb_data = &payload[14..end];
    Ok((FragHeader { req_id, offset, total_len, chunk_size }, pb_data))
}

/// The 5043 payload `build_protobuf_request` wraps: request id, offset 0,
/// and the data length (truncated to 32 bits) as both total length and chunk size.
pub open spec fn protobuf_request_payload(req_id: u16, pb: Seq<u8>) -> Seq<u8> {
    let n = pb.len() as u32;
    le16(req_id) + le32(0) + le32(n) + le32(n) + pb
}

/// Build a 5043 (protobuf request) frame with fragmentation header.
///
/// Assumes single-frame (no fragmentation needed for R10 messages).
pub fn build_protobuf_request(req_id: u16, pb_data: &[u8]) -> (r: Vec<u8>)
    ensures
        r@ == build_frame_spec(MSG_PROTOBUF_REQUEST, protobuf_request_payload(req_id, pb_data@)),
{
    let mut payload: Vec<u8> = Vec::new();
    push_le16(&mut payload, req_id);
    push_le32(&mut payload, 0); // offset = 0
    let pb_len = pb_data.len() as u32; // R10 messages always < 4GB
    push_le32(&mut payload, pb_len); // total_len
    push_le32(&mut payload, pb_len); // chunk_size
    push_all(&mut payload, pb_data);
    assert(payload@ =~= protobuf_request_payload(req_id, pb_data@));
    build_frame(MSG_PROTOBUF_REQUEST, payload.as_slice())
}

proof fn lemma_u32_le(v: u32)
    ensures
        u32_le(le32(v)[0], le32(v)[1], le32(v)[2], le32(v)[3]) == v,
{
    assert(((v & 0xFF) as u8 as u32) | ((((v >> 8) & 0xFF) as u8 as u32) << 8)
        | ((((v >> 16) & 0xFF) as u8 as u32) << 16) | (((v >> 24) as u8 as u32) << 24) == v) by (bit_vector);
}

/// The fragmentation header of a protobuf request reads back as its request
/// id, offset 0, and the data length as total length and chunk size, with
/// the data intact, for data of at most `u32::MAX` bytes.
pub proof fn lemma_protobuf_request_roundtrip(req_id: u16, pb: Seq<u8>)
    requires
        pb.len() <= u32::MAX,
    ensures
        frag_header_spec(protobuf_request_payload(req_id, pb)) == Ok::<(FragHeader, Seq<u8>), Error>((
            FragHeader { req_id, offset: 0, total_len: pb.len() as u32, chunk_size: pb.len() as u32 },
            pb,
        )),
{
    let p = protobuf_request_payload(req_id, pb);
    let n = pb.len() as u32;
    lemma_u16_le(req_id);
    lemma_u32_le(0);
    lemma_u32_le(n);
    assert(p[0] == le16(req_id)[0] && p[1] == le16(req_id)[1]);
    assert(p[2] == le32(0)[0] && p[3] == le32(0)[1] && p[4] == le32(0)[2] && p[5] == le32(0)[3]);
    assert(p[6] == le32(n)[0] && p[7] == le32(n)[1] && p[8] == le32(n)[2] && p[9] == le32(n)[3]);
    assert(p[10] == le32(n)[0] && p[11] == le32(n)[1] && p[12] == le32(n)[2] && p[13] == le32(n)[3]);
    assert(p.subrange(14, p.len() as int) =~= pb);
}

} // verus!
