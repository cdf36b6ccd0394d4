//! MultiLink transport multiplexer.
//!
//! The R10 uses MultiLink service `6A4E2800` instead of a dedicated GFDI service.
//! GFDI is service ID 1 within MultiLink. A handle byte is prepended to EVERY
//! BLE write/notification chunk for routing.

use vstd::prelude::*;

verus! {

/// The two bytes of `v`, least significant first.
pub open spec fn le16(v: u16) -> Seq<u8> {
    seq![(v & 0xFF) as u8, (v >> 8) as u8]
}

/// The four bytes of `v`, least significant first.
pub open spec fn le32(v: u32) -> Seq<u8> {
    seq![(v & 0xFF) as u8, ((v >> 8) & 0xFF) as u8, ((v >> 16) & 0xFF) as u8, (v >> 24) as u8]
}

/// The eight bytes of `v`, least significant first.
pub open spec fn le64(v: u64) -> Seq<u8> {
    seq![
        (v & 0xFF) as u8, ((v >> 8) & 0xFF) as u8, ((v >> 16) & 0xFF) as u8, ((v >> 24) & 0xFF) as u8,
        ((v >> 32) & 0xFF) as u8, ((v >> 40) & 0xFF) as u8, ((v >> 48) & 0xFF) as u8, (v >> 56) as u8,
    ]
}

/// MultiLink service IDs.
#[derive(Debug, Clone, Copy, PartialEq, Eq, Structural)]
pub enum ServiceId {
    Gfdi,
    Nfc,
    RealTimeHr,
    Echo,
    KeepAlive,
}

impl ServiceId {
    /// The service number on the wire.
    pub open spec fn spec_id(self) -> u16 {
        match self {
            ServiceId::Gfdi => 1,
            ServiceId::Nfc => 2,
            ServiceId::RealTimeHr => 6,
            ServiceId::Echo => 15,
            ServiceId::KeepAlive => 22,
        }
    }

    /// The service number on the wire.
    pub fn id(self) -> (r: u16)
        ensures
            r == self.spec_id(),
    {
        match self {
            ServiceId::Gfdi => 1,
            ServiceId::Nfc => 2,
            ServiceId::RealTimeHr => 6,
            ServiceId::Echo => 15,
            ServiceId::KeepAlive => 22,
        }
    }
}

/// MultiLink register status codes.
#[derive(Debug, Clone, Copy, PartialEq, Eq, Structural)]
pub enum RegisterStatus {
    Success,
    InvalidServiceId,
    PendingAuth,
    AlreadyInUse,
    Rejected,
}

/// The register status with wire code `v`, if any.
pub open spec fn register_status_of(v: u8) -> Option<RegisterStatus> {
    if v == 0 {
        Some(RegisterStatus::Success)
    } else if v == 1 {
        Some(RegisterStatus::InvalidServiceId)
    } else if v == 2 {
        Some(RegisterStatus::PendingAuth)
    } else if v == 3 {
        Some(RegisterStatus::AlreadyInUse)
    } else if v == 4 {
        Some(RegisterStatus::Rejected)
    } else {
        None
    }
}

impl RegisterStatus {
    /// The wire code of this status.
    pub open spec fn spec_code(self) -> u8 {
        match self {
            RegisterStatus::Success => 0,
            RegisterStatus::InvalidServiceId => 1,
            RegisterStatus::PendingAuth => 2,
            RegisterStatus::AlreadyInUse => 3,
            RegisterStatus::Rejected => 4,
        }
    }

    /// The wire code of this status.
    pub fn code(self) -> (r: u8)
        ensures
            r == self.spec_code(),
            register_status_of(r) == Some(self),
    {
        match self {
            RegisterStatus::Success => 0,
            RegisterStatus::InvalidServiceId => 1,
            RegisterStatus::PendingAuth => 2,
            RegisterStatus::AlreadyInUse => 3,
            RegisterStatus::Rejected => 4,
        }
    }

    /// The status with wire code `v`, or `None` for an unknown code.
    pub fn from_u8(v: u8) -> (r: Option<Self>)
        ensures
            r == register_status_of(v),
    {
        match v {
            0 => Some(Self::Success),
            1 => Some(Self::InvalidServiceId),
            2 => Some(Self::PendingAuth),
            3 => Some(Self::AlreadyInUse),
            4 => Some(Self::Rejected),
            _ => None,
        }
    }
}

/// The REGISTER command: `[0x00] [0x00] [txn_id: u64 LE] [svc_id: u16 LE] [flags: u8]`.
pub open spec fn register_spec(txn_id: u64, svc_id: ServiceId) -> Seq<u8> {
    seq![0u8, 0u8] + le64(txn_id) + le16(svc_id.spec_id()) + seq![0u8]
}

/// Build a REGISTER command for a MultiLink service.
///
/// 13 bytes: `[0x00] [0x00] [txn_id: u64 LE] [svc_id: u16 LE] [flags: u8]`
///
/// Written to characteristic `6A4E2810` (bidirectional control + data).
/// No handle byte prefix — this is the control plane.
pub fn build_register(txn_id: u64, svc_id: ServiceId) -> (r: [u8; 13])
    ensures
        r@ == register_spec(txn_id, svc_id),
{
    let s = svc_id.id();
    let r = [
        0x00,
        0x00,
        (txn_id & 0xFF) as u8,
        ((txn_id >> 8) & 0xFF) as u8,
        ((txn_id >> 16) & 0xFF) as u8,
        ((txn_id >> 24) & 0xFF) as u8,
        ((txn_id >> 32) & 0xFF) as u8,
        ((txn_id >> 40) & 0xFF) as u8,
        ((txn_id >> 48) & 0xFF) as u8,
        (txn_id >> 56) as u8,
        (s & 0xFF) as u8,
        (s >> 8) as u8,
        0x00,
    ];
    assert(r@ =~= register_spec(txn_id, svc_id));
    r
}

/// What a REGISTER_RESPONSE notification carries: `(status, handle, flags)`,
/// or `None` when `data` is shorter than 15 bytes, is not a
/// REGISTER_RESPONSE, or holds an unknown status code.
pub open spec fn register_response_spec(data: Seq<u8>) -> Option<(RegisterStatus, u8, u8)> {
    if data.len() < 15 || data[1] != 0x01 {
        None
    } else {
        match register_status_of(data[12]) {
            None => None,
            Some(st) => Some((st, data[13], data[14])),
        }
    }
}

/// Parse a REGISTER_RESPONSE from a notification on `6A4E2810`.
///
/// Returns `(status, handle, flags)` on success, or `None` if the response
/// is too short or not a REGISTER_RESPONSE.
pub fn parse_register_response(data: &[u8]) -> (r: Option<(RegisterStatus, u8, u8)>)
    ensures
        r == register_response_spec(data@),
{
    // Minimum 15 bytes: [reserved][0x01][txn_id 8B][svc_id 2B][status][handle][flags]
    if data.len() < 15 || data[1] != 0x01 {
        return None;
    }
    let status = match RegisterStatus::from_u8(data[12]) {
        Some(s) => s,
        None => return None,
    };
    let handle = data[13];
    let flags = data[14];
    Some((status, handle, flags))
}

/// Strip handle byte from a BLE notification chunk.
///
/// Every notification from `6A4E2810` has the assigned handle as byte 0.
/// Returns the data portion, or `None` if the handle doesn't match.
pub fn strip_handle(chunk: &[u8], expected_handle: u8) -> (r: Option<&[u8]>)
    ensures
        r.is_some() <==> (chunk@.len() > 0 && chunk@[0] == expected_handle),
        r matches Some(s) ==> s@ == chunk@.drop_first(),
{
    if chunk.len() > 0 && chunk[0] == expected_handle {
        let s = &chunk[1..chunk.len()];
        assert(s@ =~= chunk@.drop_first());
        Some(s)
    } else {
        None
    }
}

/// The chunks that carry `data` with at most `p` data bytes each, every one
/// prefixed by `handle`.
pub open spec fn handle_chunks(data: Seq<u8>, handle: u8, p: nat) -> Seq<Seq<u8>>
    decreases data.len(),
{
    if data.len() == 0 || p == 0 {
        Seq::empty()
    } else {
        let n = if data.len() < p { data.len() } else { p };
        seq![seq![handle] + data.take(n as int)] + handle_chunks(data.skip(n as int), handle, p)
    }
}

/// Concatenation of the data bytes of the chunks (each without its first byte).
pub open spec fn chunk_payloads(chunks: Seq<Seq<u8>>) -> Seq<u8>
    decreases chunks.len(),
{
    if chunks.len() == 0 {
        Seq::empty()
    } else {
        chunks[0].drop_first() + chunk_payloads(chunks.drop_first())
    }
}

/// Prepend handle byte and split data into MTU-sized chunks for writing.
///
/// Each BLE write must be `[handle] [up to mtu-1 bytes of data]`.
/// Written to characteristic `6A4E2820` (write-only data channel).
pub fn chunk_with_handle(data: &[u8], handle: u8, mtu: usize) -> (r: Vec<Vec<u8>>)
    ensures
        r.deep_view() == handle_chunks(data@, handle, (if mtu == 0 { 0 } else { mtu - 1 }) as nat),
{
    let payload_per_chunk = mtu.saturating_sub(1);
    let mut out: Vec<Vec<u8>> = Vec::new();
    if payload_per_chunk == 0 {
        return out;
    }
    let ghost p = payload_per_chunk as nat;
    let mut i: usize = 0;
    assert(data@.skip(0) =~= data@);
    while i < data.len()
        invariant
            i <= data.len(),
            p == payload_per_chunk,
            p > 0,
            handle_chunks(data@, handle, p) == out.deep_view() + handle_chunks(data@.skip(i as int), handle, p),
        decreases data.len() - i,
    {
        let end = if data.len() - i < payload_per_chunk { data.len() } else { i + payload_per_chunk };
        let mut buf: Vec<u8> = Vec::new();
        buf.push(handle);
        let mut j = i;
        while j < end
            invariant
                i <= j <= end <= data.len(),
                buf@ == seq![handle] + data@.subrange(i as int, j as int),
            decreases end - j,
        {
            buf.push(data[j]);
            j += 1;
            assert(data@.subrange(i as int, j as int) =~= data@.subrange(i as int, j - 1) + seq![data@[j - 1]]);
        }
        let ghost rest = data@.skip(i as int);
        proof {
            assert(data@.subrange(i as int, end as int) =~= rest.take((end - i) as int));
            assert(rest.skip((end - i) as int) =~= data@.skip(end as int));
        }
        let ghost old_out = out.deep_view();
        let ghost old_vec = out@;
        assert(buf.deep_view() =~= buf@);
        out.push(buf);
        proof {
            assert(out@ == old_vec.push(buf));
            assert forall|k: int| 0 <= k < old_vec.len() implies out.deep_view()[k] == old_out[k] by {
                assert(out@[k] == old_vec[k]);
            }
            assert(out.deep_view()[old_vec.len() as int] == buf@);
            assert(out.deep_view() =~= old_out + seq![buf@]);
            assert(handle_chunks(rest, handle, p) == seq![buf@] + handle_chunks(data@.skip(end as int), handle, p));
            assert(old_out + (seq![buf@] + handle_chunks(data@.skip(end as int), handle, p))
                =~= out.deep_view() + handle_chunks(data@.skip(end as int), handle, p));
        }
        i = end;
    }
    assert(data@.skip(i as int) =~= Seq::<u8>::empty());
    assert(out.deep_view() + Seq::<Seq<u8>>::empty() =~= out.deep_view());
    out
}

/// Chunking for the write channel loses and reorders nothing: every chunk is
/// the handle byte followed by 1 to `p` data bytes, and stripping the handle
/// from each chunk and joining them gives back the data.
pub proof fn lemma_chunks_reassemble(data: Seq<u8>, handle: u8, p: nat)
    requires
        p > 0,
    ensures
        chunk_payloads(handle_chunks(data, handle, p)) == data,
        forall|i: int|
            0 <= i < handle_chunks(data, handle, p).len() ==> {
                let c = #[trigger] handle_chunks(data, handle, p)[i];
                &&& c.len() >= 2
                &&& c.len() <= p + 1
                &&& c[0] == handle
            },
    decreases data.len(),
{
    if data.len() > 0 {
        let n = if data.len() < p { data.len() } else { p };
        lemma_chunks_reassemble(data.skip(n as int), handle, p);
        let cs = handle_chunks(data, handle, p);
        let rest = handle_chunks(data.skip(n as int), handle, p);
        assert(cs.drop_first() =~= rest);
        assert((seq![handle] + data.take(n as int)).drop_first() =~= data.take(n as int));
        assert(data =~= data.take(n as int) + data.skip(n as int));
        assert forall|i: int| 0 <= i < cs.len() implies {
            let c = #[trigger] cs[i];
            &&& c.len() >= 2
            &&& c.len() <= p + 1
            &&& c[0] == handle
        } by {
            if i > 0 {
                assert(cs[i] == rest[i - 1]);
            }
        }
    }
}

} // verus!
