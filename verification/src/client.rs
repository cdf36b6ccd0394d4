//! Poll-based R10 client.
//!
//! The caller provides BLE transport; the client handles MultiLink registration,
//! GFDI handshake, protobuf subscribe/wakeup, and shot data decoding.
//!
//! The decisions of the client are made by pure functions from its session
//! state and what arrived to what it sends and returns (`frame_step`, and
//! `register_chunk_spec` for the registration reply); `Client::poll` reads,
//! feeds the stream buffer, and carries those decisions out over the
//! transport.

use vstd::prelude::*;
use crate::error::Error;
use crate::gfdi;
use crate::gfdi::{
    ack_spec, build_frame_spec, capabilities_spec, device_info_spec, frag_header_spec,
    host_capabilities_payload, host_info_spec, next_frame_spec, protobuf_request_payload, wire_of, wrap_spec,
    GfdiFrame, GfdiFrameView, StreamBuffer, MSG_ACK, MSG_CONFIGURATION, MSG_DEVICE_INFO, MSG_FIT_DATA,
    MSG_FIT_DEFINITION, MSG_PROTOBUF_REQUEST, MSG_PROTOBUF_RESPONSE,
};
use crate::multilink;
use crate::multilink::{handle_chunks, register_response_spec, register_spec, RegisterStatus, ServiceId};
use crate::proto;
use crate::proto::{
    decode_smart_spec, subscribe_request_bytes, wakeup_request_bytes, DeviceError, DeviceState, ShotData,
    SmartEvent,
};

verus! {

/// A point in time from the system's monotonic clock.
#[verifier::external_type_specification]
#[verifier::external_body]
pub struct ExInstant(std::time::Instant);

/// How long to remember shot IDs for deduplication (seconds).
/// R10 replays shots at 6x, and back-to-back shots can overlap.
pub const SHOT_DEDUP_WINDOW_SECS: u64 = 60;

/// Transport trait — the caller provides the BLE read/write implementation.
///
/// The library does NOT depend on any specific BLE crate. Implement this trait
/// to bridge to bluer, btleplug, or raw file descriptors.
pub trait Transport {
    /// Read available data from the BLE notification channel.
    ///
    /// Returns one BLE notification chunk (including the handle byte prefix
    /// from MultiLink), written to the front of `buf`, and its length, which
    /// is at most `buf.len()`. Non-blocking: returns `Err(WouldBlock)` when no
    /// data is available.
    ///
    /// # Errors
    ///
    /// Returns `WouldBlock` when no data is available, or a transport error.
    fn read(&mut self, buf: &mut [u8]) -> (r: Result<usize, std::io::Error>)
        ensures
            final(buf)@.len() == old(buf)@.len(),
            r matches Ok(n) ==> n <= old(buf)@.len(),
    ;

    /// Write data to the BLE write channel.
    ///
    /// `data` is a single BLE write chunk (including handle byte prefix).
    ///
    /// # Errors
    ///
    /// Returns a transport error on write failure.
    fn write(&mut self, data: &[u8]) -> Result<(), std::io::Error>;

    /// Write to the MultiLink register channel (characteristic `6A4E2810`).
    ///
    /// This is separate from `write` because registration goes to the
    /// bidirectional characteristic, not the write-only one.
    ///
    /// # Errors
    ///
    /// Returns a transport error on write failure.
    fn write_register(&mut self, data: &[u8]) -> Result<(), std::io::Error>;
}

/// Events emitted by the client.
#[derive(Debug, Clone, Copy)]
pub enum Event {
    /// MultiLink registration succeeded, GFDI handshake starting.
    Registered { handle: u8 },
    /// GFDI handshake complete, protobuf session starting.
    HandshakeComplete,
    /// Device is armed and waiting for a shot.
    Ready,
    /// Shot data received.
    Shot(ShotData),
    /// Device state changed.
    StateChange(DeviceState),
    /// Device reported an error.
    DeviceError(DeviceError),
    /// Subscribe response received.
    Subscribed { success: bool },
    /// WakeUp response received.
    WakeUpResponse { status: i32 },
}

/// Client state machine phases.
#[derive(Debug, Clone, Copy, PartialEq, Eq, Structural)]
pub enum Phase {
    /// Waiting for MultiLink REGISTER_RESPONSE.
    Registering,
    /// Waiting for 5024 device info.
    WaitDeviceInfo,
    /// Waiting for 5050 capabilities.
    WaitCapabilities,
    /// Waiting for ACK of our 5050 (handshake complete).
    WaitCapabilitiesAck,
    /// Subscribing to LAUNCH_MONITOR alerts.
    Subscribing,
    /// Sending WakeUp request.
    WakingUp,
    /// Normal operation — listening for shots.
    Active,
}

/// The protocol state of a client, apart from its buffers.
#[derive(Debug, Clone, Copy)]
pub struct Session {
    /// MultiLink handle assigned at registration.
    pub handle: u8,
    pub phase: Phase,
    /// Request id of the next protobuf request.
    pub req_id_counter: u16,
    /// Last device state reported.
    pub last_state: Option<DeviceState>,
    /// Event queued for the next poll.
    pub pending_event: Option<Event>,
}

/// A session before registration.
pub open spec fn initial_session() -> Session {
    Session {
        handle: 0,
        phase: Phase::Registering,
        req_id_counter: 1,
        last_state: None,
        pending_event: None,
    }
}


// ── Decisions ──

/// The next request id after `id` (wrapping).
pub open spec fn next_id(id: u16) -> u16 {
    if id == u16::MAX { 0 } else { (id + 1) as u16 }
}

/// The frame of a protobuf request carrying `pb` with request id `id`.
pub open spec fn request_frame(id: u16, pb: Seq<u8>) -> Seq<u8> {
    build_frame_spec(MSG_PROTOBUF_REQUEST, protobuf_request_payload(id, pb))
}

/// The shots remembered after pruning: those whose age (in seconds, one per
/// entry) is below the deduplication window, in order.
pub open spec fn kept_shots(recent: Seq<(u32, std::time::Instant)>, ages: Seq<u64>) -> Seq<(u32, std::time::Instant)>
    decreases recent.len(),
{
    if recent.len() == 0 || ages.len() == 0 {
        Seq::empty()
    } else {
        let rest = kept_shots(recent.drop_last(), ages.drop_last());
        if ages.last() < SHOT_DEDUP_WINDOW_SECS { rest.push(recent.last()) } else { rest }
    }
}

/// Whether a shot id is among the remembered shots.
pub open spec fn has_shot(recent: Seq<(u32, std::time::Instant)>, id: u32) -> bool {
    exists|i: int| 0 <= i < recent.len() && #[trigger] recent[i].0 == id
}

/// A decision on one incoming frame: the session to take before sending,
/// the frames to send in order, the session once they are all sent, the
/// event to return, and the remembered shots to take (when they change).
pub struct Step {
    pub pre: Session,
    pub frames: Seq<Seq<u8>>,
    pub post: Session,
    pub event: Option<Event>,
    pub recent: Option<Seq<(u32, std::time::Instant)>>,
}

/// What a frame leads to: a refusal with an error, a refusal because its
/// protobuf payload does not decode, or a decision.
pub enum StepOutcome {
    Fail(Error),
    ProtobufFail,
    Go(Step),
}

/// A decision that changes nothing and sends nothing.
pub open spec fn idle_step(sess: Session) -> Step {
    Step { pre: sess, frames: Seq::empty(), post: sess, event: None, recent: None }
}

/// The session's reaction to a decoded Smart event: the new session, the
/// frames to send before the acknowledgement, the event to return, and the
/// remembered shots to take.
pub open spec fn smart_step(
    sess: Session,
    ev: SmartEvent,
    recent: Seq<(u32, std::time::Instant)>,
    now: std::time::Instant,
    ages: Seq<u64>,
) -> (Session, Seq<Seq<u8>>, Option<Event>, Option<Seq<(u32, std::time::Instant)>>) {
    match ev {
        SmartEvent::SubscribeResponse { success } => if sess.phase == Phase::Subscribing {
            (
                Session { phase: Phase::WakingUp, req_id_counter: next_id(sess.req_id_counter), ..sess },
                seq![request_frame(sess.req_id_counter, wakeup_request_bytes())],
                Some(Event::Subscribed { success }),
                None,
            )
        } else {
            (sess, Seq::empty(), Some(Event::Subscribed { success }), None)
        },
        SmartEvent::WakeUpResponse { status } => {
            let s1 = if sess.phase == Phase::WakingUp { Session { phase: Phase::Active, ..sess } } else { sess };
            let s2 = if status == 1 {
                Session { last_state: Some(DeviceState::Waiting), pending_event: Some(Event::Ready), ..s1 }
            } else {
                s1
            };
            (s2, Seq::empty(), Some(Event::WakeUpResponse { status }), None)
        },
        SmartEvent::StateChange(st) => {
            let changed = sess.last_state != Some(st);
            let s1 = Session { last_state: Some(st), ..sess };
            if !changed {
                (s1, Seq::empty(), None, None)
            } else if st == DeviceState::Waiting {
                (s1, Seq::empty(), Some(Event::Ready), None)
            } else if st == DeviceState::Standby && sess.phase == Phase::Active {
                (
                    Session { req_id_counter: next_id(sess.req_id_counter), ..s1 },
                    seq![request_frame(sess.req_id_counter, wakeup_request_bytes())],
                    Some(Event::StateChange(st)),
                    None,
                )
            } else {
                (s1, Seq::empty(), Some(Event::StateChange(st)), None)
            }
        },
        SmartEvent::Shot(shot) => {
            let kept = kept_shots(recent, ages);
            if has_shot(kept, shot.shot_id) {
                (sess, Seq::empty(), None, Some(kept))
            } else {
                (sess, Seq::empty(), Some(Event::Shot(shot)), Some(kept.push((shot.shot_id, now))))
            }
        },
        SmartEvent::Error(err) => (sess, Seq::empty(), Some(Event::DeviceError(err)), None),
        _ => (sess, Seq::empty(), None, None),
    }
}

/// A remembered shot id survives pruning exactly when one of its entries is
/// younger than the window.
proof fn lemma_kept_shots(recent: Seq<(u32, std::time::Instant)>, ages: Seq<u64>, id: u32)
    requires
        ages.len() == recent.len(),
    ensures
        has_shot(kept_shots(recent, ages), id)
            <==> exists|i: int| 0 <= i < recent.len() && #[trigger] recent[i].0 == id && ages[i] < SHOT_DEDUP_WINDOW_SECS,
    decreases recent.len(),
{
    if recent.len() > 0 {
        let r0 = recent.drop_last();
        let a0 = ages.drop_last();
        lemma_kept_shots(r0, a0, id);
        let rest = kept_shots(r0, a0);
        let n = recent.len() - 1;
        if ages.last() < SHOT_DEDUP_WINDOW_SECS {
            let k = rest.push(recent.last());
            if has_shot(k, id) {
                let j = choose|j: int| 0 <= j < k.len() && #[trigger] k[j].0 == id;
                if j < rest.len() {
                    assert(rest[j].0 == id);
                    let i = choose|i: int| 0 <= i < r0.len() && #[trigger] r0[i].0 == id && a0[i] < SHOT_DEDUP_WINDOW_SECS;
                    assert(recent[i] == r0[i]);
                } else {
                    assert(recent[n].0 == id);
                }
            }
            if exists|i: int| 0 <= i < recent.len() && #[trigger] recent[i].0 == id && ages[i] < SHOT_DEDUP_WINDOW_SECS {
                let i = choose|i: int| 0 <= i < recent.len() && #[trigger] recent[i].0 == id && ages[i] < SHOT_DEDUP_WINDOW_SECS;
                if i < n {
                    assert(r0[i] == recent[i]);
                    assert(has_shot(rest, id));
                    let j = choose|j: int| 0 <= j < rest.len() && #[trigger] rest[j].0 == id;
                    assert(k[j] == rest[j]);
                } else {
                    assert(k[rest.len() as int] == recent.last());
                }
            }
        } else {
            if has_shot(rest, id) {
                let i = choose|i: int| 0 <= i < r0.len() && #[trigger] r0[i].0 == id && a0[i] < SHOT_DEDUP_WINDOW_SECS;
                assert(recent[i] == r0[i]);
            }
            if exists|i: int| 0 <= i < recent.len() && #[trigger] recent[i].0 == id && ages[i] < SHOT_DEDUP_WINDOW_SECS {
                let i = choose|i: int| 0 <= i < recent.len() && #[trigger] recent[i].0 == id && ages[i] < SHOT_DEDUP_WINDOW_SECS;
                assert(i < n);
                assert(r0[i] == recent[i]);
            }
        }
    }
}

/// Shots are deduplicated by id: a shot whose id has an entry younger than
/// the window is a retransmission and yields no event, and any other shot is
/// reported and remembered with `now`. Either way only the session's
/// remembered shots change, to the pruned ones (plus the new shot).
pub proof fn lemma_shot_dedup(
    sess: Session,
    shot: ShotData,
    recent: Seq<(u32, std::time::Instant)>,
    now: std::time::Instant,
    ages: Seq<u64>,
)
    requires
        ages.len() == recent.len(),
    ensures
        ({
            let seen = exists|i: int|
                0 <= i < recent.len() && #[trigger] recent[i].0 == shot.shot_id && ages[i] < SHOT_DEDUP_WINDOW_SECS;
            let kept = kept_shots(recent, ages);
            &&& seen ==> smart_step(sess, SmartEvent::Shot(shot), recent, now, ages)
                == (sess, Seq::<Seq<u8>>::empty(), None::<Event>, Some(kept))
            &&& !seen ==> smart_step(sess, SmartEvent::Shot(shot), recent, now, ages)
                == (sess, Seq::<Seq<u8>>::empty(), Some(Event::Shot(shot)), Some(kept.push((shot.shot_id, now))))
        }),
{
    lemma_kept_shots(recent, ages, shot.shot_id);
}

/// A shot is reported once: after a shot step, the same shot id delivered
/// again while its entry is younger than the window yields no event and
/// changes nothing but the pruned remembered shots.
pub proof fn lemma_shot_reported_once(
    sess: Session,
    shot: ShotData,
    recent: Seq<(u32, std::time::Instant)>,
    now: std::time::Instant,
    ages: Seq<u64>,
    later: Session,
    again: ShotData,
    now2: std::time::Instant,
    ages2: Seq<u64>,
)
    requires
        ages.len() == recent.len(),
        again.shot_id == shot.shot_id,
        smart_step(sess, SmartEvent::Shot(shot), recent, now, ages).3 is Some,
        ages2.len() == smart_step(sess, SmartEvent::Shot(shot), recent, now, ages).3->Some_0.len(),
        forall|i: int|
            0 <= i < ages2.len() && (#[trigger] smart_step(sess, SmartEvent::Shot(shot), recent, now, ages).3->Some_0[i]).0
                == shot.shot_id ==> ages2[i] < SHOT_DEDUP_WINDOW_SECS,
    ensures
        ({
            let rec = smart_step(sess, SmartEvent::Shot(shot), recent, now, ages).3->Some_0;
            smart_step(later, SmartEvent::Shot(again), rec, now2, ages2)
                == (later, Seq::<Seq<u8>>::empty(), None::<Event>, Some(kept_shots(rec, ages2)))
        }),
{
    let rec = smart_step(sess, SmartEvent::Shot(shot), recent, now, ages).3->Some_0;
    let kept = kept_shots(recent, ages);
    lemma_kept_shots(recent, ages, shot.shot_id);
    assert(has_shot(rec, shot.shot_id)) by {
        if has_shot(kept, shot.shot_id) {
            assert(rec == kept);
        } else {
            assert(rec == kept.push((shot.shot_id, now)));
            assert(rec[kept.len() as int].0 == shot.shot_id);
        }
    }
    let j = choose|j: int| 0 <= j < rec.len() && #[trigger] rec[j].0 == shot.shot_id;
    assert(ages2[j] < SHOT_DEDUP_WINDOW_SECS);
    lemma_shot_dedup(later, again, rec, now2, ages2);
}

/// State changes are deduplicated: a notification of the state last
/// reported yields no event, sends nothing and changes nothing.
pub proof fn lemma_state_dedup(
    sess: Session,
    st: DeviceState,
    recent: Seq<(u32, std::time::Instant)>,
    now: std::time::Instant,
    ages: Seq<u64>,
)
    requires
        sess.last_state == Some(st),
    ensures
        smart_step(sess, SmartEvent::StateChange(st), recent, now, ages)
            == (sess, Seq::<Seq<u8>>::empty(), None::<Event>, None::<Seq<(u32, std::time::Instant)>>),
{
}

/// A state change is reported: a notification of a state other than the
/// last one reported returns `Ready` for WAITING and `StateChange(st)` for
/// any other state, and the session records the new state.
pub proof fn lemma_state_change_reported(
    sess: Session,
    st: DeviceState,
    recent: Seq<(u32, std::time::Instant)>,
    now: std::time::Instant,
    ages: Seq<u64>,
)
    requires
        sess.last_state != Some(st),
    ensures
        ({
            let (s2, _, ev, rec) = smart_step(sess, SmartEvent::StateChange(st), recent, now, ages);
            &&& st == DeviceState::Waiting ==> ev == Some(Event::Ready)
            &&& st != DeviceState::Waiting ==> ev == Some(Event::StateChange(st))
            &&& s2.last_state == Some(st)
            &&& s2.phase == sess.phase
            &&& rec is None
        }),
{
}

/// A wake-up answered ALREADY_AWAKE (status 1) queues `Ready` for the next
/// poll and records the device as waiting, so that a WAITING notification
/// after it is not reported again.
pub proof fn lemma_already_awake(
    sess: Session,
    recent: Seq<(u32, std::time::Instant)>,
    now: std::time::Instant,
    ages: Seq<u64>,
)
    ensures
        ({
            let s2 = smart_step(sess, SmartEvent::WakeUpResponse { status: 1 }, recent, now, ages).0;
            &&& s2.pending_event == Some(Event::Ready)
            &&& smart_step(s2, SmartEvent::StateChange(DeviceState::Waiting), recent, now, ages).2 is None
        }),
{
}

/// The decision on one incoming frame.
pub open spec fn frame_step_spec(
    sess: Session,
    f: GfdiFrameView,
    recent: Seq<(u32, std::time::Instant)>,
    now: std::time::Instant,
    ages: Seq<u64>,
) -> StepOutcome {
    let p = f.payload;
    if f.msg_type == MSG_DEVICE_INFO {
        match device_info_spec(p) {
            Err(e) => StepOutcome::Fail(e),
            Ok(_) => StepOutcome::Go(Step {
                pre: sess,
                frames: seq![ack_spec(MSG_DEVICE_INFO, 0, host_info_spec())],
                post: Session { phase: Phase::WaitCapabilities, ..sess },
                event: None,
                recent: None,
            }),
        }
    } else if f.msg_type == MSG_CONFIGURATION {
        StepOutcome::Go(Step {
            pre: sess,
            frames: seq![
                ack_spec(MSG_CONFIGURATION, 0, Seq::empty()),
                build_frame_spec(MSG_CONFIGURATION, host_capabilities_payload()),
            ],
            post: Session { phase: Phase::WaitCapabilitiesAck, ..sess },
            event: None,
            recent: None,
        })
    } else if f.msg_type == MSG_ACK {
        if p.len() < 3 {
            StepOutcome::Go(idle_step(sess))
        } else {
            let orig = gfdi::u16_le(p[0], p[1]);
            let status = p[2];
            if status != 0 {
                StepOutcome::Fail(Error::Nak { msg_type: orig, status })
            } else if orig == MSG_CONFIGURATION && sess.phase == Phase::WaitCapabilitiesAck {
                let s2 = Session { phase: Phase::Subscribing, req_id_counter: next_id(sess.req_id_counter), ..sess };
                StepOutcome::Go(Step {
                    pre: s2,
                    frames: seq![request_frame(sess.req_id_counter, subscribe_request_bytes())],
                    post: s2,
                    event: Some(Event::HandshakeComplete),
                    recent: None,
                })
            } else {
                StepOutcome::Go(idle_step(sess))
            }
        }
    } else if f.msg_type == MSG_FIT_DEFINITION || f.msg_type == MSG_FIT_DATA {
        StepOutcome::Go(Step {
            pre: sess,
            frames: seq![ack_spec(f.msg_type, 0, seq![0u8])],
            post: sess,
            event: None,
            recent: None,
        })
    } else if f.msg_type == MSG_PROTOBUF_REQUEST || f.msg_type == MSG_PROTOBUF_RESPONSE {
        match frag_header_spec(p) {
            Err(e) => StepOutcome::Fail(e),
            Ok((_, pb)) => match decode_smart_spec(pb) {
                None => StepOutcome::ProtobufFail,
                Some(ev) => {
                    let (s2, frames, event, rec) = smart_step(sess, ev, recent, now, ages);
                    StepOutcome::Go(Step {
                        pre: s2,
                        frames: frames.push(ack_spec(f.msg_type, 0, Seq::empty())),
                        post: s2,
                        event,
                        recent: rec,
                    })
                },
            },
        }
    } else {
        StepOutcome::Go(idle_step(sess))
    }
}

/// The GFDI handshake: device information (5024) is answered with the host
/// information and moves the session to waiting for capabilities; the
/// device's capabilities (5050) are acknowledged and answered with the host
/// capabilities; the device's ACK of that 5050 completes the handshake, and
/// the subscribe request goes out with the next request id.
pub proof fn lemma_handshake(
    sess: Session,
    info: Seq<u8>,
    caps: Seq<u8>,
    recent: Seq<(u32, std::time::Instant)>,
    now: std::time::Instant,
    ages: Seq<u64>,
)
    requires
        device_info_spec(info) is Ok,
    ensures
        ({
            let f1 = GfdiFrameView { msg_type: MSG_DEVICE_INFO, txn_id: None, payload: info };
            let f2 = GfdiFrameView { msg_type: MSG_CONFIGURATION, txn_id: None, payload: caps };
            let f3 = GfdiFrameView {
                msg_type: MSG_ACK,
                txn_id: None,
                payload: multilink::le16(MSG_CONFIGURATION) + seq![0u8],
            };
            &&& frame_step_spec(sess, f1, recent, now, ages) matches StepOutcome::Go(st1)
            &&& st1.frames == seq![ack_spec(MSG_DEVICE_INFO, 0, host_info_spec())]
            &&& st1.post.phase == Phase::WaitCapabilities
            &&& st1.event is None
            &&& frame_step_spec(st1.post, f2, recent, now, ages) matches StepOutcome::Go(st2)
            &&& st2.frames == seq![
                ack_spec(MSG_CONFIGURATION, 0, Seq::empty()),
                build_frame_spec(MSG_CONFIGURATION, host_capabilities_payload()),
            ]
            &&& st2.post.phase == Phase::WaitCapabilitiesAck
            &&& st2.event is None
            &&& frame_step_spec(st2.post, f3, recent, now, ages) matches StepOutcome::Go(st3)
            &&& st3.frames == seq![request_frame(sess.req_id_counter, subscribe_request_bytes())]
            &&& st3.post.phase == Phase::Subscribing
            &&& st3.post.req_id_counter == next_id(sess.req_id_counter)
            &&& st3.event == Some(Event::HandshakeComplete)
        }),
{
    let p = multilink::le16(MSG_CONFIGURATION) + seq![0u8];
    let lo = p[0];
    let hi = p[1];
    assert(lo == ((5050u16 & 0xFF) as u8) && hi == ((5050u16 >> 8) as u8));
    assert(gfdi::u16_le(lo, hi) == 5050u16) by (bit_vector)
        requires
            lo == ((5050u16 & 0xFF) as u8),
            hi == ((5050u16 >> 8) as u8),
    ;
}

/// The protobuf session: a subscribe response while subscribing sends the
/// wake-up request with the next request id and moves on to waking up; the
/// wake-up response while waking up makes the session active; and an active
/// device that falls back to STANDBY is woken up again.
pub proof fn lemma_session_setup(
    sess: Session,
    success: bool,
    status: i32,
    recent: Seq<(u32, std::time::Instant)>,
    now: std::time::Instant,
    ages: Seq<u64>,
)
    requires
        sess.phase == Phase::Subscribing,
    ensures
        ({
            let (s1, f1, e1, _) = smart_step(sess, SmartEvent::SubscribeResponse { success }, recent, now, ages);
            let (s2, f2, e2, _) = smart_step(s1, SmartEvent::WakeUpResponse { status }, recent, now, ages);
            let s3 = Session { last_state: Some(DeviceState::Waiting), ..s2 };
            let (s4, f4, e4, _) = smart_step(s3, SmartEvent::StateChange(DeviceState::Standby), recent, now, ages);
            &&& s1.phase == Phase::WakingUp
            &&& f1 == seq![request_frame(sess.req_id_counter, wakeup_request_bytes())]
            &&& e1 == Some(Event::Subscribed { success })
            &&& s1.req_id_counter == next_id(sess.req_id_counter)
            &&& s2.phase == Phase::Active
            &&& f2 == Seq::<Seq<u8>>::empty()
            &&& e2 == Some(Event::WakeUpResponse { status })
            &&& f4 == seq![request_frame(s1.req_id_counter, wakeup_request_bytes())]
            &&& e4 == Some(Event::StateChange(DeviceState::Standby))
            &&& s4.req_id_counter == next_id(s1.req_id_counter)
        }),
{
}

/// The remembered shots a decision takes, if it is one that takes them.
pub open spec fn outcome_recent(o: StepOutcome) -> Option<Seq<(u32, std::time::Instant)>> {
    match o {
        StepOutcome::Go(st) => st.recent,
        _ => None,
    }
}

/// Whether `f` is a protobuf frame whose Smart message stands for the shot `s`.
pub open spec fn carries_shot(f: GfdiFrameView, s: ShotData) -> bool {
    &&& f.msg_type == MSG_PROTOBUF_REQUEST || f.msg_type == MSG_PROTOBUF_RESPONSE
    &&& frag_header_spec(f.payload) matches Ok((_, pb)) && decode_smart_spec(pb) == Some(SmartEvent::Shot(s))
}

/// A retransmitted shot is reported once, in any phase: a frame carrying a
/// shot whose id has no entry younger than the window is reported (and
/// acknowledged); a second frame carrying the same shot id, handled with
/// the remembered shots the first left, while that id's entry is younger
/// than the window, yields no event and sends only its acknowledgement.
pub proof fn lemma_retransmitted_shot(
    sess: Session,
    f1: GfdiFrameView,
    s1: ShotData,
    recent: Seq<(u32, std::time::Instant)>,
    now: std::time::Instant,
    ages: Seq<u64>,
    later: Session,
    f2: GfdiFrameView,
    s2: ShotData,
    now2: std::time::Instant,
    ages2: Seq<u64>,
)
    requires
        carries_shot(f1, s1),
        carries_shot(f2, s2),
        s2.shot_id == s1.shot_id,
        ages.len() == recent.len(),
        forall|i: int| 0 <= i < recent.len() && (#[trigger] recent[i]).0 == s1.shot_id ==> ages[i] >= SHOT_DEDUP_WINDOW_SECS,
        outcome_recent(frame_step_spec(sess, f1, recent, now, ages)) is Some,
        ages2.len() == outcome_recent(frame_step_spec(sess, f1, recent, now, ages))->Some_0.len(),
        forall|i: int|
            0 <= i < ages2.len() && (#[trigger] outcome_recent(frame_step_spec(sess, f1, recent, now, ages))->Some_0[i]).0
                == s1.shot_id ==> ages2[i] < SHOT_DEDUP_WINDOW_SECS,
    ensures
        frame_step_spec(sess, f1, recent, now, ages) matches StepOutcome::Go(st1) && st1.event == Some(Event::Shot(s1))
            && st1.frames == seq![ack_spec(f1.msg_type, 0, Seq::empty())],
        ({
            let rec = outcome_recent(frame_step_spec(sess, f1, recent, now, ages))->Some_0;
            &&& frame_step_spec(later, f2, rec, now2, ages2) matches StepOutcome::Go(st2)
            &&& st2.event is None
            &&& st2.frames == seq![ack_spec(f2.msg_type, 0, Seq::empty())]
            &&& st2.post == later
        }),
{
    lemma_shot_dedup(sess, s1, recent, now, ages);
    lemma_kept_shots(recent, ages, s1.shot_id);
    assert(Seq::<Seq<u8>>::empty().push(ack_spec(f1.msg_type, 0, Seq::empty())) =~= seq![ack_spec(f1.msg_type, 0, Seq::empty())]);
    assert(Seq::<Seq<u8>>::empty().push(ack_spec(f2.msg_type, 0, Seq::empty())) =~= seq![ack_spec(f2.msg_type, 0, Seq::empty())]);
    lemma_shot_reported_once(sess, s1, recent, now, ages, later, s2, now2, ages2);
}

/// Whether `f` is a protobuf frame whose Smart message stands for `ev`.
pub open spec fn carries_event(f: GfdiFrameView, ev: SmartEvent) -> bool {
    &&& f.msg_type == MSG_PROTOBUF_REQUEST || f.msg_type == MSG_PROTOBUF_RESPONSE
    &&& frag_header_spec(f.payload) matches Ok((_, pb)) && decode_smart_spec(pb) == Some(ev)
}

/// A device error is always surfaced: in any session, a protobuf frame
/// whose Smart message is a device error `e` is acknowledged and returns
/// `Event::DeviceError(e)`, leaving the session and the remembered shots as
/// they are.
pub proof fn lemma_device_error_reported(
    sess: Session,
    f: GfdiFrameView,
    e: DeviceError,
    recent: Seq<(u32, std::time::Instant)>,
    now: std::time::Instant,
    ages: Seq<u64>,
)
    requires
        carries_event(f, SmartEvent::Error(e)),
    ensures
        frame_step_spec(sess, f, recent, now, ages) matches StepOutcome::Go(st) && {
            &&& st.event == Some(Event::DeviceError(e))
            &&& st.frames == seq![ack_spec(f.msg_type, 0, Seq::empty())]
            &&& st.pre == sess
            &&& st.post == sess
            &&& st.recent is None
        },
{
    assert(Seq::<Seq<u8>>::empty().push(ack_spec(f.msg_type, 0, Seq::empty())) =~= seq![ack_spec(f.msg_type, 0, Seq::empty())]);
}

/// A decision carried out by `Client::poll`.
pub struct Decision {
    pub pre: Session,
    pub frames: Vec<Vec<u8>>,
    pub post: Session,
    pub event: Option<Event>,
    pub recent: Option<Vec<(u32, std::time::Instant)>>,
}

/// The decision as plain values.
pub open spec fn decision_view(d: Decision) -> Step {
    Step {
        pre: d.pre,
        frames: d.frames.deep_view(),
        post: d.post,
        event: d.event,
        recent: match d.recent {
            None => None,
            Some(v) => Some(v@),
        },
    }
}

/// What `frame_step` returns, as an outcome.
pub open spec fn step_result_view(r: Result<Decision, Error>) -> StepOutcome {
    match r {
        Ok(d) => StepOutcome::Go(decision_view(d)),
        Err(Error::Protobuf(_)) => StepOutcome::ProtobufFail,
        Err(e) => StepOutcome::Fail(e),
    }
}

fn next_req_id(id: u16) -> (r: u16)
    ensures
        r == next_id(id),
{
    if id == u16::MAX { 0 } else { id + 1 }
}

/// Prune the remembered shots: keep those whose age is below the window.
pub fn prune_shots(recent: &Vec<(u32, std::time::Instant)>, ages: &Vec<u64>) -> (r: Vec<(u32, std::time::Instant)>)
    requires
        ages@.len() == recent@.len(),
    ensures
        r@ == kept_shots(recent@, ages@),
{
    let mut out: Vec<(u32, std::time::Instant)> = Vec::new();
    let mut i: usize = 0;
    while i < recent.len()
        invariant
            i <= recent@.len(),
            ages@.len() == recent@.len(),
            out@ == kept_shots(recent@.take(i as int), ages@.take(i as int)),
        decreases recent.len() - i,
    {
        let (id, t) = recent[i];
        if ages[i] < SHOT_DEDUP_WINDOW_SECS {
            out.push((id, t));
        }
        proof {
            assert(recent@.take(i + 1).drop_last() =~= recent@.take(i as int));
            assert(ages@.take(i + 1).drop_last() =~= ages@.take(i as int));
        }
        i += 1;
    }
    assert(recent@.take(i as int) =~= recent@);
    assert(ages@.take(i as int) =~= ages@);
    out
}

fn contains_shot(recent: &Vec<(u32, std::time::Instant)>, id: u32) -> (r: bool)
    ensures
        r == has_shot(recent@, id),
{
    let mut i: usize = 0;
    while i < recent.len()
        invariant
            i <= recent@.len(),
            forall|j: int| 0 <= j < i ==> recent@[j].0 != id,
        decreases recent.len() - i,
    {
        if recent[i].0 == id {
            assert(recent@[i as int].0 == id);
            return true;
        }
        i += 1;
    }
    false
}

fn same_state(a: Option<DeviceState>, b: DeviceState) -> (r: bool)
    ensures
        r == (a == Some(b)),
{
    match a {
        None => false,
        Some(x) => x == b,
    }
}

fn single(frame: Vec<u8>) -> (r: Vec<Vec<u8>>)
    ensures
        r.deep_view() == seq![frame@],
{
    let ghost fv = frame@;
    assert(frame.deep_view() =~= fv);
    let mut v: Vec<Vec<u8>> = Vec::new();
    v.push(frame);
    assert(v@[0].deep_view() == fv);
    assert(v.deep_view() =~= seq![fv]);
    v
}

/// The reaction to a decoded Smart event (see `smart_step`).
fn smart_decision(
    sess: &Session,
    ev: SmartEvent,
    recent: &Vec<(u32, std::time::Instant)>,
    now: std::time::Instant,
    ages: &Vec<u64>,
) -> (r: (Session, Vec<Vec<u8>>, Option<Event>, Option<Vec<(u32, std::time::Instant)>>))
    requires
        ages@.len() == recent@.len(),
    ensures
        smart_step(*sess, ev, recent@, now, ages@) == (r.0, r.1.deep_view(), r.2, match r.3 {
            None => None,
            Some(v) => Some(v@),
        }),
{
    let mut s2 = *sess;
    let mut frames: Vec<Vec<u8>> = Vec::new();
    assert(frames.deep_view() =~= Seq::<Seq<u8>>::empty());
    let mut event: Option<Event> = None;
    let mut rec: Option<Vec<(u32, std::time::Instant)>> = None;
    match ev {
        SmartEvent::SubscribeResponse { success } => {
            if sess.phase == Phase::Subscribing {
                s2 = Session { phase: Phase::WakingUp, req_id_counter: next_req_id(sess.req_id_counter), ..*sess };
                let pb = proto::build_wakeup_request();
                frames = single(gfdi::build_protobuf_request(sess.req_id_counter, pb.as_slice()));
            }
            event = Some(Event::Subscribed { success });
        },
        SmartEvent::WakeUpResponse { status } => {
            if sess.phase == Phase::WakingUp {
                s2 = Session { phase: Phase::Active, ..*sess };
            }
            // status 1 = ALREADY_AWAKE: device won't send state transitions,
            // it's already in WAITING from a previous session.
            // Emit WakeUpResponse now, queue Ready for next poll().
            if status == 1 {
                s2 = Session { last_state: Some(DeviceState::Waiting), pending_event: Some(Event::Ready), ..s2 };
            }
            event = Some(Event::WakeUpResponse { status });
        },
        SmartEvent::StateChange(state) => {
            let changed = !same_state(sess.last_state, state);
            s2 = Session { last_state: Some(state), ..*sess };
            if changed {
                if state == DeviceState::Waiting {
                    event = Some(Event::Ready);
                } else {
                    // Device went to Standby while active — re-arm it.
                    if state == DeviceState::Standby && sess.phase == Phase::Active {
                        s2 = Session { req_id_counter: next_req_id(sess.req_id_counter), ..s2 };
                        let pb = proto::build_wakeup_request();
                        frames = single(gfdi::build_protobuf_request(sess.req_id_counter, pb.as_slice()));
                    }
                    event = Some(Event::StateChange(state));
                }
            }
        },
        SmartEvent::Shot(shot) => {
            // Prune shots older than the dedup window.
            let mut kept = prune_shots(recent, ages);
            // Check if we've already seen this shot ID.
            if !contains_shot(&kept, shot.shot_id) {
                kept.push((shot.shot_id, now));
                event = Some(Event::Shot(shot));
            }
            rec = Some(kept);
        },
        SmartEvent::Error(err) => {
            event = Some(Event::DeviceError(err));
        },
        _ => {},
    }
    (s2, frames, event, rec)
}

fn protobuf_step(
    sess: &Session,
    frame: &GfdiFrame,
    recent: &Vec<(u32, std::time::Instant)>,
    now: std::time::Instant,
    ages: &Vec<u64>,
) -> (r: Result<Decision, Error>)
    requires
        ages@.len() == recent@.len(),
        frame.msg_type == MSG_PROTOBUF_REQUEST || frame.msg_type == MSG_PROTOBUF_RESPONSE,
    ensures
        step_result_view(r) == frame_step_spec(*sess, frame@, recent@, now, ages@),
{
    let (_hdr, pb_data) = gfdi::parse_frag_header(frame.payload.as_slice())?;
    let smart_event = match proto::decode_smart(pb_data) {
        Ok(e) => e,
        Err(e) => return Err(Error::Protobuf(e)),
    };
    let (s2, mut frames, event, rec) = smart_decision(sess, smart_event, recent, now, ages);
    let no_payload: Vec<u8> = Vec::new();
    let ack = gfdi::build_ack(frame.msg_type, 0, no_payload.as_slice());
    let ghost before = frames.deep_view();
    let ghost a = ack@;
    assert(ack.deep_view() =~= a);
    frames.push(ack);
    proof {
        assert(frames.deep_view() =~= before.push(a));
    }
    Ok(Decision { pre: s2, frames, post: s2, event, recent: rec })
}

fn ack_step(sess: &Session, frame: &GfdiFrame) -> (r: Result<Decision, Error>)
    requires
        frame.msg_type == MSG_ACK,
    ensures
        forall|recent: Seq<(u32, std::time::Instant)>, now: std::time::Instant, ages: Seq<u64>|
            step_result_view(r) == #[trigger] frame_step_spec(*sess, frame@, recent, now, ages),
{
    let p = frame.payload.as_slice();
    let no_frames: Vec<Vec<u8>> = Vec::new();
    assert(no_frames.deep_view() =~= Seq::<Seq<u8>>::empty());
    let idle = Decision { pre: *sess, frames: no_frames, post: *sess, event: None, recent: None };
    if p.len() < 3 {
        return Ok(idle);
    }
    let orig_type = (p[0] as u16) | ((p[1] as u16) << 8);
    let status = p[2];
    if status != 0 {
        return Err(Error::Nak { msg_type: orig_type, status });
    }
    // Handshake completes when device ACKs our 5050
    if orig_type == MSG_CONFIGURATION && sess.phase == Phase::WaitCapabilitiesAck {
        let s2 = Session { phase: Phase::Subscribing, req_id_counter: next_req_id(sess.req_id_counter), ..*sess };
        let pb_data = proto::build_subscribe_request();
        let request = gfdi::build_protobuf_request(sess.req_id_counter, pb_data.as_slice());
        return Ok(Decision {
            pre: s2,
            frames: single(request),
            post: s2,
            event: Some(Event::HandshakeComplete),
            recent: None,
        });
    }
    Ok(idle)
}

/// Decide on one incoming frame. The remembered shots are pruned with the
/// given ages (seconds since each was seen, one per entry) and `now` is the
/// time recorded for a new shot.
pub fn frame_step(
    sess: &Session,
    frame: &GfdiFrame,
    recent: &Vec<(u32, std::time::Instant)>,
    now: std::time::Instant,
    ages: &Vec<u64>,
) -> (r: Result<Decision, Error>)
    requires
        ages@.len() == recent@.len(),
    ensures
        step_result_view(r) == frame_step_spec(*sess, frame@, recent@, now, ages@),
{
    if frame.msg_type == MSG_DEVICE_INFO {
        let _info = gfdi::parse_device_info(frame.payload.as_slice())?;
        let response = gfdi::build_device_info_response();
        return Ok(Decision {
            pre: *sess,
            frames: single(response),
            post: Session { phase: Phase::WaitCapabilities, ..*sess },
            event: None,
            recent: None,
        });
    }
    if frame.msg_type == MSG_CONFIGURATION {
        let _caps = gfdi::parse_capabilities(frame.payload.as_slice());
        let no_payload: Vec<u8> = Vec::new();
        let ack = gfdi::build_ack(MSG_CONFIGURATION, 0, no_payload.as_slice());
        let caps = gfdi::build_host_capabilities();
        let ghost a = ack@;
        let ghost c = caps@;
        assert(ack.deep_view() =~= a);
        assert(caps.deep_view() =~= c);
        let mut frames: Vec<Vec<u8>> = Vec::new();
        frames.push(ack);
        frames.push(caps);
        assert(frames.deep_view() =~= seq![a, c]);
        return Ok(Decision {
            pre: *sess,
            frames,
            post: Session { phase: Phase::WaitCapabilitiesAck, ..*sess },
            event: None,
            recent: None,
        });
    }
    if frame.msg_type == MSG_ACK {
        return ack_step(sess, frame);
    }
    if frame.msg_type == MSG_FIT_DEFINITION || frame.msg_type == MSG_FIT_DATA {
        let mut status_ok: Vec<u8> = Vec::new();
        status_ok.push(0x00);
        assert(status_ok@ =~= seq![0u8]);
        let ack = gfdi::build_ack(frame.msg_type, 0, status_ok.as_slice());
        return Ok(Decision { pre: *sess, frames: single(ack), post: *sess, event: None, recent: None });
    }
    if frame.msg_type == MSG_PROTOBUF_REQUEST || frame.msg_type == MSG_PROTOBUF_RESPONSE {
        return protobuf_step(sess, frame, recent, now, ages);
    }
    let no_frames: Vec<Vec<u8>> = Vec::new();
    assert(no_frames.deep_view() =~= Seq::<Seq<u8>>::empty());
    Ok(Decision { pre: *sess, frames: no_frames, post: *sess, event: None, recent: None })
}


// ── The client ──

/// Calls `std::time::Instant::now`. Nothing is claimed of the result.
#[verifier::external_body]
fn instant_now() -> std::time::Instant {
    std::time::Instant::now()
}

/// Calls `Instant::duration_since` (which saturates at zero): the time from
/// `earlier` to `now`. Nothing is claimed of the result, which rests on the
/// clock.
#[verifier::external_body]
fn duration_between(now: &std::time::Instant, earlier: &std::time::Instant) -> std::time::Duration {
    now.duration_since(*earlier)
}

/// Calls `Duration::as_secs`: the whole seconds of `d`. Nothing is claimed
/// of the result, as a duration is opaque here.
#[verifier::external_body]
fn whole_secs(d: &std::time::Duration) -> u64 {
    d.as_secs()
}

/// Calls `std::io::Error::kind` and tells whether it is `WouldBlock`.
/// Nothing is claimed of the result.
#[verifier::external_body]
fn is_would_block(e: &std::io::Error) -> bool {
    match e.kind() {
        std::io::ErrorKind::WouldBlock => true,
        _ => false,
    }
}

/// The BLE write chunks that carry `frames` in order, COBS-wrapped, each
/// prefixed with `handle`, at most `mtu - 1` data bytes per chunk.
pub open spec fn chunks_of(frames: Seq<Seq<u8>>, handle: u8, mtu: usize) -> Seq<Seq<u8>>
    decreases frames.len(),
{
    if frames.len() == 0 {
        Seq::empty()
    } else {
        handle_chunks(wrap_spec(frames[0]), handle, (if mtu == 0 { 0 } else { mtu - 1 }) as nat)
            + chunks_of(frames.drop_first(), handle, mtu)
    }
}

proof fn lemma_payloads_concat(a: Seq<Seq<u8>>, b: Seq<Seq<u8>>)
    ensures
        multilink::chunk_payloads(a + b) == multilink::chunk_payloads(a) + multilink::chunk_payloads(b),
    decreases a.len(),
{
    if a.len() == 0 {
        assert(a + b =~= b);
        assert(Seq::<u8>::empty() + multilink::chunk_payloads(b) =~= multilink::chunk_payloads(b));
    } else {
        lemma_payloads_concat(a.drop_first(), b);
        assert((a + b).drop_first() =~= a.drop_first() + b);
        assert((a + b)[0] == a[0]);
    }
}

/// Every chunk the client writes for a frame carries the session handle as
/// its first byte and at most `mtu` bytes in all, and the data bytes of the
/// chunks, joined, are the frames wrapped for the wire, in order.
pub proof fn lemma_chunks_carry_frames(frames: Seq<Seq<u8>>, handle: u8, mtu: usize)
    requires
        mtu >= 2,
    ensures
        multilink::chunk_payloads(chunks_of(frames, handle, mtu)) == wire_of(frames),
        forall|i: int|
            0 <= i < chunks_of(frames, handle, mtu).len() ==> {
                let c = #[trigger] chunks_of(frames, handle, mtu)[i];
                &&& 2 <= c.len() <= mtu
                &&& c[0] == handle
            },
    decreases frames.len(),
{
    if frames.len() > 0 {
        let p = (mtu - 1) as nat;
        let first = handle_chunks(wrap_spec(frames[0]), handle, p);
        let rest = chunks_of(frames.drop_first(), handle, mtu);
        multilink::lemma_chunks_reassemble(wrap_spec(frames[0]), handle, p);
        lemma_chunks_carry_frames(frames.drop_first(), handle, mtu);
        lemma_payloads_concat(first, rest);
        let all = chunks_of(frames, handle, mtu);
        assert(all == first + rest);
        assert forall|i: int| 0 <= i < all.len() implies {
            let c = #[trigger] all[i];
            &&& 2 <= c.len() <= mtu
            &&& c[0] == handle
        } by {
            if i < first.len() {
                assert(all[i] == first[i]);
            } else {
                assert(all[i] == rest[i - first.len()]);
            }
        }
    }
}

/// End to end: when the client writes a standard-header frame followed by
/// more frames, a reader that strips the handle from each chunk and feeds
/// the data to a stream buffer holding no zero byte gets the frame's type
/// and payload back from its next `next_frame`, with the later frames
/// buffered, whenever the frame's bytes survive COBS.
pub proof fn lemma_sent_frame_arrives(
    pre: Seq<u8>,
    msg_type: u16,
    payload: Seq<u8>,
    later: Seq<Seq<u8>>,
    handle: u8,
    mtu: usize,
)
    requires
        mtu >= 2,
        forall|j: int| 0 <= j < pre.len() ==> pre[j] != 0,
        msg_type & 0x8000 == 0,
        crate::cobs::roundtrips(build_frame_spec(msg_type, payload)),
    ensures
        next_frame_spec(pre + multilink::chunk_payloads(chunks_of(seq![build_frame_spec(msg_type, payload)] + later, handle, mtu)))
            == (Some(Ok::<GfdiFrameView, Error>(GfdiFrameView { msg_type, txn_id: None, payload })), wire_of(later)),
{
    let f = build_frame_spec(msg_type, payload);
    let fs = seq![f] + later;
    lemma_chunks_carry_frames(fs, handle, mtu);
    assert(fs[0] == f);
    assert(fs.drop_first() =~= later);
    assert(wire_of(fs) == wrap_spec(f) + wire_of(later));
    gfdi::lemma_frame_roundtrip(msg_type, payload);
    assert(f.len() > 0) by {
        assert(f.len() == 6 + payload.len());
    }
    gfdi::lemma_stream_frame(pre, f, wire_of(later));
    assert(pre + wrap_spec(f) + wire_of(later) =~= pre + (wrap_spec(f) + wire_of(later)));
}

/// The state of a client as plain values: its session, the bytes waiting in
/// its stream buffer, the shots it remembers, its write chunk size, and the
/// chunks it has written so far to the data channel and to the register
/// channel.
pub struct ClientView {
    pub session: Session,
    pub stream: Seq<u8>,
    pub recent: Seq<(u32, std::time::Instant)>,
    pub mtu: usize,
    pub sent: Seq<Seq<u8>>,
    pub registered: Seq<Seq<u8>>,
}

/// What a poll returns: an event (or none), a protocol error, a protobuf
/// decoding error, or a transport error.
pub enum PollOutcome {
    Done(Option<Event>),
    Fail(Error),
    ProtobufFail,
    TransportFail,
}

pub open spec fn poll_result_view(r: Result<Option<Event>, Error>) -> PollOutcome {
    match r {
        Ok(e) => PollOutcome::Done(e),
        Err(Error::Protobuf(_)) => PollOutcome::ProtobufFail,
        Err(Error::Transport(_)) => PollOutcome::TransportFail,
        Err(e) => PollOutcome::Fail(e),
    }
}

/// The state `v` after the chunks `extra` were written to the data channel.
pub open spec fn with_sent(v: ClientView, extra: Seq<Seq<u8>>) -> ClientView {
    ClientView { sent: v.sent + extra, ..v }
}

/// Carry out a decision: take its first session and remembered shots, then
/// write the chunks of its frames; if write number `k` fails (`fail_at`) the
/// poll stops there with a transport error, else the second session is taken
/// and the event returned.
pub open spec fn exec_step(v: ClientView, st: Step, fail_at: Option<nat>) -> (ClientView, PollOutcome) {
    let v1 = ClientView {
        session: st.pre,
        recent: match st.recent {
            None => v.recent,
            Some(r) => r,
        },
        ..v
    };
    let all = chunks_of(st.frames, st.pre.handle, v.mtu);
    match fail_at {
        Some(k) => if k < all.len() {
            (ClientView { sent: v.sent + all.take(k as int), ..v1 }, PollOutcome::TransportFail)
        } else {
            (ClientView { session: st.post, sent: v.sent + all, ..v1 }, PollOutcome::Done(st.event))
        },
        None => (ClientView { session: st.post, sent: v.sent + all, ..v1 }, PollOutcome::Done(st.event)),
    }
}

/// Take the next complete frame from the stream buffer, if any, and act on it.
pub open spec fn frame_spec(
    v: ClientView,
    now: std::time::Instant,
    ages: Seq<u64>,
    fail_at: Option<nat>,
) -> (ClientView, PollOutcome) {
    let (res, rest) = next_frame_spec(v.stream);
    let v2 = ClientView { stream: rest, ..v };
    match res {
        None => (v2, PollOutcome::Done(None)),
        Some(Err(e)) => (v2, PollOutcome::Fail(e)),
        Some(Ok(f)) => match frame_step_spec(v2.session, f, v2.recent, now, ages) {
            StepOutcome::Fail(e) => (v2, PollOutcome::Fail(e)),
            StepOutcome::ProtobufFail => (v2, PollOutcome::ProtobufFail),
            StepOutcome::Go(st) => exec_step(v2, st, fail_at),
        },
    }
}

/// Feed the data of a chunk to the stream buffer: refused (and the buffer
/// emptied) when it would grow past its cap.
pub open spec fn feed_spec(v: ClientView, data: Seq<u8>) -> Option<ClientView> {
    if v.stream.len() + data.len() > gfdi::STREAM_BUFFER_MAX {
        None
    } else {
        Some(ClientView { stream: v.stream + data, ..v })
    }
}

/// A feed that overflowed: the buffer is emptied and the poll fails.
pub open spec fn overflow_spec(v: ClientView, data: Seq<u8>) -> (ClientView, PollOutcome) {
    (
        ClientView { stream: Seq::empty(), ..v },
        PollOutcome::Fail(Error::FrameTooShort { len: data.len() as usize, min: 0 }),
    )
}

/// A chunk that arrived while registering: the register response, or else
/// GFDI data arriving alongside it (the device sends 5024 immediately),
/// which goes to the stream buffer when it carries our handle.
pub open spec fn register_chunk_spec(v: ClientView, chunk: Seq<u8>) -> (ClientView, PollOutcome) {
    match register_response_spec(chunk) {
        Some((RegisterStatus::Success, handle, _)) => (
            ClientView { session: Session { handle, phase: Phase::WaitDeviceInfo, ..v.session }, ..v },
            PollOutcome::Done(Some(Event::Registered { handle })),
        ),
        Some((st, _, _)) => (v, PollOutcome::Fail(Error::MultiLinkRegister(st.spec_code()))),
        None => if chunk.len() > 0 && chunk[0] == v.session.handle {
            match feed_spec(v, chunk.drop_first()) {
                None => overflow_spec(v, chunk.drop_first()),
                Some(v2) => (v2, PollOutcome::Done(None)),
            }
        } else {
            (v, PollOutcome::Done(None))
        },
    }
}

/// One poll without a pending event, given the chunk read (empty when no
/// data was available), the time and the ages of the remembered shots, and
/// the write that fails, if any.
pub open spec fn poll_spec(
    v: ClientView,
    chunk: Seq<u8>,
    now: std::time::Instant,
    ages: Seq<u64>,
    fail_at: Option<nat>,
) -> (ClientView, PollOutcome) {
    if chunk.len() == 0 {
        frame_spec(v, now, ages, fail_at)
    } else if v.session.phase == Phase::Registering {
        // In registration phase, the first response is the register response.
        register_chunk_spec(v, chunk)
    } else if chunk[0] == v.session.handle {
        match feed_spec(v, chunk.drop_first()) {
            None => overflow_spec(v, chunk.drop_first()),
            Some(v2) => frame_spec(v2, now, ages, fail_at),
        }
    } else {
        frame_spec(v, now, ages, fail_at)
    }
}

/// What a read from the transport gave.
pub enum ReadOutcome {
    /// A chunk of data.
    Data(Vec<u8>),
    /// No data: the read would block, or read nothing.
    NoData,
    /// The read failed.
    Failed(std::io::Error),
}

/// Poll-based R10 client.
pub struct Client<T: Transport> {
    transport: T,
    mtu: usize,
    session: Session,
    stream_buf: StreamBuffer,
    /// Recent shot IDs with timestamps for dedup across overlapping replays.
    recent_shots: Vec<(u32, std::time::Instant)>,
    read_buf: Vec<u8>,
    sent: Ghost<Seq<Seq<u8>>>,
    registered: Ghost<Seq<Seq<u8>>>,
}

impl<T: Transport> View for Client<T> {
    type V = ClientView;

    closed spec fn view(&self) -> ClientView {
        ClientView {
            session: self.session,
            stream: self.stream_buf@,
            recent: self.recent_shots@,
            mtu: self.mtu,
            sent: self.sent@,
            registered: self.registered@,
        }
    }
}

impl<T: Transport> Client<T> {
    /// The transport the client was made with.
    pub closed spec fn spec_transport(&self) -> T {
        self.transport
    }

    /// Create a new client.
    ///
    /// `mtu` is the BLE ATT_MTU (typically 23 for unmodified connections, up to 515
    /// after negotiation). The effective write payload is `mtu - 3` (ATT header),
    /// capped at 20 for most R10 connections.
    ///
    /// After construction, call `start()` to begin the MultiLink registration,
    /// then poll in a loop.
    pub fn new(transport: T, mtu: usize) -> (r: Self)
        ensures
            r@ == (ClientView {
                session: initial_session(),
                stream: Seq::empty(),
                recent: Seq::empty(),
                mtu: if mtu < 20 { mtu } else { 20 },
                sent: Seq::empty(),
                registered: Seq::empty(),
            }),
            r.spec_transport() == transport,
    {
        let mut read_buf: Vec<u8> = Vec::new();
        let mut i: usize = 0;
        while i < 512
            invariant
                i <= 512,
                read_buf@.len() == i,
            decreases 512 - i,
        {
            read_buf.push(0);
            i += 1;
        }
        Self {
            transport,
            mtu: if mtu < 20 { mtu } else { 20 }, // R10 typically uses MTU 23 → 20 usable
            session: Session {
                handle: 0,
                phase: Phase::Registering,
                req_id_counter: 1,
                last_state: None,
                pending_event: None,
            },
            stream_buf: StreamBuffer::new(),
            recent_shots: Vec::new(),
            read_buf,
            sent: Ghost(Seq::empty()),
            registered: Ghost(Seq::empty()),
        }
    }

    /// Send the MultiLink REGISTER command to start the connection.
    ///
    /// # Errors
    ///
    /// Returns `Err` on transport write failure.
    pub fn start(&mut self) -> (r: Result<(), Error>)
        ensures
            r is Ok ==> final(self)@ == (ClientView {
                session: Session { phase: Phase::Registering, ..old(self)@.session },
                registered: old(self)@.registered.push(register_spec(1, ServiceId::Gfdi)),
                ..old(self)@
            }),
            r is Err ==> r->Err_0 is Transport && final(self)@ == old(self)@,
    {
        let cmd = multilink::build_register(1, ServiceId::Gfdi);
        match self.transport.write_register(cmd.as_slice()) {
            Ok(()) => {},
            Err(e) => return Err(Error::Transport(e)),
        }
        proof {
            self.registered@ = self.registered@.push(cmd@);
        }
        self.session = Session { phase: Phase::Registering, ..self.session };
        Ok(())
    }

    /// Write the chunks that carry `frames`, in order, stopping at the first
    /// write that fails.
    fn send_frames(&mut self, frames: &Vec<Vec<u8>>) -> (r: Result<(), Error>)
        ensures
            ({
                let all = chunks_of(frames.deep_view(), old(self)@.session.handle, old(self)@.mtu);
                &&& r is Ok ==> final(self)@ == with_sent(old(self)@, all)
                &&& r is Err ==> {
                    &&& r->Err_0 is Transport
                    &&& exists|k: nat| k < all.len() && final(self)@ == #[trigger] with_sent(old(self)@, all.take(k as int))
                }
            }),
    {
        let ghost fs = frames.deep_view();
        let ghost handle = self.session.handle;
        let ghost all = chunks_of(fs, handle, self.mtu);
        let ghost v0 = self@;
        let ghost mut done: int = 0;
        let mut i: usize = 0;
        assert(fs.skip(0) =~= fs);
        assert(all.take(0) =~= Seq::<Seq<u8>>::empty());
        assert(v0.sent + all.take(0) =~= v0.sent);
        while i < frames.len()
            invariant
                i <= frames@.len(),
                v0 == old(self)@,
                fs == frames.deep_view(),
                fs.len() == frames@.len(),
                self.session == v0.session,
                self.mtu == v0.mtu,
                handle == v0.session.handle,
                all == chunks_of(fs, handle, v0.mtu),
                0 <= done <= all.len(),
                all.skip(done) == chunks_of(fs.skip(i as int), handle, v0.mtu),
                self@ == with_sent(v0, all.take(done)),
            decreases frames.len() - i,
        {
            let wrapped = gfdi::wrap_cobs(frames[i].as_slice());
            let chunks = multilink::chunk_with_handle(wrapped.as_slice(), self.session.handle, self.mtu);
            let ghost hc = chunks.deep_view();
            proof {
                assert(frames@[i as int].deep_view() =~= frames@[i as int]@);
                assert(fs.skip(i as int)[0] == fs[i as int]);
                assert(fs.skip(i as int).drop_first() =~= fs.skip(i + 1));
                assert(all.skip(done) == hc + chunks_of(fs.skip(i + 1), handle, v0.mtu));
                assert forall|m: int| 0 <= m < hc.len() implies all[done + m] == #[trigger] hc[m] by {
                    assert(all.skip(done)[m] == all[done + m]);
                }
            }
            let mut j: usize = 0;
            while j < chunks.len()
                invariant
                    j <= chunks@.len(),
                    hc == chunks.deep_view(),
                    hc.len() == chunks@.len(),
                    v0 == old(self)@,
                    fs == frames.deep_view(),
                    handle == v0.session.handle,
                    all == chunks_of(fs, handle, v0.mtu),
                    self.session == v0.session,
                    self.mtu == v0.mtu,
                    0 <= done,
                    done + hc.len() <= all.len(),
                    forall|m: int| 0 <= m < hc.len() ==> all[done + m] == #[trigger] hc[m],
                    self@ == with_sent(v0, all.take(done + j)),
                decreases chunks.len() - j,
            {
                match self.transport.write(chunks[j].as_slice()) {
                    Ok(()) => {},
                    Err(e) => {
                        proof {
                            let k = (done + j) as nat;
                            assert(k < all.len());
                            assert(self@ == with_sent(v0, all.take(k as int)));
                        }
                        return Err(Error::Transport(e));
                    },
                }
                proof {
                    assert(chunks@[j as int].deep_view() =~= chunks@[j as int]@);
                    assert(hc[j as int] == chunks@[j as int]@);
                    assert(all.take(done + j + 1) =~= all.take(done + j).push(all[done + j]));
                    self.sent@ = self.sent@.push(chunks@[j as int]@);
                    assert(v0.sent + all.take(done + j + 1) =~= (v0.sent + all.take(done + j)).push(hc[j as int]));
                }
                j += 1;
            }
            proof {
                assert(all.skip(done + hc.len()) =~= all.skip(done).skip(hc.len() as int));
                assert((hc + chunks_of(fs.skip(i + 1), handle, v0.mtu)).skip(hc.len() as int)
                    =~= chunks_of(fs.skip(i + 1), handle, v0.mtu));
                done = done + hc.len();
            }
            i += 1;
        }
        proof {
            assert(fs.skip(i as int) =~= Seq::<Seq<u8>>::empty());
            assert(all.skip(done) =~= Seq::<Seq<u8>>::empty());
            assert(all.take(done) =~= all);
        }
        Ok(())
    }

    /// Carry out a decision (see `exec_step`).
    fn carry_out(&mut self, d: Decision) -> (r: Result<Option<Event>, Error>)
        ensures
            exists|fail_at: Option<nat>|
                (final(self)@, poll_result_view(r)) == #[trigger] exec_step(old(self)@, decision_view(d), fail_at),
    {
        let ghost v0 = self@;
        let ghost st = decision_view(d);
        self.session = d.pre;
        match d.recent {
            Some(rec) => {
                self.recent_shots = rec;
            },
            None => {},
        }
        let ghost v1 = self@;
        assert(v1 == (ClientView {
            session: st.pre,
            recent: match st.recent {
                None => v0.recent,
                Some(r) => r,
            },
            ..v0
        }));
        let ghost all = chunks_of(st.frames, st.pre.handle, v0.mtu);
        match self.send_frames(&d.frames) {
            Ok(()) => {},
            Err(e) => {
                proof {
                    let k = choose|k: nat| k < all.len() && self@ == #[trigger] with_sent(v1, all.take(k as int));
                    assert(exec_step(v0, st, Some(k)) == (self@, PollOutcome::TransportFail));
                }
                return Err(e);
            },
        }
        self.session = d.post;
        assert(exec_step(v0, st, None) == (self@, PollOutcome::Done(d.event)));
        Ok(d.event)
    }

    /// The age in seconds of each remembered shot at `now`.
    fn shot_ages(&self, now: &std::time::Instant) -> (r: Vec<u64>)
        ensures
            r@.len() == self.recent_shots@.len(),
    {
        let mut ages: Vec<u64> = Vec::new();
        let mut i: usize = 0;
        while i < self.recent_shots.len()
            invariant
                i <= self.recent_shots@.len(),
                ages@.len() == i,
            decreases self.recent_shots.len() - i,
        {
            let (_, seen) = self.recent_shots[i];
            ages.push(whole_secs(&duration_between(now, &seen)));
            i += 1;
        }
        ages
    }

    /// Process the next complete GFDI frame, if any (see `frame_spec`).
    fn process_frame(&mut self) -> (r: Result<Option<Event>, Error>)
        ensures
            exists|now: std::time::Instant, ages: Seq<u64>, fail_at: Option<nat>|
                ages.len() == old(self)@.recent.len()
                && (final(self)@, poll_result_view(r)) == #[trigger] frame_spec(old(self)@, now, ages, fail_at),
    {
        let ghost v0 = self@;
        let ghost zero_ages = Seq::new(v0.recent.len(), |i: int| 0u64);
        let ghost any_now: std::time::Instant = vstd::pervasive::arbitrary();
        match self.stream_buf.next_frame() {
            None => {
                assert(frame_spec(v0, any_now, zero_ages, None) == (self@, PollOutcome::Done(None)));
                Ok(None)
            },
            Some(Err(e)) => {
                proof {
                    gfdi::lemma_next_frame_errors(v0.stream);
                }
                assert(frame_spec(v0, any_now, zero_ages, None) == (self@, poll_result_view(Err(e))));
                Err(e)
            },
            Some(Ok(frame)) => {
                let now = instant_now();
                let ages = self.shot_ages(&now);
                match frame_step(&self.session, &frame, &self.recent_shots, now, &ages) {
                    Err(e) => {
                        assert(frame_spec(v0, now, ages@, None) == (self@, poll_result_view(Err(e))));
                        Err(e)
                    },
                    Ok(d) => {
                        let ghost v2 = self@;
                        let ghost st = decision_view(d);
                        let r = self.carry_out(d);
                        proof {
                            let fa = choose|fa: Option<nat>| (self@, poll_result_view(r)) == #[trigger] exec_step(v2, st, fa);
                            assert(frame_spec(v0, now, ages@, fa) == (self@, poll_result_view(r)));
                        }
                        r
                    },
                }
            },
        }
    }

    /// Act on a chunk that arrived while registering (see `register_chunk_spec`).
    fn handle_register_response(&mut self, chunk: &[u8]) -> (r: Result<Option<Event>, Error>)
        ensures
            (final(self)@, poll_result_view(r)) == register_chunk_spec(old(self)@, chunk@),
    {
        match multilink::parse_register_response(chunk) {
            Some((RegisterStatus::Success, handle, _flags)) => {
                self.session = Session { handle, phase: Phase::WaitDeviceInfo, ..self.session };
                Ok(Some(Event::Registered { handle }))
            },
            Some((status, _, _)) => Err(Error::MultiLinkRegister(status.code())),
            None => {
                // Might be GFDI data arriving alongside/after registration
                // (device sends 5024 immediately). Feed to stream buffer.
                match multilink::strip_handle(chunk, self.session.handle) {
                    Some(data) => match self.stream_buf.extend(data) {
                        Ok(()) => Ok(None),
                        Err(e) => Err(e),
                    },
                    None => Ok(None),
                }
            },
        }
    }

    /// Poll for the next event. Returns `None` if no data is available.
    ///
    /// Call this in a loop. The client progresses through connection phases
    /// automatically: registration → handshake → subscribe → wakeup → active.
    ///
    /// A queued event is returned first. Otherwise the poll reads at most one
    /// chunk from the transport: a read error other than `WouldBlock` is
    /// returned as it is and changes nothing; else the poll is `poll_spec` of
    /// the chunk read (empty when none was), of the time and the ages of the
    /// remembered shots, and of the write that failed, if one did.
    ///
    /// # Errors
    ///
    /// Returns `Err` on protocol errors (CRC mismatch, NAK, decode failure)
    /// or transport errors.
    pub fn poll(&mut self) -> (r: Result<Option<Event>, Error>)
        ensures
            old(self)@.session.pending_event is Some ==> {
                &&& r == Ok::<Option<Event>, Error>(old(self)@.session.pending_event)
                &&& final(self)@ == (ClientView {
                    session: Session { pending_event: None, ..old(self)@.session },
                    ..old(self)@
                })
            },
            old(self)@.session.pending_event is None ==> {
                ||| (r is Err && r->Err_0 is Transport && final(self)@ == old(self)@)
                ||| exists|chunk: Seq<u8>, now: std::time::Instant, ages: Seq<u64>, fail_at: Option<nat>|
                    ages.len() == old(self)@.recent.len()
                    && (final(self)@, poll_result_view(r)) == #[trigger] poll_spec(old(self)@, chunk, now, ages, fail_at)
            },
    {
        // Drain any pending event before reading more data.
        match self.session.pending_event {
            Some(event) => {
                self.session = Session { pending_event: None, ..self.session };
                return Ok(Some(event));
            },
            None => {},
        }
        let ghost v0 = self@;

        // Read available data from transport
        let outcome = match self.transport.read(self.read_buf.as_mut_slice()) {
            Ok(0) => ReadOutcome::NoData,
            Ok(n) => ReadOutcome::Data(
                vstd::slice::slice_to_vec(vstd::slice::slice_subrange(self.read_buf.as_slice(), 0, n)),
            ),
            Err(e) => {
                if is_would_block(&e) {
                    ReadOutcome::NoData
                } else {
                    ReadOutcome::Failed(e)
                }
            },
        };
        assert(self@ == v0);
        self.handle_read(outcome)
    }

    /// Act on what a read from the transport gave: a failure is returned as
    /// a transport error and changes nothing; no data is an empty chunk; a
    /// chunk of data is handled by `handle_chunk`.
    ///
    /// # Errors
    ///
    /// Returns `Err` for a failed read, and as `handle_chunk` does.
    pub fn handle_read(&mut self, outcome: ReadOutcome) -> (r: Result<Option<Event>, Error>)
        ensures
            match outcome {
                ReadOutcome::Failed(e) => {
                    &&& r == Err::<Option<Event>, Error>(Error::Transport(e))
                    &&& final(self)@ == old(self)@
                },
                ReadOutcome::NoData => exists|now: std::time::Instant, ages: Seq<u64>, fail_at: Option<nat>|
                    ages.len() == old(self)@.recent.len()
                    && (final(self)@, poll_result_view(r)) == #[trigger] poll_spec(old(self)@, Seq::empty(), now, ages, fail_at),
                ReadOutcome::Data(chunk) => exists|now: std::time::Instant, ages: Seq<u64>, fail_at: Option<nat>|
                    ages.len() == old(self)@.recent.len()
                    && (final(self)@, poll_result_view(r)) == #[trigger] poll_spec(old(self)@, chunk@, now, ages, fail_at),
            },
    {
        match outcome {
            ReadOutcome::Failed(e) => Err(Error::Transport(e)),
            ReadOutcome::NoData => {
                let no_data: Vec<u8> = Vec::new();
                assert(no_data@ =~= Seq::<u8>::empty());
                self.handle_chunk(no_data.as_slice())
            },
            ReadOutcome::Data(chunk) => self.handle_chunk(chunk.as_slice()),
        }
    }

    /// Act on one chunk read from the transport (empty when no data was
    /// available): in the registration phase the chunk is the register
    /// response; otherwise its data, when it carries the session handle, is
    /// fed to the stream buffer, and the next complete frame, if any, is
    /// processed (see `poll_spec`, which it meets for the time, the ages of
    /// the remembered shots and the failed write, if any).
    ///
    /// # Errors
    ///
    /// Returns `Err` on protocol errors (CRC mismatch, NAK, decode failure)
    /// or transport write errors.
    pub fn handle_chunk(&mut self, chunk: &[u8]) -> (r: Result<Option<Event>, Error>)
        ensures
            exists|now: std::time::Instant, ages: Seq<u64>, fail_at: Option<nat>|
                ages.len() == old(self)@.recent.len()
                && (final(self)@, poll_result_view(r)) == #[trigger] poll_spec(old(self)@, chunk@, now, ages, fail_at),
    {
        let ghost v0 = self@;
        let ghost zero_ages = Seq::new(v0.recent.len(), |i: int| 0u64);
        let ghost any_now: std::time::Instant = vstd::pervasive::arbitrary();
        if chunk.len() > 0 {
            // In registration phase, first response is the register response
            if self.session.phase == Phase::Registering {
                let r = self.handle_register_response(chunk);
                assert(poll_spec(v0, chunk@, any_now, zero_ages, None) == (self@, poll_result_view(r)));
                return r;
            }
            // Strip handle byte and feed to stream buffer
            match multilink::strip_handle(chunk, self.session.handle) {
                Some(data) => match self.stream_buf.extend(data) {
                    Ok(()) => {},
                    Err(e) => {
                        assert(poll_spec(v0, chunk@, any_now, zero_ages, None) == (self@, poll_result_view(Err(e))));
                        return Err(e);
                    },
                },
                None => {},
            }
            let ghost v1 = self@;
            let r = self.process_frame();
            proof {
                let (now, ages, fa) = choose|now: std::time::Instant, ages: Seq<u64>, fa: Option<nat>|
                    ages.len() == v1.recent.len() && (self@, poll_result_view(r)) == #[trigger] frame_spec(v1, now, ages, fa);
                assert(poll_spec(v0, chunk@, now, ages, fa) == (self@, poll_result_view(r)));
            }
            return r;
        }
        let r = self.process_frame();
        proof {
            let (now, ages, fa) = choose|now: std::time::Instant, ages: Seq<u64>, fa: Option<nat>|
                ages.len() == v0.recent.len() && (self@, poll_result_view(r)) == #[trigger] frame_spec(v0, now, ages, fa);
            assert(poll_spec(v0, chunk@, now, ages, fa) == (self@, poll_result_view(r)));
        }
        r
    }

    /// Access the underlying transport.
    pub fn transport(&self) -> (r: &T)
        ensures
            *r == self.spec_transport(),
    {
        &self.transport
    }

    /// Access the underlying transport mutably.
    pub fn transport_mut(&mut self) -> (r: &mut T)
        ensures
            *r == old(self).spec_transport(),
            final(self)@ == old(self)@,
            final(self).spec_transport() == *final(r),
    {
        &mut self.transport
    }

    /// Current connection phase.
    pub fn phase(&self) -> (r: &str)
        ensures
            r@ == phase_name(self@.session.phase),
    {
        match self.session.phase {
            Phase::Registering => "registering",
            Phase::WaitDeviceInfo => "wait_device_info",
            Phase::WaitCapabilities => "wait_capabilities",
            Phase::WaitCapabilitiesAck => "wait_capabilities_ack",
            Phase::Subscribing => "subscribing",
            Phase::WakingUp => "waking_up",
            Phase::Active => "active",
        }
    }
}

/// The name of a phase.
pub open spec fn phase_name(p: Phase) -> Seq<char> {
    match p {
        Phase::Registering => "registering"@,
        Phase::WaitDeviceInfo => "wait_device_info"@,
        Phase::WaitCapabilities => "wait_capabilities"@,
        Phase::WaitCapabilitiesAck => "wait_capabilities_ack"@,
        Phase::Subscribing => "subscribing"@,
        Phase::WakingUp => "waking_up"@,
        Phase::Active => "active"@,
    }
}

} // verus!
