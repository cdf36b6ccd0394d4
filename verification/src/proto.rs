//! The Smart protobuf container used by the R10: the message types the
//! library reads, their decoding from bytes, the two requests the host
//! sends, and the high-level events decoded messages stand for.
//!
//! Float fields (fixed32 on the wire) are kept as their IEEE-754 bit
//! patterns.

use vstd::prelude::*;
use prost::DecodeError as ProtobufError;
use crate::pb::{
    encode_key, encode_varint, varint_bytes, WIRE_LENGTH_DELIMITED, WIRE_VARINT,
    gather, gather_spec, ranges_of, ranges_of_slot, ranges_within, Msg, Gathered,
};

verus! {

// ── Message types ──

/// `GDI.Proto.LaunchMonitor.State`.
#[derive(Debug, Clone, Copy, PartialEq, Eq, Structural)]
pub struct State {
    pub state: Option<i32>,
}

/// `GDI.Proto.LaunchMonitor.BallMetrics`; the five floats as bit patterns.
#[derive(Debug, Clone, Copy, PartialEq, Eq, Structural)]
pub struct BallMetrics {
    pub launch_angle: Option<u32>,
    pub launch_direction: Option<u32>,
    pub ball_speed: Option<u32>,
    pub spin_axis: Option<u32>,
    pub total_spin: Option<u32>,
    pub spin_calculation_type: Option<i32>,
    pub golf_ball_type: Option<i32>,
}

/// `GDI.Proto.LaunchMonitor.ClubMetrics`; the floats as bit patterns.
#[derive(Debug, Clone, Copy, PartialEq, Eq, Structural)]
pub struct ClubMetrics {
    pub club_head_speed: Option<u32>,
    pub club_angle_face: Option<u32>,
    pub club_angle_path: Option<u32>,
    pub attack_angle: Option<u32>,
}

/// `GDI.Proto.LaunchMonitor.SwingMetrics` (milliseconds, device time).
#[derive(Debug, Clone, Copy, PartialEq, Eq, Structural)]
pub struct SwingMetrics {
    pub back_swing_start_time: Option<u32>,
    pub down_swing_start_time: Option<u32>,
    pub impact_time: Option<u32>,
    pub follow_through_end_time: Option<u32>,
    pub end_recording_time: Option<u32>,
}

/// `GDI.Proto.LaunchMonitor.Metrics`.
#[derive(Debug, Clone, Copy, PartialEq, Eq, Structural)]
pub struct Metrics {
    pub shot_id: Option<u32>,
    pub shot_type: Option<i32>,
    pub ball_metrics: Option<BallMetrics>,
    pub club_metrics: Option<ClubMetrics>,
    pub swing_metrics: Option<SwingMetrics>,
}

/// `GDI.Proto.LaunchMonitor.Tilt`; the floats as bit patterns.
#[derive(Debug, Clone, Copy, PartialEq, Eq, Structural)]
pub struct Tilt {
    pub roll: Option<u32>,
    pub pitch: Option<u32>,
}

/// `GDI.Proto.LaunchMonitor.Error`.
#[derive(Debug, Clone, Copy, PartialEq, Eq, Structural)]
pub struct LaunchMonitorError {
    pub code: Option<i32>,
    pub severity: Option<i32>,
    pub device_tilt: Option<Tilt>,
}

/// `GDI.Proto.LaunchMonitor.CalibrationStatus`.
#[derive(Debug, Clone, Copy, PartialEq, Eq, Structural)]
pub struct CalibrationStatus {
    pub status: Option<i32>,
    pub result: Option<i32>,
}

/// `AlertDetails`, carried as extension 1001 of an alert notification.
#[derive(Debug, Clone, Copy, PartialEq, Eq, Structural)]
pub struct AlertDetails {
    pub state: Option<State>,
    pub metrics: Option<Metrics>,
    pub error: Option<LaunchMonitorError>,
    pub tilt_calibration: Option<CalibrationStatus>,
}

/// `GDI.Proto.EventSharing.AlertNotification` (its alert types are checked, not kept).
#[derive(Debug, Clone, Copy, PartialEq, Eq, Structural)]
pub struct AlertNotification {
    pub details: Option<AlertDetails>,
}

/// `GDI.Proto.EventSharing.AlertMessage`.
#[derive(Debug, Clone, Copy, PartialEq, Eq, Structural)]
pub struct AlertMessage {
    pub alert_type: Option<i32>,
}

/// `SubscribeResponse.AlertStatusMessage`.
#[derive(Debug, Clone, Copy, PartialEq, Eq, Structural)]
pub struct AlertStatusMessage {
    pub alert_type: Option<i32>,
    pub subscribe_status: Option<i32>,
}

/// `GDI.Proto.EventSharing.SubscribeRequest`.
#[derive(Debug)]
pub struct SubscribeRequest {
    pub alerts: Vec<AlertMessage>,
}

/// `GDI.Proto.EventSharing.SubscribeResponse`.
#[derive(Debug)]
pub struct SubscribeResponse {
    pub alert_status: Vec<AlertStatusMessage>,
}

/// `GDI.Proto.EventSharing.EventSharingService` (extension 30 of Smart).
#[derive(Debug)]
pub struct EventSharingService {
    pub subscribe_request: Option<SubscribeRequest>,
    pub subscribe_response: Option<SubscribeResponse>,
    pub alert_notification: Option<AlertNotification>,
}

/// `GDI.Proto.LaunchMonitor.WakeUpRequest`.
#[derive(Debug, Clone, Copy, PartialEq, Eq, Structural)]
pub struct WakeUpRequest {}

/// `GDI.Proto.LaunchMonitor.WakeUpResponse`.
#[derive(Debug, Clone, Copy, PartialEq, Eq, Structural)]
pub struct WakeUpResponse {
    pub status: Option<i32>,
}

/// `GDI.Proto.LaunchMonitor.Service` (extension 38 of Smart).
#[derive(Debug, Clone, Copy, PartialEq, Eq, Structural)]
pub struct LaunchMonitorService {
    pub wake_up_request: Option<WakeUpRequest>,
    pub wake_up_response: Option<WakeUpResponse>,
}

/// `GDI.Proto.Smart.Smart`, the container of every message.
#[derive(Debug)]
pub struct Smart {
    pub event_sharing: Option<EventSharingService>,
    pub launch_monitor_service: Option<LaunchMonitorService>,
}

// ── Views of the types that hold lists ──

pub struct SubscribeRequestView {
    pub alerts: Seq<AlertMessage>,
}

pub struct SubscribeResponseView {
    pub alert_status: Seq<AlertStatusMessage>,
}

pub struct EventSharingView {
    pub subscribe_request: Option<SubscribeRequestView>,
    pub subscribe_response: Option<SubscribeResponseView>,
    pub alert_notification: Option<AlertNotification>,
}

pub struct SmartView {
    pub event_sharing: Option<EventSharingView>,
    pub launch_monitor_service: Option<LaunchMonitorService>,
}

impl View for SubscribeRequest {
    type V = SubscribeRequestView;

    open spec fn view(&self) -> SubscribeRequestView {
        SubscribeRequestView { alerts: self.alerts@ }
    }
}

impl View for SubscribeResponse {
    type V = SubscribeResponseView;

    open spec fn view(&self) -> SubscribeResponseView {
        SubscribeResponseView { alert_status: self.alert_status@ }
    }
}

pub open spec fn opt_view<T: View>(o: Option<T>) -> Option<T::V> {
    match o {
        None => None,
        Some(x) => Some(x@),
    }
}

impl View for EventSharingService {
    type V = EventSharingView;

    open spec fn view(&self) -> EventSharingView {
        EventSharingView {
            subscribe_request: opt_view(self.subscribe_request),
            subscribe_response: opt_view(self.subscribe_response),
            alert_notification: self.alert_notification,
        }
    }
}

impl View for Smart {
    type V = SmartView;

    open spec fn view(&self) -> SmartView {
        SmartView { event_sharing: opt_view(self.event_sharing), launch_monitor_service: self.launch_monitor_service }
    }
}

// ── Decoding, as specified ──

/// An int32/enum field: the varint truncated to 32 bits.
pub open spec fn int_of(o: Option<u64>) -> Option<i32> {
    match o {
        None => None,
        Some(v) => Some(v as i32),
    }
}

/// A uint32 field, or a float's bits: the value truncated to 32 bits.
pub open spec fn uint_of(o: Option<u64>) -> Option<u32> {
    match o {
        None => None,
        Some(v) => Some(v as u32),
    }
}

/// An optional message field: absent when it never occurred, else the
/// decoding of all its occurrences (`None` when that fails).
pub open spec fn opt_field<T>(rs: Seq<(usize, usize)>, dec: Option<T>) -> Option<Option<T>> {
    if rs.len() == 0 {
        Some(None)
    } else {
        match dec {
            None => None,
            Some(x) => Some(Some(x)),
        }
    }
}

/// The fields of a message whose contents are only checked decode.
pub open spec fn opaque_ok(data: Seq<u8>, rs: Seq<(usize, usize)>) -> bool {
    gather_spec(data, rs, Msg::Opaque).is_some()
}

pub open spec fn state_spec(data: Seq<u8>, rs: Seq<(usize, usize)>) -> Option<State> {
    match gather_spec(data, rs, Msg::State) {
        None => None,
        Some(g) => Some(State { state: int_of(g.0[0]) }),
    }
}

pub open spec fn ball_spec(data: Seq<u8>, rs: Seq<(usize, usize)>) -> Option<BallMetrics> {
    match gather_spec(data, rs, Msg::BallMetrics) {
        None => None,
        Some(g) => Some(BallMetrics {
            launch_angle: uint_of(g.0[0]),
            launch_direction: uint_of(g.0[1]),
            ball_speed: uint_of(g.0[2]),
            spin_axis: uint_of(g.0[3]),
            total_spin: uint_of(g.0[4]),
            spin_calculation_type: int_of(g.0[5]),
            golf_ball_type: int_of(g.0[6]),
        }),
    }
}

pub open spec fn club_spec(data: Seq<u8>, rs: Seq<(usize, usize)>) -> Option<ClubMetrics> {
    match gather_spec(data, rs, Msg::ClubMetrics) {
        None => None,
        Some(g) => Some(ClubMetrics {
            club_head_speed: uint_of(g.0[0]),
            club_angle_face: uint_of(g.0[1]),
            club_angle_path: uint_of(g.0[2]),
            attack_angle: uint_of(g.0[3]),
        }),
    }
}

pub open spec fn swing_spec(data: Seq<u8>, rs: Seq<(usize, usize)>) -> Option<SwingMetrics> {
    match gather_spec(data, rs, Msg::SwingMetrics) {
        None => None,
        Some(g) => Some(SwingMetrics {
            back_swing_start_time: uint_of(g.0[0]),
            down_swing_start_time: uint_of(g.0[1]),
            impact_time: uint_of(g.0[2]),
            follow_through_end_time: uint_of(g.0[3]),
            end_recording_time: uint_of(g.0[4]),
        }),
    }
}

pub open spec fn metrics_spec(data: Seq<u8>, rs: Seq<(usize, usize)>) -> Option<Metrics> {
    match gather_spec(data, rs, Msg::Metrics) {
        None => None,
        Some(g) => {
            let rb = ranges_of(g.1, 2);
            let rc = ranges_of(g.1, 3);
            let rw = ranges_of(g.1, 4);
            match (opt_field(rb, ball_spec(data, rb)), opt_field(rc, club_spec(data, rc)), opt_field(rw, swing_spec(data, rw))) {
                (Some(b), Some(c), Some(w)) => Some(Metrics {
                    shot_id: uint_of(g.0[0]),
                    shot_type: int_of(g.0[1]),
                    ball_metrics: b,
                    club_metrics: c,
                    swing_metrics: w,
                }),
                _ => None,
            }
        },
    }
}

pub open spec fn tilt_spec(data: Seq<u8>, rs: Seq<(usize, usize)>) -> Option<Tilt> {
    match gather_spec(data, rs, Msg::Tilt) {
        None => None,
        Some(g) => Some(Tilt { roll: uint_of(g.0[0]), pitch: uint_of(g.0[1]) }),
    }
}

pub open spec fn lm_error_spec(data: Seq<u8>, rs: Seq<(usize, usize)>) -> Option<LaunchMonitorError> {
    match gather_spec(data, rs, Msg::LmError) {
        None => None,
        Some(g) => {
            let rt = ranges_of(g.1, 2);
            match opt_field(rt, tilt_spec(data, rt)) {
                Some(t) => Some(LaunchMonitorError { code: int_of(g.0[0]), severity: int_of(g.0[1]), device_tilt: t }),
                None => None,
            }
        },
    }
}

pub open spec fn calibration_spec(data: Seq<u8>, rs: Seq<(usize, usize)>) -> Option<CalibrationStatus> {
    match gather_spec(data, rs, Msg::CalibrationStatus) {
        None => None,
        Some(g) => Some(CalibrationStatus { status: int_of(g.0[0]), result: int_of(g.0[1]) }),
    }
}

pub open spec fn details_spec(data: Seq<u8>, rs: Seq<(usize, usize)>) -> Option<AlertDetails> {
    match gather_spec(data, rs, Msg::AlertDetails) {
        None => None,
        Some(g) => {
            let r0 = ranges_of(g.1, 0);
            let r1 = ranges_of(g.1, 1);
            let r2 = ranges_of(g.1, 2);
            let r3 = ranges_of(g.1, 3);
            match (
                opt_field(r0, state_spec(data, r0)),
                opt_field(r1, metrics_spec(data, r1)),
                opt_field(r2, lm_error_spec(data, r2)),
                opt_field(r3, calibration_spec(data, r3)),
            ) {
                (Some(a), Some(b), Some(c), Some(d)) => Some(
                    AlertDetails { state: a, metrics: b, error: c, tilt_calibration: d },
                ),
                _ => None,
            }
        },
    }
}

pub open spec fn notification_spec(data: Seq<u8>, rs: Seq<(usize, usize)>) -> Option<AlertNotification> {
    match gather_spec(data, rs, Msg::AlertNotification) {
        None => None,
        Some(g) => {
            let rd = ranges_of(g.1, 1);
            match opt_field(rd, details_spec(data, rd)) {
                Some(d) => Some(AlertNotification { details: d }),
                None => None,
            }
        },
    }
}

pub open spec fn alert_message_spec(data: Seq<u8>, rs: Seq<(usize, usize)>) -> Option<AlertMessage> {
    match gather_spec(data, rs, Msg::AlertMessage) {
        None => None,
        Some(g) => Some(AlertMessage { alert_type: int_of(g.0[0]) }),
    }
}

pub open spec fn alert_status_spec(data: Seq<u8>, rs: Seq<(usize, usize)>) -> Option<AlertStatusMessage> {
    match gather_spec(data, rs, Msg::AlertStatus) {
        None => None,
        Some(g) => Some(AlertStatusMessage { alert_type: int_of(g.0[0]), subscribe_status: int_of(g.0[1]) }),
    }
}

/// A repeated `AlertMessage` field: every occurrence is one element.
pub open spec fn alert_list_spec(data: Seq<u8>, rs: Seq<(usize, usize)>) -> Option<Seq<AlertMessage>>
    decreases rs.len(),
{
    if rs.len() == 0 {
        Some(Seq::empty())
    } else {
        match (alert_message_spec(data, seq![rs[0]]), alert_list_spec(data, rs.drop_first())) {
            (Some(a), Some(t)) => Some(seq![a] + t),
            _ => None,
        }
    }
}

/// A repeated `AlertStatusMessage` field: every occurrence is one element.
pub open spec fn status_list_spec(data: Seq<u8>, rs: Seq<(usize, usize)>) -> Option<Seq<AlertStatusMessage>>
    decreases rs.len(),
{
    if rs.len() == 0 {
        Some(Seq::empty())
    } else {
        match (alert_status_spec(data, seq![rs[0]]), status_list_spec(data, rs.drop_first())) {
            (Some(a), Some(t)) => Some(seq![a] + t),
            _ => None,
        }
    }
}

pub open spec fn subscribe_request_spec(data: Seq<u8>, rs: Seq<(usize, usize)>) -> Option<SubscribeRequestView> {
    match gather_spec(data, rs, Msg::SubscribeRequest) {
        None => None,
        Some(g) => match alert_list_spec(data, ranges_of(g.1, 0)) {
            None => None,
            Some(l) => Some(SubscribeRequestView { alerts: l }),
        },
    }
}

pub open spec fn subscribe_response_spec(data: Seq<u8>, rs: Seq<(usize, usize)>) -> Option<SubscribeResponseView> {
    match gather_spec(data, rs, Msg::SubscribeResponse) {
        None => None,
        Some(g) => match status_list_spec(data, ranges_of(g.1, 0)) {
            None => None,
            Some(l) => Some(SubscribeResponseView { alert_status: l }),
        },
    }
}

pub open spec fn event_sharing_spec(data: Seq<u8>, rs: Seq<(usize, usize)>) -> Option<EventSharingView> {
    match gather_spec(data, rs, Msg::EventSharing) {
        None => None,
        Some(g) => {
            let r0 = ranges_of(g.1, 0);
            let r1 = ranges_of(g.1, 1);
            let r2 = ranges_of(g.1, 2);
            let r3 = ranges_of(g.1, 3);
            match (
                opt_field(r0, subscribe_request_spec(data, r0)),
                opt_field(r1, subscribe_response_spec(data, r1)),
                opt_field(r2, notification_spec(data, r2)),
            ) {
                (Some(a), Some(b), Some(c)) => if opaque_ok(data, r3) {
                    Some(EventSharingView { subscribe_request: a, subscribe_response: b, alert_notification: c })
                } else {
                    None
                },
                _ => None,
            }
        },
    }
}

pub open spec fn wake_up_response_spec(data: Seq<u8>, rs: Seq<(usize, usize)>) -> Option<WakeUpResponse> {
    match gather_spec(data, rs, Msg::WakeUpResponse) {
        None => None,
        Some(g) => Some(WakeUpResponse { status: int_of(g.0[0]) }),
    }
}

pub open spec fn launch_monitor_spec(data: Seq<u8>, rs: Seq<(usize, usize)>) -> Option<LaunchMonitorService> {
    match gather_spec(data, rs, Msg::LaunchMonitor) {
        None => None,
        Some(g) => {
            let r0 = ranges_of(g.1, 0);
            let r1 = ranges_of(g.1, 1);
            let r2 = ranges_of(g.1, 2);
            match opt_field(r1, wake_up_response_spec(data, r1)) {
                Some(w) => if opaque_ok(data, r0) && opaque_ok(data, r2) {
                    Some(LaunchMonitorService {
                        wake_up_request: if r0.len() == 0 { None } else { Some(WakeUpRequest {}) },
                        wake_up_response: w,
                    })
                } else {
                    None
                },
                None => None,
            }
        },
    }
}

pub open spec fn smart_spec(data: Seq<u8>, rs: Seq<(usize, usize)>) -> Option<SmartView> {
    match gather_spec(data, rs, Msg::Smart) {
        None => None,
        Some(g) => {
            let r0 = ranges_of(g.1, 0);
            let r1 = ranges_of(g.1, 1);
            match (opt_field(r0, event_sharing_spec(data, r0)), opt_field(r1, launch_monitor_spec(data, r1))) {
                (Some(a), Some(b)) => Some(SmartView { event_sharing: a, launch_monitor_service: b }),
                _ => None,
            }
        },
    }
}

/// The Smart message that `bytes` encode, as `prost` decodes it, or `None`
/// when the bytes are not a valid encoding.
pub open spec fn decode_smart_message_spec(bytes: Seq<u8>) -> Option<SmartView> {
    smart_spec(bytes, seq![(0usize, bytes.len() as usize)])
}


// ── Decoding ──

fn int_at(sc: &Vec<Option<u64>>, i: usize) -> (r: Option<i32>)
    requires
        i < sc@.len(),
    ensures
        r == int_of(sc@[i as int]),
{
    match sc[i] {
        None => None,
        Some(v) => Some(v as i32),
    }
}

fn uint_at(sc: &Vec<Option<u64>>, i: usize) -> (r: Option<u32>)
    requires
        i < sc@.len(),
    ensures
        r == uint_of(sc@[i as int]),
{
    match sc[i] {
        None => None,
        Some(v) => Some(v as u32),
    }
}

fn check_opaque(data: &[u8], rs: &Vec<(usize, usize)>) -> (r: Result<(), ProtobufError>)
    requires
        ranges_within(rs@, data@.len()),
    ensures
        r is Ok <==> opaque_ok(data@, rs@),
{
    let _ = gather(data, rs, Msg::Opaque)?;
    Ok(())
}

fn decode_state(data: &[u8], rs: &Vec<(usize, usize)>) -> (r: Result<State, ProtobufError>)
    requires
        ranges_within(rs@, data@.len()),
    ensures
        match r {
            Ok(v) => state_spec(data@, rs@) == Some(v),
            Err(_) => state_spec(data@, rs@).is_none(),
        },
{
    let (sc, _occ) = gather(data, rs, Msg::State)?;
    Ok(State { state: int_at(&sc, 0) })
}

fn decode_ball(data: &[u8], rs: &Vec<(usize, usize)>) -> (r: Result<BallMetrics, ProtobufError>)
    requires
        ranges_within(rs@, data@.len()),
    ensures
        match r {
            Ok(v) => ball_spec(data@, rs@) == Some(v),
            Err(_) => ball_spec(data@, rs@).is_none(),
        },
{
    let (sc, _occ) = gather(data, rs, Msg::BallMetrics)?;
    Ok(BallMetrics {
        launch_angle: uint_at(&sc, 0),
        launch_direction: uint_at(&sc, 1),
        ball_speed: uint_at(&sc, 2),
        spin_axis: uint_at(&sc, 3),
        total_spin: uint_at(&sc, 4),
        spin_calculation_type: int_at(&sc, 5),
        golf_ball_type: int_at(&sc, 6),
    })
}

fn decode_club(data: &[u8], rs: &Vec<(usize, usize)>) -> (r: Result<ClubMetrics, ProtobufError>)
    requires
        ranges_within(rs@, data@.len()),
    ensures
        match r {
            Ok(v) => club_spec(data@, rs@) == Some(v),
            Err(_) => club_spec(data@, rs@).is_none(),
        },
{
    let (sc, _occ) = gather(data, rs, Msg::ClubMetrics)?;
    Ok(ClubMetrics {
        club_head_speed: uint_at(&sc, 0),
        club_angle_face: uint_at(&sc, 1),
        club_angle_path: uint_at(&sc, 2),
        attack_angle: uint_at(&sc, 3),
    })
}

fn decode_swing(data: &[u8], rs: &Vec<(usize, usize)>) -> (r: Result<SwingMetrics, ProtobufError>)
    requires
        ranges_within(rs@, data@.len()),
    ensures
        match r {
            Ok(v) => swing_spec(data@, rs@) == Some(v),
            Err(_) => swing_spec(data@, rs@).is_none(),
        },
{
    let (sc, _occ) = gather(data, rs, Msg::SwingMetrics)?;
    Ok(SwingMetrics {
        back_swing_start_time: uint_at(&sc, 0),
        down_swing_start_time: uint_at(&sc, 1),
        impact_time: uint_at(&sc, 2),
        follow_through_end_time: uint_at(&sc, 3),
        end_recording_time: uint_at(&sc, 4),
    })
}

fn decode_metrics_message(data: &[u8], rs: &Vec<(usize, usize)>) -> (r: Result<Metrics, ProtobufError>)
    requires
        ranges_within(rs@, data@.len()),
    ensures
        match r {
            Ok(v) => metrics_spec(data@, rs@) == Some(v),
            Err(_) => metrics_spec(data@, rs@).is_none(),
        },
{
    let (sc, occ) = gather(data, rs, Msg::Metrics)?;
    let rb = ranges_of_slot(&occ, 2);
    let rc = ranges_of_slot(&occ, 3);
    let rw = ranges_of_slot(&occ, 4);
    let ball = if rb.len() == 0 { None } else { Some(decode_ball(data, &rb)?) };
    let club = if rc.len() == 0 { None } else { Some(decode_club(data, &rc)?) };
    let swing = if rw.len() == 0 { None } else { Some(decode_swing(data, &rw)?) };
    Ok(Metrics {
        shot_id: uint_at(&sc, 0),
        shot_type: int_at(&sc, 1),
        ball_metrics: ball,
        club_metrics: club,
        swing_metrics: swing,
    })
}

fn decode_tilt(data: &[u8], rs: &Vec<(usize, usize)>) -> (r: Result<Tilt, ProtobufError>)
    requires
        ranges_within(rs@, data@.len()),
    ensures
        match r {
            Ok(v) => tilt_spec(data@, rs@) == Some(v),
            Err(_) => tilt_spec(data@, rs@).is_none(),
        },
{
    let (sc, _occ) = gather(data, rs, Msg::Tilt)?;
    Ok(Tilt { roll: uint_at(&sc, 0), pitch: uint_at(&sc, 1) })
}

fn decode_lm_error(data: &[u8], rs: &Vec<(usize, usize)>) -> (r: Result<LaunchMonitorError, ProtobufError>)
    requires
        ranges_within(rs@, data@.len()),
    ensures
        match r {
            Ok(v) => lm_error_spec(data@, rs@) == Some(v),
            Err(_) => lm_error_spec(data@, rs@).is_none(),
        },
{
    let (sc, occ) = gather(data, rs, Msg::LmError)?;
    let rt = ranges_of_slot(&occ, 2);
    let tilt = if rt.len() == 0 { None } else { Some(decode_tilt(data, &rt)?) };
    Ok(LaunchMonitorError { code: int_at(&sc, 0), severity: int_at(&sc, 1), device_tilt: tilt })
}

fn decode_calibration(data: &[u8], rs: &Vec<(usize, usize)>) -> (r: Result<CalibrationStatus, ProtobufError>)
    requires
        ranges_within(rs@, data@.len()),
    ensures
        match r {
            Ok(v) => calibration_spec(data@, rs@) == Some(v),
            Err(_) => calibration_spec(data@, rs@).is_none(),
        },
{
    let (sc, _occ) = gather(data, rs, Msg::CalibrationStatus)?;
    Ok(CalibrationStatus { status: int_at(&sc, 0), result: int_at(&sc, 1) })
}

fn decode_details(data: &[u8], rs: &Vec<(usize, usize)>) -> (r: Result<AlertDetails, ProtobufError>)
    requires
        ranges_within(rs@, data@.len()),
    ensures
        match r {
            Ok(v) => details_spec(data@, rs@) == Some(v),
            Err(_) => details_spec(data@, rs@).is_none(),
        },
{
    let (_sc, occ) = gather(data, rs, Msg::AlertDetails)?;
    let r0 = ranges_of_slot(&occ, 0);
    let r1 = ranges_of_slot(&occ, 1);
    let r2 = ranges_of_slot(&occ, 2);
    let r3 = ranges_of_slot(&occ, 3);
    let state = if r0.len() == 0 { None } else { Some(decode_state(data, &r0)?) };
    let metrics = if r1.len() == 0 { None } else { Some(decode_metrics_message(data, &r1)?) };
    let error = if r2.len() == 0 { None } else { Some(decode_lm_error(data, &r2)?) };
    let cal = if r3.len() == 0 { None } else { Some(decode_calibration(data, &r3)?) };
    Ok(AlertDetails { state, metrics, error, tilt_calibration: cal })
}

fn decode_notification(data: &[u8], rs: &Vec<(usize, usize)>) -> (r: Result<AlertNotification, ProtobufError>)
    requires
        ranges_within(rs@, data@.len()),
    ensures
        match r {
            Ok(v) => notification_spec(data@, rs@) == Some(v),
            Err(_) => notification_spec(data@, rs@).is_none(),
        },
{
    let (_sc, occ) = gather(data, rs, Msg::AlertNotification)?;
    let rd = ranges_of_slot(&occ, 1);
    let details = if rd.len() == 0 { None } else { Some(decode_details(data, &rd)?) };
    Ok(AlertNotification { details })
}

fn decode_alert_message(data: &[u8], rs: &Vec<(usize, usize)>) -> (r: Result<AlertMessage, ProtobufError>)
    requires
        ranges_within(rs@, data@.len()),
    ensures
        match r {
            Ok(v) => alert_message_spec(data@, rs@) == Some(v),
            Err(_) => alert_message_spec(data@, rs@).is_none(),
        },
{
    let (sc, _occ) = gather(data, rs, Msg::AlertMessage)?;
    Ok(AlertMessage { alert_type: int_at(&sc, 0) })
}

fn decode_alert_status(data: &[u8], rs: &Vec<(usize, usize)>) -> (r: Result<AlertStatusMessage, ProtobufError>)
    requires
        ranges_within(rs@, data@.len()),
    ensures
        match r {
            Ok(v) => alert_status_spec(data@, rs@) == Some(v),
            Err(_) => alert_status_spec(data@, rs@).is_none(),
        },
{
    let (sc, _occ) = gather(data, rs, Msg::AlertStatus)?;
    Ok(AlertStatusMessage { alert_type: int_at(&sc, 0), subscribe_status: int_at(&sc, 1) })
}

fn decode_alert_list(data: &[u8], rs: &Vec<(usize, usize)>) -> (r: Result<Vec<AlertMessage>, ProtobufError>)
    requires
        ranges_within(rs@, data@.len()),
    ensures
        match r {
            Ok(v) => alert_list_spec(data@, rs@) == Some(v@),
            Err(_) => alert_list_spec(data@, rs@).is_none(),
        },
{
    let mut out: Vec<AlertMessage> = Vec::new();
    let mut i: usize = 0;
    assert(rs@.skip(0) =~= rs@);
    while i < rs.len()
        invariant
            i <= rs@.len(),
            ranges_within(rs@, data@.len()),
            alert_list_spec(data@, rs@) == match alert_list_spec(data@, rs@.skip(i as int)) {
                Some(t) => Some(out@ + t),
                None => None,
            },
        decreases rs.len() - i,
    {
        let mut one: Vec<(usize, usize)> = Vec::new();
        one.push(rs[i]);
        assert(rs@[i as int].0 <= rs@[i as int].1 <= data@.len());
        assert(one@ =~= seq![rs@.skip(i as int)[0]]);
        assert(rs@.skip(i as int).drop_first() =~= rs@.skip(i + 1));
        let a = decode_alert_message(data, &one)?;
        let ghost old_out = out@;
        out.push(a);
        proof {
            match alert_list_spec(data@, rs@.skip(i + 1)) {
                Some(t) => {
                    assert(old_out + (seq![a] + t) =~= out@ + t);
                },
                None => {},
            }
        }
        i += 1;
    }
    assert(rs@.skip(i as int) =~= Seq::<(usize, usize)>::empty());
    assert(out@ + Seq::<AlertMessage>::empty() =~= out@);
    Ok(out)
}

fn decode_status_list(data: &[u8], rs: &Vec<(usize, usize)>) -> (r: Result<Vec<AlertStatusMessage>, ProtobufError>)
    requires
        ranges_within(rs@, data@.len()),
    ensures
        match r {
            Ok(v) => status_list_spec(data@, rs@) == Some(v@),
            Err(_) => status_list_spec(data@, rs@).is_none(),
        },
{
    let mut out: Vec<AlertStatusMessage> = Vec::new();
    let mut i: usize = 0;
    assert(rs@.skip(0) =~= rs@);
    while i < rs.len()
        invariant
            i <= rs@.len(),
            ranges_within(rs@, data@.len()),
            status_list_spec(data@, rs@) == match status_list_spec(data@, rs@.skip(i as int)) {
                Some(t) => Some(out@ + t),
                None => None,
            },
        decreases rs.len() - i,
    {
        let mut one: Vec<(usize, usize)> = Vec::new();
        one.push(rs[i]);
        assert(rs@[i as int].0 <= rs@[i as int].1 <= data@.len());
        assert(one@ =~= seq![rs@.skip(i as int)[0]]);
        assert(rs@.skip(i as int).drop_first() =~= rs@.skip(i + 1));
        let a = decode_alert_status(data, &one)?;
        let ghost old_out = out@;
        out.push(a);
        proof {
            match status_list_spec(data@, rs@.skip(i + 1)) {
                Some(t) => {
                    assert(old_out + (seq![a] + t) =~= out@ + t);
                },
                None => {},
            }
        }
        i += 1;
    }
    assert(rs@.skip(i as int) =~= Seq::<(usize, usize)>::empty());
    assert(out@ + Seq::<AlertStatusMessage>::empty() =~= out@);
    Ok(out)
}

fn decode_subscribe_request(data: &[u8], rs: &Vec<(usize, usize)>) -> (r: Result<SubscribeRequest, ProtobufError>)
    requires
        ranges_within(rs@, data@.len()),
    ensures
        match r {
            Ok(v) => subscribe_request_spec(data@, rs@) == Some(v@),
            Err(_) => subscribe_request_spec(data@, rs@).is_none(),
        },
{
    let (_sc, occ) = gather(data, rs, Msg::SubscribeRequest)?;
    let ra = ranges_of_slot(&occ, 0);
    let alerts = decode_alert_list(data, &ra)?;
    Ok(SubscribeRequest { alerts })
}

fn decode_subscribe_response(data: &[u8], rs: &Vec<(usize, usize)>) -> (r: Result<SubscribeResponse, ProtobufError>)
    requires
        ranges_within(rs@, data@.len()),
    ensures
        match r {
            Ok(v) => subscribe_response_spec(data@, rs@) == Some(v@),
            Err(_) => subscribe_response_spec(data@, rs@).is_none(),
        },
{
    let (_sc, occ) = gather(data, rs, Msg::SubscribeResponse)?;
    let ra = ranges_of_slot(&occ, 0);
    let alert_status = decode_status_list(data, &ra)?;
    Ok(SubscribeResponse { alert_status })
}

fn decode_event_sharing(data: &[u8], rs: &Vec<(usize, usize)>) -> (r: Result<EventSharingService, ProtobufError>)
    requires
        ranges_within(rs@, data@.len()),
    ensures
        match r {
            Ok(v) => event_sharing_spec(data@, rs@) == Some(v@),
            Err(_) => event_sharing_spec(data@, rs@).is_none(),
        },
{
    let (_sc, occ) = gather(data, rs, Msg::EventSharing)?;
    let r0 = ranges_of_slot(&occ, 0);
    let r1 = ranges_of_slot(&occ, 1);
    let r2 = ranges_of_slot(&occ, 2);
    let r3 = ranges_of_slot(&occ, 3);
    let req = if r0.len() == 0 { None } else { Some(decode_subscribe_request(data, &r0)?) };
    let resp = if r1.len() == 0 { None } else { Some(decode_subscribe_response(data, &r1)?) };
    let notif = if r2.len() == 0 { None } else { Some(decode_notification(data, &r2)?) };
    check_opaque(data, &r3)?;
    Ok(EventSharingService { subscribe_request: req, subscribe_response: resp, alert_notification: notif })
}

fn decode_wake_up_response(data: &[u8], rs: &Vec<(usize, usize)>) -> (r: Result<WakeUpResponse, ProtobufError>)
    requires
        ranges_within(rs@, data@.len()),
    ensures
        match r {
            Ok(v) => wake_up_response_spec(data@, rs@) == Some(v),
            Err(_) => wake_up_response_spec(data@, rs@).is_none(),
        },
{
    let (sc, _occ) = gather(data, rs, Msg::WakeUpResponse)?;
    Ok(WakeUpResponse { status: int_at(&sc, 0) })
}

fn decode_launch_monitor(data: &[u8], rs: &Vec<(usize, usize)>) -> (r: Result<LaunchMonitorService, ProtobufError>)
    requires
        ranges_within(rs@, data@.len()),
    ensures
        match r {
            Ok(v) => launch_monitor_spec(data@, rs@) == Some(v),
            Err(_) => launch_monitor_spec(data@, rs@).is_none(),
        },
{
    let (_sc, occ) = gather(data, rs, Msg::LaunchMonitor)?;
    let r0 = ranges_of_slot(&occ, 0);
    let r1 = ranges_of_slot(&occ, 1);
    let r2 = ranges_of_slot(&occ, 2);
    let resp = if r1.len() == 0 { None } else { Some(decode_wake_up_response(data, &r1)?) };
    check_opaque(data, &r0)?;
    check_opaque(data, &r2)?;
    let req = if r0.len() == 0 { None } else { Some(WakeUpRequest {}) };
    Ok(LaunchMonitorService { wake_up_request: req, wake_up_response: resp })
}

fn decode_smart_ranges(data: &[u8], rs: &Vec<(usize, usize)>) -> (r: Result<Smart, ProtobufError>)
    requires
        ranges_within(rs@, data@.len()),
    ensures
        match r {
            Ok(v) => smart_spec(data@, rs@) == Some(v@),
            Err(_) => smart_spec(data@, rs@).is_none(),
        },
{
    let (_sc, occ) = gather(data, rs, Msg::Smart)?;
    let r0 = ranges_of_slot(&occ, 0);
    let r1 = ranges_of_slot(&occ, 1);
    let es = if r0.len() == 0 { None } else { Some(decode_event_sharing(data, &r0)?) };
    let lm = if r1.len() == 0 { None } else { Some(decode_launch_monitor(data, &r1)?) };
    Ok(Smart { event_sharing: es, launch_monitor_service: lm })
}

/// Decode a Smart message from its protobuf encoding.
///
/// # Errors
///
/// Returns `Err` when `bytes` are not a valid encoding of a Smart message.
pub fn decode_smart_message(bytes: &[u8]) -> (r: Result<Smart, ProtobufError>)
    ensures
        match r {
            Ok(v) => decode_smart_message_spec(bytes@) == Some(v@),
            Err(_) => decode_smart_message_spec(bytes@).is_none(),
        },
{
    let mut rs: Vec<(usize, usize)> = Vec::new();
    rs.push((0, bytes.len()));
    assert(rs@ =~= seq![(0usize, bytes@.len() as usize)]);
    decode_smart_ranges(bytes, &rs)
}


// ── Shot data ──

/// Kind of shot.
#[derive(Debug, Clone, Copy, PartialEq, Eq, Structural)]
pub enum ShotType {
    Practice,
    Normal,
}

/// How spin was determined.
#[derive(Debug, Clone, Copy, PartialEq, Eq, Structural)]
pub enum SpinCalcType {
    Ratio,
    BallFlight,
    Other,
    Measured,
}

/// Ball data of a shot. Angles are in degrees, speeds in m/s, spin in RPM;
/// each is the IEEE-754 bit pattern of an `f32`.
#[derive(Debug, Clone, Copy)]
pub struct BallData {
    /// Vertical launch angle (degrees).
    pub launch_angle: u32,
    /// Horizontal launch direction (degrees).
    pub launch_direction: u32,
    /// Initial ball velocity (m/s).
    pub ball_speed: u32,
    /// Spin axis tilt (degrees).
    pub spin_axis: u32,
    /// Total spin rate (RPM).
    pub total_spin: u32,
    /// How spin was determined.
    pub spin_calc_type: SpinCalcType,
}

/// Club data of a shot; each value is the IEEE-754 bit pattern of an `f32`.
#[derive(Debug, Clone, Copy)]
pub struct ClubData {
    /// Club head velocity at impact (m/s).
    pub club_head_speed: u32,
    /// Face angle at impact (degrees).
    pub face_angle: u32,
    /// Club path angle (degrees).
    pub path_angle: u32,
    /// Angle of attack (degrees).
    pub attack_angle: u32,
}

/// Swing timing (ms, absolute device time).
#[derive(Debug, Clone, Copy)]
pub struct SwingData {
    /// Backswing start (ms, absolute device time).
    pub backswing_start: u32,
    /// Downswing start (ms).
    pub downswing_start: u32,
    /// Impact moment (ms).
    pub impact: u32,
    /// Follow-through end (ms).
    pub follow_through_end: u32,
}

/// Decoded shot data from the R10.
#[derive(Debug, Clone, Copy)]
pub struct ShotData {
    pub shot_id: u32,
    pub shot_type: ShotType,
    pub ball: Option<BallData>,
    pub club: Option<ClubData>,
    pub swing: Option<SwingData>,
}

/// R10 device state.
#[derive(Debug, Clone, Copy, PartialEq, Eq, Structural)]
pub enum DeviceState {
    Standby,
    InterferenceTest,
    Waiting,
    Recording,
    Processing,
    Error,
}

/// The device state with protobuf value `v`, if any.
pub open spec fn device_state_of(v: i32) -> Option<DeviceState> {
    if v == 0 {
        Some(DeviceState::Standby)
    } else if v == 1 {
        Some(DeviceState::InterferenceTest)
    } else if v == 2 {
        Some(DeviceState::Waiting)
    } else if v == 3 {
        Some(DeviceState::Recording)
    } else if v == 4 {
        Some(DeviceState::Processing)
    } else if v == 5 {
        Some(DeviceState::Error)
    } else {
        None
    }
}

impl DeviceState {
    /// The state with protobuf value `v`, or `None` for an unknown value.
    pub fn from_proto(v: i32) -> (r: Option<Self>)
        ensures
            r == device_state_of(v),
    {
        match v {
            0 => Some(Self::Standby),
            1 => Some(Self::InterferenceTest),
            2 => Some(Self::Waiting),
            3 => Some(Self::Recording),
            4 => Some(Self::Processing),
            5 => Some(Self::Error),
            _ => None,
        }
    }
}

/// R10 device error. The tilt is `(roll, pitch)` in degrees, each the
/// IEEE-754 bit pattern of an `f32`.
#[derive(Debug, Clone, Copy)]
pub struct DeviceError {
    pub code: ErrorCode,
    pub severity: ErrorSeverity,
    pub tilt: Option<(u32, u32)>,
}

#[derive(Debug, Clone, Copy, PartialEq, Eq, Structural)]
pub enum ErrorCode {
    Unknown,
    Overheating,
    RadarSaturation,
    PlatformTilted,
}

#[derive(Debug, Clone, Copy, PartialEq, Eq, Structural)]
pub enum ErrorSeverity {
    Warning,
    Serious,
    Fatal,
}

/// Outcome of decoding a Smart protobuf message from the R10.
#[derive(Debug, Clone, Copy)]
pub enum SmartEvent {
    /// Subscribe response received (success/fail).
    SubscribeResponse { success: bool },
    /// WakeUp response.
    WakeUpResponse { status: i32 },
    /// Device state change.
    StateChange(DeviceState),
    /// Shot data received.
    Shot(ShotData),
    /// Device error.
    Error(DeviceError),
    /// Calibration status update.
    CalibrationStatus { status: i32, result: i32 },
    /// Launch monitor response (status, tilt, shot config, etc.).
    LaunchMonitorResponse,
    /// Unknown or unhandled Smart message.
    Unknown,
}

/// The value of an optional field, or `d` when it is absent.
pub open spec fn or_u32(o: Option<u32>, d: u32) -> u32 {
    match o {
        None => d,
        Some(v) => v,
    }
}

/// The value of an optional field, or `d` when it is absent.
pub open spec fn or_i32(o: Option<i32>, d: i32) -> i32 {
    match o {
        None => d,
        Some(v) => v,
    }
}

/// Spin calculation type of a protobuf value (absent reads as 0).
pub open spec fn spin_calc_of(v: i32) -> SpinCalcType {
    if v == 0 {
        SpinCalcType::Ratio
    } else if v == 1 {
        SpinCalcType::BallFlight
    } else if v == 3 {
        SpinCalcType::Measured
    } else {
        SpinCalcType::Other
    }
}

/// Shot data of decoded metrics: absent scalars read as zero (a float as
/// the bits of 0.0), shot type 1 is a normal shot and anything else practice.
pub open spec fn shot_of(m: Metrics) -> ShotData {
    ShotData {
        shot_id: or_u32(m.shot_id, 0),
        shot_type: if or_i32(m.shot_type, 0) == 1 { ShotType::Normal } else { ShotType::Practice },
        ball: match m.ball_metrics {
            None => None,
            Some(b) => Some(BallData {
                launch_angle: or_u32(b.launch_angle, 0),
                launch_direction: or_u32(b.launch_direction, 0),
                ball_speed: or_u32(b.ball_speed, 0),
                spin_axis: or_u32(b.spin_axis, 0),
                total_spin: or_u32(b.total_spin, 0),
                spin_calc_type: spin_calc_of(or_i32(b.spin_calculation_type, 0)),
            }),
        },
        club: match m.club_metrics {
            None => None,
            Some(c) => Some(ClubData {
                club_head_speed: or_u32(c.club_head_speed, 0),
                face_angle: or_u32(c.club_angle_face, 0),
                path_angle: or_u32(c.club_angle_path, 0),
                attack_angle: or_u32(c.attack_angle, 0),
            }),
        },
        swing: match m.swing_metrics {
            None => None,
            Some(w) => Some(SwingData {
                backswing_start: or_u32(w.back_swing_start_time, 0),
                downswing_start: or_u32(w.down_swing_start_time, 0),
                impact: or_u32(w.impact_time, 0),
                follow_through_end: or_u32(w.follow_through_end_time, 0),
            }),
        },
    }
}

/// Device error of a decoded error message (absent values read as 0).
pub open spec fn device_error_of(e: LaunchMonitorError) -> DeviceError {
    let c = or_i32(e.code, 0);
    let s = or_i32(e.severity, 0);
    DeviceError {
        code: if c == 1 {
            ErrorCode::Overheating
        } else if c == 2 {
            ErrorCode::RadarSaturation
        } else if c == 3 {
            ErrorCode::PlatformTilted
        } else {
            ErrorCode::Unknown
        },
        severity: if s == 1 {
            ErrorSeverity::Serious
        } else if s == 2 {
            ErrorSeverity::Fatal
        } else {
            ErrorSeverity::Warning
        },
        tilt: match e.device_tilt {
            None => None,
            Some(t) => Some((or_u32(t.roll, 0), or_u32(t.pitch, 0))),
        },
    }
}

/// Event of an alert notification: shot data first, then a known state,
/// then an error, then a calibration status.
pub open spec fn alert_event_of(n: AlertNotification) -> SmartEvent {
    match n.details {
        None => SmartEvent::Unknown,
        Some(d) => if d.metrics is Some {
            SmartEvent::Shot(shot_of(d.metrics.unwrap()))
        } else if d.state is Some && d.state.unwrap().state is Some && device_state_of(
            d.state.unwrap().state.unwrap(),
        ) is Some {
            SmartEvent::StateChange(device_state_of(d.state.unwrap().state.unwrap()).unwrap())
        } else if d.error is Some {
            SmartEvent::Error(device_error_of(d.error.unwrap()))
        } else if d.tilt_calibration is Some {
            SmartEvent::CalibrationStatus {
                status: or_i32(d.tilt_calibration.unwrap().status, 0),
                result: or_i32(d.tilt_calibration.unwrap().result, 0),
            }
        } else {
            SmartEvent::Unknown
        },
    }
}

/// `AlertStatusMessage.Status::FAILURE`, the one status the schema defines
/// besides `SUCCESS` (0).
pub const SUBSCRIBE_STATUS_FAILURE: i32 = 1;

/// A subscribe status reads as its enum does, with `SUCCESS` as the default:
/// it is success unless it is the defined failure status. An absent status,
/// and a value that is no defined status, read as `SUCCESS`.
pub open spec fn subscribe_success(s: Option<i32>) -> bool {
    match s {
        None => true,
        Some(v) => v != SUBSCRIBE_STATUS_FAILURE,
    }
}

/// Event of a decoded Smart message: the event-sharing extension first (a
/// subscribe response, else an alert notification), then the launch
/// monitor extension (a wake-up response, else any other response).
pub open spec fn smart_event_of(m: SmartView) -> SmartEvent {
    match m.event_sharing {
        Some(es) => match es.subscribe_response {
            Some(resp) => SmartEvent::SubscribeResponse {
                success: resp.alert_status.len() > 0 && subscribe_success(resp.alert_status[0].subscribe_status),
            },
            None => match es.alert_notification {
                Some(n) => alert_event_of(n),
                None => SmartEvent::Unknown,
            },
        },
        None => match m.launch_monitor_service {
            Some(lm) => match lm.wake_up_response {
                Some(w) => SmartEvent::WakeUpResponse { status: or_i32(w.status, 0) },
                None => SmartEvent::LaunchMonitorResponse,
            },
            None => SmartEvent::Unknown,
        },
    }
}

fn unwrap_u32(o: Option<u32>) -> (r: u32)
    ensures
        r == or_u32(o, 0),
{
    match o {
        None => 0,
        Some(v) => v,
    }
}

fn unwrap_i32(o: Option<i32>) -> (r: i32)
    ensures
        r == or_i32(o, 0),
{
    match o {
        None => 0,
        Some(v) => v,
    }
}

/// Shot data of decoded metrics.
pub fn decode_metrics(m: &Metrics) -> (r: ShotData)
    ensures
        r == shot_of(*m),
{
    let ball = match m.ball_metrics {
        None => None,
        Some(b) => Some(BallData {
            launch_angle: unwrap_u32(b.launch_angle),
            launch_direction: unwrap_u32(b.launch_direction),
            ball_speed: unwrap_u32(b.ball_speed),
            spin_axis: unwrap_u32(b.spin_axis),
            total_spin: unwrap_u32(b.total_spin),
            spin_calc_type: match unwrap_i32(b.spin_calculation_type) {
                0 => SpinCalcType::Ratio,
                1 => SpinCalcType::BallFlight,
                3 => SpinCalcType::Measured,
                _ => SpinCalcType::Other,
            },
        }),
    };
    let club = match m.club_metrics {
        None => None,
        Some(c) => Some(ClubData {
            club_head_speed: unwrap_u32(c.club_head_speed),
            face_angle: unwrap_u32(c.club_angle_face),
            path_angle: unwrap_u32(c.club_angle_path),
            attack_angle: unwrap_u32(c.attack_angle),
        }),
    };
    let swing = match m.swing_metrics {
        None => None,
        Some(w) => Some(SwingData {
            backswing_start: unwrap_u32(w.back_swing_start_time),
            downswing_start: unwrap_u32(w.down_swing_start_time),
            impact: unwrap_u32(w.impact_time),
            follow_through_end: unwrap_u32(w.follow_through_end_time),
        }),
    };
    ShotData {
        shot_id: unwrap_u32(m.shot_id),
        shot_type: if unwrap_i32(m.shot_type) == 1 { ShotType::Normal } else { ShotType::Practice },
        ball,
        club,
        swing,
    }
}

/// Device error of a decoded error message.
pub fn decode_error(e: &LaunchMonitorError) -> (r: DeviceError)
    ensures
        r == device_error_of(*e),
{
    DeviceError {
        code: match unwrap_i32(e.code) {
            1 => ErrorCode::Overheating,
            2 => ErrorCode::RadarSaturation,
            3 => ErrorCode::PlatformTilted,
            _ => ErrorCode::Unknown,
        },
        severity: match unwrap_i32(e.severity) {
            1 => ErrorSeverity::Serious,
            2 => ErrorSeverity::Fatal,
            _ => ErrorSeverity::Warning,
        },
        tilt: match e.device_tilt {
            None => None,
            Some(t) => Some((unwrap_u32(t.roll), unwrap_u32(t.pitch))),
        },
    }
}

/// Event of an alert notification.
pub fn decode_alert_notification(n: &AlertNotification) -> (r: SmartEvent)
    ensures
        r == alert_event_of(*n),
{
    let details = match n.details {
        None => return SmartEvent::Unknown,
        Some(d) => d,
    };
    // Shot data
    if let Some(metrics) = details.metrics {
        return SmartEvent::Shot(decode_metrics(&metrics));
    }
    // State change
    if let Some(st) = details.state {
        if let Some(v) = st.state {
            if let Some(ds) = DeviceState::from_proto(v) {
                return SmartEvent::StateChange(ds);
            }
        }
    }
    // Error
    if let Some(err) = details.error {
        return SmartEvent::Error(decode_error(&err));
    }
    // Calibration
    if let Some(cal) = details.tilt_calibration {
        return SmartEvent::CalibrationStatus { status: unwrap_i32(cal.status), result: unwrap_i32(cal.result) };
    }
    SmartEvent::Unknown
}

/// Event of a decoded Smart message.
pub fn smart_event(smart: &Smart) -> (r: SmartEvent)
    ensures
        r == smart_event_of(smart@),
{
    // EventSharing extension (field 30)
    if let Some(es) = &smart.event_sharing {
        if let Some(resp) = &es.subscribe_response {
            // prost's enum getter reads an absent or undefined status as SUCCESS.
            let success = resp.alert_status.len() > 0 && match resp.alert_status[0].subscribe_status {
                None => true,
                Some(v) => v != SUBSCRIBE_STATUS_FAILURE,
            };
            return SmartEvent::SubscribeResponse { success };
        }
        if let Some(notif) = &es.alert_notification {
            return decode_alert_notification(notif);
        }
        return SmartEvent::Unknown;
    }
    // LaunchMonitor extension (field 38)
    if let Some(lm) = &smart.launch_monitor_service {
        if let Some(resp) = &lm.wake_up_response {
            return SmartEvent::WakeUpResponse { status: unwrap_i32(resp.status) };
        }
        return SmartEvent::LaunchMonitorResponse;
    }
    SmartEvent::Unknown
}

/// The event a Smart protobuf encoding stands for, or `None` when the bytes
/// are not a valid encoding.
pub open spec fn decode_smart_spec(pb: Seq<u8>) -> Option<SmartEvent> {
    match decode_smart_message_spec(pb) {
        None => None,
        Some(m) => Some(smart_event_of(m)),
    }
}

/// Decode a Smart protobuf message and return a high-level event.
///
/// # Errors
///
/// Returns `Err` if protobuf deserialization fails.
pub fn decode_smart(pb_data: &[u8]) -> (r: Result<SmartEvent, ProtobufError>)
    ensures
        match r {
            Ok(e) => decode_smart_spec(pb_data@) == Some(e),
            Err(_) => decode_smart_spec(pb_data@).is_none(),
        },
{
    let smart = decode_smart_message(pb_data)?;
    Ok(smart_event(&smart))
}

// ── Smart message builders ──

/// A length-delimited field: key (wire type 2), length, contents.
pub open spec fn len_field(tag: u32, body: Seq<u8>) -> Seq<u8> {
    varint_bytes((tag * 8 + 2) as u64) + varint_bytes(body.len() as u64) + body
}

/// A varint field: key (wire type 0), value.
pub open spec fn varint_field(tag: u32, v: u64) -> Seq<u8> {
    varint_bytes((tag * 8) as u64) + varint_bytes(v)
}

/// `AlertType::LAUNCH_MONITOR`.
pub const ALERT_TYPE_LAUNCH_MONITOR: u64 = 8;

/// Smart { event_sharing (30): { subscribe_request (1): { alerts (1): [ { type (1): LAUNCH_MONITOR } ] } } }.
pub open spec fn subscribe_request_bytes() -> Seq<u8> {
    len_field(30, len_field(1, len_field(1, varint_field(1, ALERT_TYPE_LAUNCH_MONITOR))))
}

/// Smart { launch_monitor_service (38): { wake_up_request (3): {} } }.
pub open spec fn wakeup_request_bytes() -> Seq<u8> {
    len_field(38, len_field(3, Seq::empty()))
}

fn len_field_vec(tag: u32, body: &Vec<u8>) -> (r: Vec<u8>)
    requires
        1 <= tag <= 0x1FFF_FFFF,
    ensures
        r@ == len_field(tag, body@),
{
    let mut out: Vec<u8> = Vec::new();
    encode_key(tag, WIRE_LENGTH_DELIMITED, &mut out);
    encode_varint(body.len() as u64, &mut out);
    let mut j: usize = 0;
    let ghost head = out@;
    while j < body.len()
        invariant
            j <= body@.len(),
            out@ == head + body@.take(j as int),
        decreases body.len() - j,
    {
        out.push(body[j]);
        j += 1;
        assert(body@.take(j as int) =~= body@.take(j - 1) + seq![body@[j - 1]]);
    }
    assert(body@.take(j as int) =~= body@);
    out
}

/// Build a Subscribe(LAUNCH_MONITOR) Smart message.
pub fn build_subscribe_request() -> (r: Vec<u8>)
    ensures
        r@ == subscribe_request_bytes(),
{
    let mut alert: Vec<u8> = Vec::new();
    encode_key(1, WIRE_VARINT, &mut alert);
    encode_varint(ALERT_TYPE_LAUNCH_MONITOR, &mut alert);
    assert(alert@ =~= varint_field(1, ALERT_TYPE_LAUNCH_MONITOR));
    let subscribe = len_field_vec(1, &alert);
    let es = len_field_vec(1, &subscribe);
    len_field_vec(30, &es)
}

/// Build a WakeUpRequest Smart message.
pub fn build_wakeup_request() -> (r: Vec<u8>)
    ensures
        r@ == wakeup_request_bytes(),
{
    let empty: Vec<u8> = Vec::new();
    let wake = len_field_vec(3, &empty);
    len_field_vec(38, &wake)
}

// ── Laws of the decoded values ──

/// The device states follow the numbering of the LaunchMonitor `State`
/// enum: 0 STANDBY, 1 INTERFERENCE_TEST, 2 WAITING, 3 RECORDING,
/// 4 PROCESSING, 5 ERROR; any other number is no state. Distinct numbers
/// give distinct states.
pub proof fn lemma_device_state_numbering(v: i32, w: i32)
    ensures
        device_state_of(0) == Some(DeviceState::Standby),
        device_state_of(1) == Some(DeviceState::InterferenceTest),
        device_state_of(2) == Some(DeviceState::Waiting),
        device_state_of(3) == Some(DeviceState::Recording),
        device_state_of(4) == Some(DeviceState::Processing),
        device_state_of(5) == Some(DeviceState::Error),
        device_state_of(v) is Some <==> 0 <= v <= 5,
        0 <= v <= 5 && 0 <= w <= 5 && v != w ==> device_state_of(v) != device_state_of(w),
{
}

/// A device error reads its code from the `Error.Code` enum (1 OVERHEATING,
/// 2 RADAR_SATURATION, 3 PLATFORM_TILTED, anything else or none unknown),
/// its severity from the `Severity` enum (1 SERIOUS, 2 FATAL, anything else
/// or none a warning), and keeps the tilt's roll and pitch bits in that
/// order (0 where one is missing).
pub proof fn lemma_device_error_fields(e: LaunchMonitorError)
    ensures
        e.code == Some(1i32) ==> device_error_of(e).code == ErrorCode::Overheating,
        e.code == Some(2i32) ==> device_error_of(e).code == ErrorCode::RadarSaturation,
        e.code == Some(3i32) ==> device_error_of(e).code == ErrorCode::PlatformTilted,
        !(e.code == Some(1i32) || e.code == Some(2i32) || e.code == Some(3i32))
            ==> device_error_of(e).code == ErrorCode::Unknown,
        e.severity == Some(1i32) ==> device_error_of(e).severity == ErrorSeverity::Serious,
        e.severity == Some(2i32) ==> device_error_of(e).severity == ErrorSeverity::Fatal,
        !(e.severity == Some(1i32) || e.severity == Some(2i32)) ==> device_error_of(e).severity == ErrorSeverity::Warning,
        e.device_tilt is None ==> device_error_of(e).tilt is None,
        e.device_tilt matches Some(t) ==> {
            &&& device_error_of(e).tilt is Some
            &&& t.roll matches Some(r) ==> device_error_of(e).tilt->Some_0.0 == r
            &&& t.pitch matches Some(q) ==> device_error_of(e).tilt->Some_0.1 == q
            &&& t.roll is None ==> device_error_of(e).tilt->Some_0.0 == 0
            &&& t.pitch is None ==> device_error_of(e).tilt->Some_0.1 == 0
        },
{
}

/// A shot keeps every measurement under its own name: each ball, club and
/// swing value of the shot is the one the metrics carry in the field of
/// the same meaning (0 where the field is missing), and the shot carries
/// ball, club or swing data exactly when the metrics do.
pub proof fn lemma_shot_fields(m: Metrics)
    ensures
        shot_of(m).ball is Some <==> m.ball_metrics is Some,
        shot_of(m).club is Some <==> m.club_metrics is Some,
        shot_of(m).swing is Some <==> m.swing_metrics is Some,
        m.shot_id matches Some(id) ==> shot_of(m).shot_id == id,
        m.ball_metrics matches Some(b) ==> {
            let d = shot_of(m).ball->Some_0;
            &&& b.launch_angle matches Some(x) ==> d.launch_angle == x
            &&& b.launch_direction matches Some(x) ==> d.launch_direction == x
            &&& b.ball_speed matches Some(x) ==> d.ball_speed == x
            &&& b.spin_axis matches Some(x) ==> d.spin_axis == x
            &&& b.total_spin matches Some(x) ==> d.total_spin == x
            &&& b.launch_angle is None ==> d.launch_angle == 0
            &&& b.launch_direction is None ==> d.launch_direction == 0
            &&& b.spin_axis is None ==> d.spin_axis == 0
        },
        m.club_metrics matches Some(c) ==> {
            let d = shot_of(m).club->Some_0;
            &&& c.club_head_speed matches Some(x) ==> d.club_head_speed == x
            &&& c.club_angle_face matches Some(x) ==> d.face_angle == x
            &&& c.club_angle_path matches Some(x) ==> d.path_angle == x
            &&& c.attack_angle matches Some(x) ==> d.attack_angle == x
        },
        m.swing_metrics matches Some(w) ==> {
            let d = shot_of(m).swing->Some_0;
            &&& w.back_swing_start_time matches Some(x) ==> d.backswing_start == x
            &&& w.down_swing_start_time matches Some(x) ==> d.downswing_start == x
            &&& w.impact_time matches Some(x) ==> d.impact == x
            &&& w.follow_through_end_time matches Some(x) ==> d.follow_through_end == x
        },
{
}

/// A 32-bit field on the wire: its key (field `tag`, wire type 5) and the
/// four bytes of `bits`, least significant first.
pub open spec fn fixed32_field(tag: u32, bits: u32) -> Seq<u8> {
    varint_bytes((tag * 8 + 5) as u64) + crate::multilink::le32(bits)
}

proof fn lemma_fixed32_field(tag: u32, bits: u32, rest: Seq<u8>)
    requires
        1 <= tag <= 15,
    ensures
        fixed32_field(tag, bits).len() == 5,
        crate::pb::field_spec(fixed32_field(tag, bits) + rest) == Some(crate::pb::FieldSpec {
            tag,
            wire: 5,
            len: 5,
            value: bits as int,
            start: 5,
            end: 5,
        }),
{
    let k = (tag * 8 + 5) as u64;
    assert(k < 0x80);
    assert(varint_bytes(k) == seq![k as u8]);
    let le = crate::multilink::le32(bits);
    let s = fixed32_field(tag, bits) + rest;
    assert(s[0] == k as u8);
    assert(crate::pb::varint_from(s, 0) == Some((k as int, 1nat)));
    assert(crate::pb::varint_spec(s) == Some((k as int, 1nat)));
    assert(k % 8 == 5 && k / 8 == tag);
    assert(crate::pb::key_spec(s) == Some((tag, 5u8, 1nat)));
    let r = s.skip(1);
    assert(r[0] == le[0] && r[1] == le[1] && r[2] == le[2] && r[3] == le[3]);
    let (b0, b1, b2, b3) = (le[0], le[1], le[2], le[3]);
    assert(crate::gfdi::u32_le(b0, b1, b2, b3) == bits) by (bit_vector)
        requires
            b0 == (bits & 0xFF) as u8,
            b1 == ((bits >> 8) & 0xFF) as u8,
            b2 == ((bits >> 16) & 0xFF) as u8,
            b3 == (bits >> 24) as u8,
    ;
}

/// One 32-bit field at `lo` of `data` is taken by the walker as that
/// field, and the walk goes on after it.
proof fn lemma_gather_fixed32(data: Seq<u8>, lo: int, hi: int, m: Msg, acc: Gathered, tag: u32, bits: u32)
    requires
        1 <= tag <= 15,
        0 <= lo,
        lo + 5 <= hi <= data.len(),
        data.subrange(lo, lo + 5) == fixed32_field(tag, bits),
    ensures
        crate::pb::gather_range(data, lo, hi, m, acc) == match crate::pb::apply_spec(
            data,
            m,
            acc,
            crate::pb::FieldSpec { tag, wire: 5, len: 5, value: bits as int, start: 5, end: 5 },
            lo,
        ) {
            None => None,
            Some(a2) => crate::pb::gather_range(data, lo + 5, hi, m, a2),
        },
{
    assert(data.subrange(lo, hi) =~= fixed32_field(tag, bits) + data.subrange(lo + 5, hi));
    lemma_fixed32_field(tag, bits, data.subrange(lo + 5, hi));
}

/// The ball metrics floats, each under its own field number: launch angle
/// (1), launch direction (2), ball speed (3), spin axis (4), total spin (5).
pub open spec fn ball_floats(a: u32, b: u32, c: u32, d: u32, e: u32) -> Seq<u8> {
    fixed32_field(1, a) + fixed32_field(2, b) + fixed32_field(3, c) + fixed32_field(4, d) + fixed32_field(5, e)
}

/// Each ball measurement is the float carried under its own field number:
/// a BallMetrics message holding launch angle (field 1), launch direction
/// (2), ball speed (3), spin axis (4) and total spin (5) decodes with each
/// value in the field of the same meaning.
pub proof fn lemma_ball_wire_fields(a: u32, b: u32, c: u32, d: u32, e: u32)
    ensures
        ball_spec(ball_floats(a, b, c, d, e), seq![(0usize, 25usize)]) == Some(BallMetrics {
            launch_angle: Some(a),
            launch_direction: Some(b),
            ball_speed: Some(c),
            spin_axis: Some(d),
            total_spin: Some(e),
            spin_calculation_type: None,
            golf_ball_type: None,
        }),
{
    let data = ball_floats(a, b, c, d, e);
    let m = Msg::BallMetrics;
    lemma_fixed32_field(1, a, Seq::empty());
    lemma_fixed32_field(2, b, Seq::empty());
    lemma_fixed32_field(3, c, Seq::empty());
    lemma_fixed32_field(4, d, Seq::empty());
    lemma_fixed32_field(5, e, Seq::empty());
    assert(data.len() == 25);
    assert(data.subrange(0, 5) =~= fixed32_field(1, a));
    assert(data.subrange(5, 10) =~= fixed32_field(2, b));
    assert(data.subrange(10, 15) =~= fixed32_field(3, c));
    assert(data.subrange(15, 20) =~= fixed32_field(4, d));
    assert(data.subrange(20, 25) =~= fixed32_field(5, e));
    let g0 = crate::pb::gathered_init(m);
    let g1 = (g0.0.update(0, Some(a as u64)), g0.1);
    let g2 = (g1.0.update(1, Some(b as u64)), g1.1);
    let g3 = (g2.0.update(2, Some(c as u64)), g2.1);
    let g4 = (g3.0.update(3, Some(d as u64)), g3.1);
    let g5 = (g4.0.update(4, Some(e as u64)), g4.1);
    lemma_gather_fixed32(data, 0, 25, m, g0, 1, a);
    lemma_gather_fixed32(data, 5, 25, m, g1, 2, b);
    lemma_gather_fixed32(data, 10, 25, m, g2, 3, c);
    lemma_gather_fixed32(data, 15, 25, m, g3, 4, d);
    lemma_gather_fixed32(data, 20, 25, m, g4, 5, e);
    assert(crate::pb::gather_range(data, 0, 25, m, g0) == Some(g5));
    let rs = seq![(0usize, 25usize)];
    assert(rs.drop_first() =~= Seq::<(usize, usize)>::empty());
    assert(crate::pb::gather_ranges(data, rs.drop_first(), m, g5) == Some(g5));
    assert(gather_spec(data, rs, m) == Some(g5));
    assert(g5.0[0] == Some(a as u64) && g5.0[1] == Some(b as u64) && g5.0[2] == Some(c as u64));
    assert(g5.0[3] == Some(d as u64) && g5.0[4] == Some(e as u64) && g5.0[5] is None && g5.0[6] is None);
}

/// The club metrics floats, each under its own field number: club head
/// speed (1), face angle (2), path angle (3), attack angle (4).
pub open spec fn club_floats(a: u32, b: u32, c: u32, d: u32) -> Seq<u8> {
    fixed32_field(1, a) + fixed32_field(2, b) + fixed32_field(3, c) + fixed32_field(4, d)
}

/// Each club measurement is the float carried under its own field number:
/// a ClubMetrics message holding club head speed (field 1), face angle (2),
/// path angle (3) and attack angle (4) decodes with each value in the field
/// of the same meaning.
pub proof fn lemma_club_wire_fields(a: u32, b: u32, c: u32, d: u32)
    ensures
        club_spec(club_floats(a, b, c, d), seq![(0usize, 20usize)]) == Some(ClubMetrics {
            club_head_speed: Some(a),
            club_angle_face: Some(b),
            club_angle_path: Some(c),
            attack_angle: Some(d),
        }),
{
    let data = club_floats(a, b, c, d);
    let m = Msg::ClubMetrics;
    lemma_fixed32_field(1, a, Seq::empty());
    lemma_fixed32_field(2, b, Seq::empty());
    lemma_fixed32_field(3, c, Seq::empty());
    lemma_fixed32_field(4, d, Seq::empty());
    assert(data.len() == 20);
    assert(data.subrange(0, 5) =~= fixed32_field(1, a));
    assert(data.subrange(5, 10) =~= fixed32_field(2, b));
    assert(data.subrange(10, 15) =~= fixed32_field(3, c));
    assert(data.subrange(15, 20) =~= fixed32_field(4, d));
    let g0 = crate::pb::gathered_init(m);
    let g1 = (g0.0.update(0, Some(a as u64)), g0.1);
    let g2 = (g1.0.update(1, Some(b as u64)), g1.1);
    let g3 = (g2.0.update(2, Some(c as u64)), g2.1);
    let g4 = (g3.0.update(3, Some(d as u64)), g3.1);
    lemma_gather_fixed32(data, 0, 20, m, g0, 1, a);
    lemma_gather_fixed32(data, 5, 20, m, g1, 2, b);
    lemma_gather_fixed32(data, 10, 20, m, g2, 3, c);
    lemma_gather_fixed32(data, 15, 20, m, g3, 4, d);
    assert(crate::pb::gather_range(data, 0, 20, m, g0) == Some(g4));
    let rs = seq![(0usize, 20usize)];
    assert(rs.drop_first() =~= Seq::<(usize, usize)>::empty());
    assert(crate::pb::gather_ranges(data, rs.drop_first(), m, g4) == Some(g4));
    assert(gather_spec(data, rs, m) == Some(g4));
    assert(g4.0[0] == Some(a as u64) && g4.0[1] == Some(b as u64) && g4.0[2] == Some(c as u64));
    assert(g4.0[3] == Some(d as u64));
}

/// A tilt keeps roll and pitch apart: a Tilt message holding roll (field
/// 1) and pitch (field 2) decodes with each value in the field of the same
/// meaning.
pub proof fn lemma_tilt_wire_fields(roll: u32, pitch: u32)
    ensures
        tilt_spec(fixed32_field(1, roll) + fixed32_field(2, pitch), seq![(0usize, 10usize)])
            == Some(Tilt { roll: Some(roll), pitch: Some(pitch) }),
{
    let data = fixed32_field(1, roll) + fixed32_field(2, pitch);
    let m = Msg::Tilt;
    lemma_fixed32_field(1, roll, Seq::empty());
    lemma_fixed32_field(2, pitch, Seq::empty());
    assert(data.len() == 10);
    assert(data.subrange(0, 5) =~= fixed32_field(1, roll));
    assert(data.subrange(5, 10) =~= fixed32_field(2, pitch));
    let g0 = crate::pb::gathered_init(m);
    let g1 = (g0.0.update(0, Some(roll as u64)), g0.1);
    let g2 = (g1.0.update(1, Some(pitch as u64)), g1.1);
    lemma_gather_fixed32(data, 0, 10, m, g0, 1, roll);
    lemma_gather_fixed32(data, 5, 10, m, g1, 2, pitch);
    assert(crate::pb::gather_range(data, 0, 10, m, g0) == Some(g2));
    let rs = seq![(0usize, 10usize)];
    assert(rs.drop_first() =~= Seq::<(usize, usize)>::empty());
    assert(crate::pb::gather_ranges(data, rs.drop_first(), m, g2) == Some(g2));
    assert(gather_spec(data, rs, m) == Some(g2));
    assert(g2.0[0] == Some(roll as u64) && g2.0[1] == Some(pitch as u64));
}

} // verus!
