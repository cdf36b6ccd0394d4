use tenover::proto::{
    build_subscribe_request, build_wakeup_request, decode_alert_notification, decode_error, decode_metrics,
    decode_smart, decode_smart_message, AlertDetails, AlertNotification, BallMetrics, ClubMetrics, DeviceState,
    ErrorCode, ErrorSeverity, LaunchMonitorError, Metrics, ShotType, SmartEvent, SpinCalcType, State, SwingMetrics,
    Tilt,
};

fn varint(mut v: u64, out: &mut Vec<u8>) {
    while v >= 0x80 {
        out.push((v as u8) | 0x80);
        v >>= 7;
    }
    out.push(v as u8);
}

fn len_field(tag: u32, body: &[u8]) -> Vec<u8> {
    let mut out = Vec::new();
    varint(u64::from(tag) * 8 + 2, &mut out);
    varint(body.len() as u64, &mut out);
    out.extend_from_slice(body);
    out
}

fn varint_field(tag: u32, v: u64) -> Vec<u8> {
    let mut out = Vec::new();
    varint(u64::from(tag) * 8, &mut out);
    varint(v, &mut out);
    out
}

fn float_field(tag: u32, v: f32) -> Vec<u8> {
    let mut out = Vec::new();
    varint(u64::from(tag) * 8 + 5, &mut out);
    out.extend_from_slice(&v.to_bits().to_le_bytes());
    out
}

/// Smart { event_sharing: { alert_notification: { details (1001): `details` } } }.
fn notification(details: &[u8]) -> Vec<u8> {
    len_field(30, &len_field(3, &len_field(1001, details)))
}

#[test]
fn subscribe_request_encodes() {
    let data = build_subscribe_request();
    assert!(!data.is_empty());
    // Should round-trip through Smart decode
    let smart = decode_smart_message(data.as_slice()).unwrap();
    let es = smart.event_sharing.unwrap();
    let req = es.subscribe_request.unwrap();
    assert_eq!(req.alerts.len(), 1);
}

#[test]
fn wakeup_request_encodes() {
    let data = build_wakeup_request();
    assert!(!data.is_empty());
    let smart = decode_smart_message(data.as_slice()).unwrap();
    assert!(smart.launch_monitor_service.unwrap().wake_up_request.is_some());
}

#[test]
fn decode_shot_metrics() {
    let metrics = Metrics {
        shot_id: Some(42),
        shot_type: Some(1), // NORMAL
        ball_metrics: Some(BallMetrics {
            launch_angle: Some(12.5f32.to_bits()),
            launch_direction: Some((-1.2f32).to_bits()),
            ball_speed: Some(67.0f32.to_bits()),   // m/s
            spin_axis: Some(5.0f32.to_bits()),     // degrees
            total_spin: Some(2800.0f32.to_bits()), // RPM
            spin_calculation_type: Some(0),        // RATIO
            golf_ball_type: Some(1),               // CONVENTIONAL
        }),
        club_metrics: Some(ClubMetrics {
            club_head_speed: Some(44.0f32.to_bits()),
            club_angle_face: Some(1.5f32.to_bits()),
            club_angle_path: Some((-2.0f32).to_bits()),
            attack_angle: Some((-3.5f32).to_bits()),
        }),
        swing_metrics: Some(SwingMetrics {
            back_swing_start_time: Some(1000),
            down_swing_start_time: Some(1500),
            impact_time: Some(1800),
            follow_through_end_time: Some(2200),
            end_recording_time: None,
        }),
    };

    let shot = decode_metrics(&metrics);
    assert_eq!(shot.shot_id, 42);
    assert_eq!(shot.shot_type, ShotType::Normal);

    let ball = shot.ball.unwrap();
    assert!((f32::from_bits(ball.ball_speed) - 67.0).abs() < 0.01);
    assert!((f32::from_bits(ball.total_spin) - 2800.0).abs() < 0.01);
    assert_eq!(ball.spin_calc_type, SpinCalcType::Ratio);

    let club = shot.club.unwrap();
    assert!((f32::from_bits(club.club_head_speed) - 44.0).abs() < 0.01);
    assert!((f32::from_bits(club.face_angle) - 1.5).abs() < 0.01);

    let swing = shot.swing.unwrap();
    assert_eq!(swing.impact, 1800);
}

// ── Further cases ──

#[test]
fn request_exact_bytes() {
    assert_eq!(build_subscribe_request(), vec![0xF2, 0x01, 0x06, 0x0A, 0x04, 0x0A, 0x02, 0x08, 0x08]);
    assert_eq!(build_wakeup_request(), vec![0xB2, 0x02, 0x02, 0x1A, 0x00]);
}

#[test]
fn metrics_defaults() {
    let metrics = Metrics {
        shot_id: None,
        shot_type: Some(7),
        ball_metrics: Some(BallMetrics {
            launch_angle: None,
            launch_direction: None,
            ball_speed: None,
            spin_axis: None,
            total_spin: None,
            spin_calculation_type: Some(2),
            golf_ball_type: None,
        }),
        club_metrics: None,
        swing_metrics: None,
    };
    let shot = decode_metrics(&metrics);
    assert_eq!(shot.shot_id, 0);
    assert_eq!(shot.shot_type, ShotType::Practice);
    let ball = shot.ball.unwrap();
    assert_eq!(ball.ball_speed, 0);
    assert_eq!(ball.spin_calc_type, SpinCalcType::Other);
    assert!(shot.club.is_none());
    assert!(shot.swing.is_none());
}

#[test]
fn error_decoding() {
    let e = LaunchMonitorError {
        code: Some(3),
        severity: Some(2),
        device_tilt: Some(Tilt { roll: Some(1.5f32.to_bits()), pitch: None }),
    };
    let d = decode_error(&e);
    assert_eq!(d.code, ErrorCode::PlatformTilted);
    assert_eq!(d.severity, ErrorSeverity::Fatal);
    assert_eq!(d.tilt, Some((1.5f32.to_bits(), 0)));
    let d2 = decode_error(&LaunchMonitorError { code: None, severity: Some(9), device_tilt: None });
    assert_eq!(d2.code, ErrorCode::Unknown);
    assert_eq!(d2.severity, ErrorSeverity::Warning);
    assert_eq!(d2.tilt, None);
}

#[test]
fn alert_notification_precedence() {
    let state_only = AlertNotification {
        details: Some(AlertDetails {
            state: Some(State { state: Some(2) }),
            metrics: None,
            error: None,
            tilt_calibration: None,
        }),
    };
    assert!(matches!(decode_alert_notification(&state_only), SmartEvent::StateChange(DeviceState::Waiting)));
    let unknown_state = AlertNotification {
        details: Some(AlertDetails {
            state: Some(State { state: Some(9) }),
            metrics: None,
            error: None,
            tilt_calibration: None,
        }),
    };
    assert!(matches!(decode_alert_notification(&unknown_state), SmartEvent::Unknown));
    assert!(matches!(decode_alert_notification(&AlertNotification { details: None }), SmartEvent::Unknown));
}

#[test]
fn decode_smart_shot_from_bytes() {
    let ball = [
        float_field(1, 12.5),
        float_field(3, 67.0),
        varint_field(6, 3),
    ]
    .concat();
    let metrics = [varint_field(1, 7), varint_field(2, 1), len_field(3, &ball)].concat();
    let bytes = notification(&len_field(2, &metrics));
    match decode_smart(&bytes).unwrap() {
        SmartEvent::Shot(shot) => {
            assert_eq!(shot.shot_id, 7);
            assert_eq!(shot.shot_type, ShotType::Normal);
            let b = shot.ball.unwrap();
            assert_eq!(f32::from_bits(b.launch_angle), 12.5);
            assert_eq!(f32::from_bits(b.ball_speed), 67.0);
            assert_eq!(b.launch_direction, 0);
            assert_eq!(b.spin_calc_type, SpinCalcType::Measured);
        }
        other => panic!("unexpected {other:?}"),
    }
}

#[test]
fn decode_smart_state_and_responses() {
    let state = notification(&len_field(1, &varint_field(1, 0)));
    assert!(matches!(decode_smart(&state).unwrap(), SmartEvent::StateChange(DeviceState::Standby)));

    // SubscribeResponse with one alert status, status absent → success.
    let ok = len_field(30, &len_field(2, &len_field(1, &varint_field(1, 8))));
    assert!(matches!(decode_smart(&ok).unwrap(), SmartEvent::SubscribeResponse { success: true }));
    let refused = len_field(30, &len_field(2, &len_field(1, &[varint_field(1, 8), varint_field(2, 1)].concat())));
    assert!(matches!(decode_smart(&refused).unwrap(), SmartEvent::SubscribeResponse { success: false }));
    let none = len_field(30, &len_field(2, &[]));
    assert!(matches!(decode_smart(&none).unwrap(), SmartEvent::SubscribeResponse { success: false }));

    let woke = len_field(38, &len_field(4, &varint_field(1, 1)));
    assert!(matches!(decode_smart(&woke).unwrap(), SmartEvent::WakeUpResponse { status: 1 }));
    let lm = len_field(38, &len_field(2, &[]));
    assert!(matches!(decode_smart(&lm).unwrap(), SmartEvent::LaunchMonitorResponse));
    assert!(matches!(decode_smart(&[]).unwrap(), SmartEvent::Unknown));
}

#[test]
fn decode_smart_rejects_truncated() {
    // A length-delimited field claiming more bytes than there are.
    assert!(decode_smart(&[0xF2, 0x01, 0x05, 0x0A]).is_err());
    // A key with wire type 7 does not exist.
    assert!(decode_smart(&[0x0F]).is_err());
}

#[test]
fn device_state_codes() {
    assert_eq!(DeviceState::from_proto(0), Some(DeviceState::Standby));
    assert_eq!(DeviceState::from_proto(5), Some(DeviceState::Error));
    assert_eq!(DeviceState::from_proto(6), None);
    assert_eq!(DeviceState::from_proto(-1), None);
}

#[test]
fn decode_smart_skips_unknown_fields() {
    let mut unknown = Vec::new();
    unknown.extend(varint_field(5, 300)); // varint
    unknown.extend([0x31, 1, 2, 3, 4, 5, 6, 7, 8]); // field 6, fixed64
    unknown.extend(len_field(7, b"abc")); // field 7, length-delimited
    unknown.extend([0x45, 9, 9, 9, 9]); // field 8, fixed32
    unknown.extend([0x4B, 0x50, 0x01, 0x4C]); // field 9, group holding a varint
    let woke = [unknown, len_field(38, &len_field(4, &varint_field(1, 0)))].concat();
    assert!(matches!(decode_smart(&woke).unwrap(), SmartEvent::WakeUpResponse { status: 0 }));
}

#[test]
fn decode_smart_rejects_wrong_wire_type() {
    // shot_id (a varint field) sent as fixed32.
    let metrics = [0x0D, 1, 0, 0, 0];
    let bytes = len_field(30, &len_field(3, &len_field(1001, &len_field(2, &metrics))));
    assert!(decode_smart(&bytes).is_err());
}

#[test]
fn subscribe_status_undefined_reads_as_success() {
    let odd = len_field(30, &len_field(2, &len_field(1, &[varint_field(1, 8), varint_field(2, 9)].concat())));
    assert!(matches!(decode_smart(&odd).unwrap(), SmartEvent::SubscribeResponse { success: true }));
    let zero = len_field(30, &len_field(2, &len_field(1, &[varint_field(1, 8), varint_field(2, 0)].concat())));
    assert!(matches!(decode_smart(&zero).unwrap(), SmartEvent::SubscribeResponse { success: true }));
}
