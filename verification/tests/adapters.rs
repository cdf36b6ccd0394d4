use tenover::bluez::{address_from_path, select_characteristics, select_r10, CharEntry, DeviceEntry};
use tenover::client::Event;
use tenover::frp::{plan_event, FrpStep};
use tenover::ident::{uuid_bytes_from_seed, uuid_string, uuid_v4, uuid_v4_from_seed};
use tenover::proto::{BallData, ClubData, DeviceState, ShotData, ShotType, SpinCalcType};

// ── Shot identifiers ──

#[test]
fn uuid_known_seeds() {
    assert_eq!(uuid_v4_from_seed(1_700_000_000_123_456_789), "0503e212-898d-496d-9e8d-409d9aa44d7f");
    assert_eq!(uuid_v4_from_seed(0), "b3ed211e-2560-42cf-9311-7ee0d611e832");
    assert_eq!(uuid_v4_from_seed(1), "6cf3fda4-68e8-43b0-8ddd-b1a1ff61f86e");
}

#[test]
fn uuid_bytes_version_and_variant() {
    let b = uuid_bytes_from_seed(1);
    assert_eq!(b, vec![108, 243, 253, 164, 104, 232, 67, 176, 141, 221, 177, 161, 255, 97, 248, 110]);
    assert_eq!(b[6] >> 4, 4);
    assert_eq!(b[8] >> 6, 0b10);
}

#[test]
fn uuid_text_layout() {
    let s = uuid_string(&[0x01, 0x23, 0x45, 0x67, 0x89, 0xAB, 0xCD, 0xEF, 0x00, 0x10, 0xFE, 0xDC, 0xBA, 0x98, 0x76, 0x54]);
    assert_eq!(s, "01234567-89ab-cdef-0010-fedcba987654");
}

#[test]
fn uuid_from_clock_is_well_formed() {
    let s = uuid_v4();
    assert_eq!(s.len(), 36);
    for (i, c) in s.chars().enumerate() {
        if [8, 13, 18, 23].contains(&i) {
            assert_eq!(c, '-');
        } else {
            assert!(c.is_ascii_hexdigit() && !c.is_ascii_uppercase());
        }
    }
    assert_eq!(s.as_bytes()[14], b'4');
}

// ── BlueZ object tree ──

#[test]
fn address_from_device_path() {
    assert_eq!(address_from_path("/org/bluez/hci0/dev_F5_D1_88_F6_90_5D"), "F5:D1:88:F6:90:5D");
    assert_eq!(address_from_path("dev_AA_BB"), "AA:BB");
    assert_eq!(address_from_path("/org/bluez/hci0"), "");
    assert_eq!(address_from_path("/org/bluez/hci0/"), "");
    assert_eq!(address_from_path("/org/dev_x/hci0"), "");
    assert_eq!(address_from_path(""), "");
}

fn device(path: &str, name: Option<&str>, paired: bool, address: Option<&str>) -> DeviceEntry {
    DeviceEntry {
        path: path.to_owned(),
        name: name.map(str::to_owned),
        paired,
        address: address.map(str::to_owned),
    }
}

#[test]
fn select_first_paired_r10() {
    let devices = vec![
        device("/a", Some("Approach R10"), false, Some("AA")),
        device("/b", Some("Other"), true, Some("BB")),
        device("/c", None, true, Some("CC")),
        device("/d", Some("Approach R10"), true, None),
        device("/e", Some("Approach R10"), true, Some("EE")),
    ];
    assert_eq!(select_r10(&devices), Some(("/d".to_owned(), String::new())));
    let mut devices = devices;
    let last = devices.split_off(4);
    assert_eq!(select_r10(&last), Some(("/e".to_owned(), "EE".to_owned())));
    devices.truncate(3);
    assert_eq!(select_r10(&devices), None);
    assert_eq!(select_r10(&vec![device("/f", Some("approach r10"), true, None)]), None);
}

fn characteristic(path: &str, uuid: &str) -> CharEntry {
    CharEntry { path: path.to_owned(), uuid: uuid.to_owned() }
}

#[test]
fn select_multilink_characteristics() {
    let dev = "/org/bluez/hci0/dev_F5";
    let chars = vec![
        characteristic("/org/bluez/hci0/dev_F5/service1/char1", "6A4E2810-667B-11E3-949A-0800200C9A66"),
        characteristic("/org/bluez/hci0/dev_F6/service1/char2", "6a4e2820-667b-11e3-949a-0800200c9a66"),
        characteristic("/org/bluez/hci0/dev_F5/service1/char3", "6a4e2820-667b-11e3-949a-0800200c9a66"),
        characteristic("/org/bluez/hci0/dev_F5/service1/char4", "0000180f-0000-1000-8000-00805f9b34fb"),
        characteristic("/org/bluez/hci0/dev_F5/service2/char5", "6a4e2810-667b-11e3-949a-0800200c9a66"),
    ];
    let (p2810, p2820) = select_characteristics(dev, &chars);
    assert_eq!(p2810.as_deref(), Some("/org/bluez/hci0/dev_F5/service2/char5"));
    assert_eq!(p2820.as_deref(), Some("/org/bluez/hci0/dev_F5/service1/char3"));
    let (a, b) = select_characteristics("/org/bluez/hci0/dev_F7", &chars);
    assert!(a.is_none() && b.is_none());
}

// ── FRP plan ──

fn shot(ball: bool, club: bool) -> ShotData {
    ShotData {
        shot_id: 9,
        shot_type: ShotType::Normal,
        ball: ball.then_some(BallData {
            launch_angle: 14.2f32.to_bits(),
            launch_direction: 0,
            ball_speed: 67.0f32.to_bits(),
            spin_axis: 0,
            total_spin: 2800.0f32.to_bits(),
            spin_calc_type: SpinCalcType::Measured,
        }),
        club: club.then_some(ClubData { club_head_speed: 44.0f32.to_bits(), face_angle: 0, path_angle: 0, attack_angle: 0 }),
        swing: None,
    }
}

fn kinds(steps: &[FrpStep]) -> Vec<&'static str> {
    steps
        .iter()
        .map(|s| match s {
            FrpStep::Telemetry { ready: true } => "ready",
            FrpStep::Telemetry { ready: false } => "not_ready",
            FrpStep::ShotTrigger => "trigger",
            FrpStep::BallFlight(_) => "ball",
            FrpStep::ClubPath(_) => "club",
            FrpStep::ShotFinished => "finished",
        })
        .collect()
}

#[test]
fn frp_plan_per_event() {
    let (steps, n) = plan_event(&Event::Ready, 3);
    assert_eq!((kinds(&steps), n), (vec!["ready"], 3));
    let (steps, n) = plan_event(&Event::StateChange(DeviceState::Recording), 3);
    assert_eq!((kinds(&steps), n), (vec!["not_ready"], 3));
    let (steps, n) = plan_event(&Event::Shot(shot(true, true)), 3);
    assert_eq!((kinds(&steps), n), (vec!["not_ready", "trigger", "ball", "club", "finished"], 4));
    let (steps, n) = plan_event(&Event::Shot(shot(false, true)), 0);
    assert_eq!((kinds(&steps), n), (vec!["not_ready", "trigger", "club", "finished"], 1));
    let (steps, n) = plan_event(&Event::Shot(shot(false, false)), 7);
    assert_eq!((kinds(&steps), n), (vec!["not_ready", "trigger", "finished"], 8));
    let (steps, n) = plan_event(&Event::HandshakeComplete, 3);
    assert!(steps.is_empty() && n == 3);
    if let FrpStep::BallFlight(b) = plan_event(&Event::Shot(shot(true, false)), 0).0[2] {
        assert_eq!(f32::from_bits(b.ball_speed), 67.0);
    } else {
        panic!("ball flight expected");
    }
}
