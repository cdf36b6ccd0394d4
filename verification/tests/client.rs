use std::cell::RefCell;
use std::collections::VecDeque;
use std::io;
use std::rc::Rc;

use tenover::client::{frame_step, prune_shots, Client, Event, Phase, ReadOutcome, Session, Transport};
use tenover::error::Error;
use tenover::gfdi::{build_frame, build_protobuf_request, parse_frame, wrap_cobs, GfdiFrame, StreamBuffer};
use tenover::multilink::chunk_with_handle;
use tenover::proto::DeviceState;

/// Mock transport for testing.
struct MockTransport {
    rx: Rc<RefCell<VecDeque<Vec<u8>>>>,
    tx: Rc<RefCell<Vec<Vec<u8>>>>,
    reg_tx: Rc<RefCell<Vec<Vec<u8>>>>,
}

impl MockTransport {
    fn new() -> Self {
        Self {
            rx: Rc::new(RefCell::new(VecDeque::new())),
            tx: Rc::new(RefCell::new(Vec::new())),
            reg_tx: Rc::new(RefCell::new(Vec::new())),
        }
    }
}

impl Transport for MockTransport {
    fn read(&mut self, buf: &mut [u8]) -> Result<usize, io::Error> {
        match self.rx.borrow_mut().pop_front() {
            Some(data) => {
                let len = data.len().min(buf.len());
                buf[..len].copy_from_slice(&data[..len]);
                Ok(len)
            }
            None => Err(io::Error::from(io::ErrorKind::WouldBlock)),
        }
    }

    fn write(&mut self, data: &[u8]) -> Result<(), io::Error> {
        self.tx.borrow_mut().push(data.to_vec());
        Ok(())
    }

    fn write_register(&mut self, data: &[u8]) -> Result<(), io::Error> {
        self.reg_tx.borrow_mut().push(data.to_vec());
        Ok(())
    }
}

#[test]
fn client_starts_registration() {
    let transport = MockTransport::new();
    let reg_tx = Rc::clone(&transport.reg_tx);
    let mut client = Client::new(transport, 20);
    client.start().unwrap();
    let sent = reg_tx.borrow();
    assert_eq!(sent.len(), 1);
    assert_eq!(sent[0].len(), 13);
    assert_eq!(sent[0][0], 0x00); // reserved
    assert_eq!(sent[0][1], 0x00); // REGISTER command
}

#[test]
fn client_handles_register_response() {
    let transport = MockTransport::new();
    let rx = Rc::clone(&transport.rx);
    let mut client = Client::new(transport, 20);
    client.start().unwrap();

    // Feed register response: success, handle=1
    rx.borrow_mut().push_back(vec![
        0x00, 0x01, 0x01, 0x00, 0x00, 0x00, 0x00, 0x00, 0x00, 0x00, 0x01, 0x00, 0x00, 0x01,
        0x00, 0x00,
    ]);

    let event = client.poll().unwrap();
    assert!(matches!(event, Some(Event::Registered { handle: 1 })));
    assert_eq!(client.phase(), "wait_device_info");
}

// ── Further cases ──

const REGISTER_OK: [u8; 16] = [
    0x00, 0x01, 0x01, 0x00, 0x00, 0x00, 0x00, 0x00, 0x00, 0x00, 0x01, 0x00, 0x00, 0x01, 0x00, 0x00,
];

fn varint(mut v: u64, out: &mut Vec<u8>) {
    while v >= 0x80 {
        out.push((v as u8) | 0x80);
        v >>= 7;
    }
    out.push(v as u8);
}

fn len_field(tag: u32, body: &[u8]) -> Vec<u8> {
    let mut out = Vec::new();
    varint(u64::from(tag) * 8 + 2, &mut out);
    varint(body.len() as u64, &mut out);
    out.extend_from_slice(body);
    out
}

fn varint_field(tag: u32, v: u64) -> Vec<u8> {
    let mut out = Vec::new();
    varint(u64::from(tag) * 8, &mut out);
    varint(v, &mut out);
    out
}

/// Queue a device frame as the notifications that carry it (handle 1, MTU 20).
fn push_frame(rx: &Rc<RefCell<VecDeque<Vec<u8>>>>, frame: &[u8]) {
    for chunk in chunk_with_handle(&wrap_cobs(frame), 0x01, 20) {
        rx.borrow_mut().push_back(chunk);
    }
}

/// Poll until no data is left; collect the events.
fn drain(client: &mut Client<MockTransport>, rx: &Rc<RefCell<VecDeque<Vec<u8>>>>) -> Vec<Event> {
    let mut events = Vec::new();
    loop {
        let empty = rx.borrow().is_empty();
        match client.poll().unwrap() {
            Some(e) => events.push(e),
            None if empty => break,
            None => {}
        }
    }
    events
}

/// The frames the client wrote, reassembled from its chunks.
fn sent_frames(tx: &Rc<RefCell<Vec<Vec<u8>>>>) -> Vec<(u16, Vec<u8>)> {
    let mut buf = StreamBuffer::new();
    for chunk in tx.borrow().iter() {
        assert_eq!(chunk[0], 0x01);
        assert!(chunk.len() <= 20);
        buf.extend(&chunk[1..]).unwrap();
    }
    let mut out = Vec::new();
    while let Some(f) = buf.next_frame() {
        let f = f.unwrap();
        out.push((f.msg_type, f.payload));
    }
    out
}

fn shot_notification(shot_id: u64) -> Vec<u8> {
    let metrics = varint_field(1, shot_id);
    let details = len_field(2, &metrics);
    len_field(30, &len_field(3, &len_field(1001, &details)))
}

fn state_notification(state: u64) -> Vec<u8> {
    let details = len_field(1, &varint_field(1, state));
    len_field(30, &len_field(3, &len_field(1001, &details)))
}

fn registered_client() -> (Client<MockTransport>, Rc<RefCell<VecDeque<Vec<u8>>>>, Rc<RefCell<Vec<Vec<u8>>>>) {
    let transport = MockTransport::new();
    let rx = Rc::clone(&transport.rx);
    let tx = Rc::clone(&transport.tx);
    let mut client = Client::new(transport, 20);
    client.start().unwrap();
    rx.borrow_mut().push_back(REGISTER_OK.to_vec());
    assert!(matches!(client.poll().unwrap(), Some(Event::Registered { handle: 1 })));
    (client, rx, tx)
}

#[test]
fn client_poll_without_data() {
    let transport = MockTransport::new();
    let mut client = Client::new(transport, 20);
    assert!(client.poll().unwrap().is_none());
    assert_eq!(client.phase(), "registering");
}

#[test]
fn client_register_refused() {
    let transport = MockTransport::new();
    let rx = Rc::clone(&transport.rx);
    let mut client = Client::new(transport, 20);
    let mut resp = REGISTER_OK;
    resp[12] = 4; // REJECTED
    rx.borrow_mut().push_back(resp.to_vec());
    assert!(matches!(client.poll(), Err(Error::MultiLinkRegister(4))));
    assert_eq!(client.phase(), "registering");
}

#[test]
fn client_full_handshake() {
    let (mut client, rx, tx) = registered_client();

    // 5024 device info → ACK with host info.
    let mut info = vec![0u8; 12];
    info.extend_from_slice(&[0, 0, 0]);
    push_frame(&rx, &build_frame(5024, &info));
    assert!(drain(&mut client, &rx).is_empty());
    assert_eq!(client.phase(), "wait_capabilities");

    // 5050 capabilities → ACK + host 5050.
    push_frame(&rx, &build_frame(5050, &[1, 0x01]));
    assert!(drain(&mut client, &rx).is_empty());
    assert_eq!(client.phase(), "wait_capabilities_ack");

    // ACK of our 5050 → handshake complete, subscribe sent.
    push_frame(&rx, &build_frame(5000, &[0xBA, 0x13, 0x00]));
    let events = drain(&mut client, &rx);
    assert!(matches!(events.as_slice(), [Event::HandshakeComplete]));
    assert_eq!(client.phase(), "subscribing");

    // Subscribe response → wake-up sent.
    let sub_resp = len_field(30, &len_field(2, &len_field(1, &varint_field(1, 8))));
    push_frame(&rx, &build_protobuf_request(7, &sub_resp));
    let events = drain(&mut client, &rx);
    assert!(matches!(events.as_slice(), [Event::Subscribed { success: true }]));
    assert_eq!(client.phase(), "waking_up");

    // WakeUp response ALREADY_AWAKE → response now, Ready on the next poll.
    let wake_resp = len_field(38, &len_field(4, &varint_field(1, 1)));
    push_frame(&rx, &build_protobuf_request(8, &wake_resp));
    let events = drain(&mut client, &rx);
    assert!(matches!(events.as_slice(), [Event::WakeUpResponse { status: 1 }, Event::Ready]));
    assert_eq!(client.phase(), "active");

    let frames = sent_frames(&tx);
    let types: Vec<u16> = frames.iter().map(|(t, _)| *t).collect();
    // ACK 5024, ACK 5050, host 5050, subscribe, wake-up, ACK of the subscribe
    // response, ACK of the wake-up response.
    assert_eq!(types, vec![5000, 5000, 5050, 5043, 5043, 5000, 5000]);
    assert_eq!(&frames[0].1[..3], &[0xA0, 0x13, 0x00]);
    assert_eq!(&frames[1].1[..], &[0xBA, 0x13, 0x00]);
    assert_eq!(&frames[2].1[..5], &[13, 0x00, 0x00, 0x00, 0x40]);
    assert_eq!(frames[2].1.len(), 14);
    // The subscribe request carries request id 1, the wake-up request id 2.
    assert_eq!(&frames[3].1[..2], &[1, 0]);
    assert_eq!(&frames[4].1[..2], &[2, 0]);
    assert_eq!(&frames[5].1[..], &[0xB3, 0x13, 0x00]);
}

#[test]
fn client_deduplicates_shots_and_states() {
    let (mut client, rx, tx) = registered_client();

    push_frame(&rx, &build_protobuf_request(1, &shot_notification(42)));
    push_frame(&rx, &build_protobuf_request(2, &shot_notification(42)));
    push_frame(&rx, &build_protobuf_request(3, &shot_notification(43)));
    push_frame(&rx, &build_protobuf_request(4, &state_notification(2)));
    push_frame(&rx, &build_protobuf_request(5, &state_notification(2)));
    push_frame(&rx, &build_protobuf_request(6, &state_notification(3)));
    let events = drain(&mut client, &rx);
    let ids: Vec<u32> = events
        .iter()
        .filter_map(|e| match e {
            Event::Shot(s) => Some(s.shot_id),
            _ => None,
        })
        .collect();
    assert_eq!(ids, vec![42, 43]);
    assert_eq!(events.len(), 4);
    assert!(matches!(events[2], Event::Ready));
    assert!(matches!(events[3], Event::StateChange(DeviceState::Recording)));
    // Every protobuf frame was acknowledged, duplicates included.
    let frames = sent_frames(&tx);
    assert_eq!(frames.len(), 6);
    assert!(frames.iter().all(|(t, p)| *t == 5000 && p[..] == [0xB3, 0x13, 0x00]));
}

#[test]
fn client_nak_is_an_error() {
    let (mut client, rx, _tx) = registered_client();
    push_frame(&rx, &build_frame(5000, &[0xBA, 0x13, 0x02]));
    let mut result = client.poll();
    while matches!(result, Ok(None)) {
        result = client.poll();
    }
    assert!(matches!(result, Err(Error::Nak { msg_type: 5050, status: 2 })));
}

#[test]
fn client_bad_crc_is_an_error() {
    let (mut client, rx, _tx) = registered_client();
    let mut frame = build_frame(5024, &[0u8; 15]);
    frame[5] ^= 0x55;
    push_frame(&rx, &frame);
    let mut result = client.poll();
    while matches!(result, Ok(None)) {
        result = client.poll();
    }
    assert!(matches!(result, Err(Error::Crc { .. })));
}

#[test]
fn client_ignores_other_handles() {
    let (mut client, rx, tx) = registered_client();
    for chunk in chunk_with_handle(&wrap_cobs(&build_frame(5024, &[0u8; 15])), 0x02, 20) {
        rx.borrow_mut().push_back(chunk);
    }
    assert!(drain(&mut client, &rx).is_empty());
    assert_eq!(client.phase(), "wait_device_info");
    assert!(tx.borrow().is_empty());
}

#[test]
fn client_acks_fit_messages() {
    let (mut client, rx, tx) = registered_client();
    push_frame(&rx, &build_frame(5011, &[1, 2, 3]));
    assert!(drain(&mut client, &rx).is_empty());
    let frames = sent_frames(&tx);
    assert_eq!(frames.len(), 1);
    let parsed = parse_frame(&build_frame(frames[0].0, &frames[0].1)).unwrap();
    assert_eq!(parsed.payload, vec![0x93, 0x13, 0x00, 0x00]);
}

/// A transport whose reads fail, or whose writes fail.
struct BrokenTransport {
    fail_reads: bool,
    rx: VecDeque<Vec<u8>>,
}

impl Transport for BrokenTransport {
    fn read(&mut self, buf: &mut [u8]) -> Result<usize, io::Error> {
        if self.fail_reads {
            return Err(io::Error::from(io::ErrorKind::ConnectionReset));
        }
        match self.rx.pop_front() {
            Some(data) => {
                buf[..data.len()].copy_from_slice(&data);
                Ok(data.len())
            }
            None => Err(io::Error::from(io::ErrorKind::WouldBlock)),
        }
    }

    fn write(&mut self, _data: &[u8]) -> Result<(), io::Error> {
        Err(io::Error::from(io::ErrorKind::BrokenPipe))
    }

    fn write_register(&mut self, _data: &[u8]) -> Result<(), io::Error> {
        Err(io::Error::from(io::ErrorKind::BrokenPipe))
    }
}

#[test]
fn client_transport_errors() {
    let mut client = Client::new(BrokenTransport { fail_reads: true, rx: VecDeque::new() }, 20);
    match client.start() {
        Err(Error::Transport(e)) => assert_eq!(e.kind(), io::ErrorKind::BrokenPipe),
        other => panic!("unexpected {other:?}"),
    }
    match client.poll() {
        Err(Error::Transport(e)) => assert_eq!(e.kind(), io::ErrorKind::ConnectionReset),
        other => panic!("unexpected {other:?}"),
    }
    assert_eq!(client.phase(), "registering");
    assert!(client.transport().fail_reads);
    client.transport_mut().fail_reads = false;

    // Registered, then a FIT frame whose ACK cannot be written.
    client.transport_mut().rx.push_back(REGISTER_OK.to_vec());
    assert!(matches!(client.poll(), Ok(Some(Event::Registered { handle: 1 }))));
    for chunk in chunk_with_handle(&wrap_cobs(&build_frame(5012, &[1])), 0x01, 20) {
        client.transport_mut().rx.push_back(chunk);
    }
    let mut result = client.poll();
    while matches!(result, Ok(None)) {
        result = client.poll();
    }
    match result {
        Err(Error::Transport(e)) => assert_eq!(e.kind(), io::ErrorKind::BrokenPipe),
        other => panic!("unexpected {other:?}"),
    }
}

#[test]
fn client_protobuf_error() {
    let (mut client, rx, tx) = registered_client();
    // A length-delimited field running past the end of the message.
    push_frame(&rx, &build_protobuf_request(1, &[0xF2, 0x01, 0x05, 0x0A]));
    let mut result = client.poll();
    while matches!(result, Ok(None)) {
        result = client.poll();
    }
    assert!(matches!(result, Err(Error::Protobuf(_))));
    // Nothing was acknowledged.
    assert!(tx.borrow().is_empty());
}

#[test]
fn client_mtu_is_capped() {
    let (mut client, rx, tx) = registered_client();
    push_frame(&rx, &build_frame(5050, &[1, 0xFF]));
    assert!(drain(&mut client, &rx).is_empty());
    assert!(tx.borrow().iter().all(|c| c.len() <= 20));
    let transport = MockTransport::new();
    let tx2 = Rc::clone(&transport.tx);
    let rx2 = Rc::clone(&transport.rx);
    let mut small = Client::new(transport, 5);
    rx2.borrow_mut().push_back(REGISTER_OK.to_vec());
    assert!(small.poll().unwrap().is_some());
    for chunk in chunk_with_handle(&wrap_cobs(&build_frame(5050, &[1, 0xFF])), 0x01, 20) {
        rx2.borrow_mut().push_back(chunk);
    }
    assert!(drain(&mut small, &rx2).is_empty());
    assert!(tx2.borrow().iter().all(|c| c.len() <= 5 && c[0] == 0x01));
}

#[test]
fn frame_step_decisions() {
    let sess = Session {
        handle: 3,
        phase: Phase::WaitCapabilitiesAck,
        req_id_counter: u16::MAX,
        last_state: None,
        pending_event: None,
    };
    let now = std::time::Instant::now();

    // An ACK too short to read is ignored.
    let short = GfdiFrame { msg_type: 5000, txn_id: None, payload: vec![0xBA, 0x13] };
    let d = frame_step(&sess, &short, &Vec::new(), now, &Vec::new()).unwrap();
    assert!(d.frames.is_empty() && d.event.is_none() && d.post.phase == Phase::WaitCapabilitiesAck);

    // The ACK of our 5050 completes the handshake; the request id wraps.
    let ack = GfdiFrame { msg_type: 5000, txn_id: None, payload: vec![0xBA, 0x13, 0x00] };
    let d = frame_step(&sess, &ack, &Vec::new(), now, &Vec::new()).unwrap();
    assert!(matches!(d.event, Some(Event::HandshakeComplete)));
    assert_eq!(d.post.phase, Phase::Subscribing);
    assert_eq!(d.post.req_id_counter, 0);
    assert_eq!(d.frames.len(), 1);
    let req = parse_frame(&d.frames[0]).unwrap();
    assert_eq!(req.msg_type, 5043);
    assert_eq!(&req.payload[..2], &[0xFF, 0xFF]);

    // Unknown message types change nothing.
    let other = GfdiFrame { msg_type: 5100, txn_id: None, payload: vec![1, 2, 3] };
    let d = frame_step(&sess, &other, &Vec::new(), now, &Vec::new()).unwrap();
    assert!(d.frames.is_empty() && d.event.is_none() && d.recent.is_none());

    // A device-info payload too short is refused.
    let info = GfdiFrame { msg_type: 5024, txn_id: None, payload: vec![0; 4] };
    assert!(matches!(
        frame_step(&sess, &info, &Vec::new(), now, &Vec::new()),
        Err(Error::FrameTooShort { len: 4, min: 12 })
    ));

    // Remembered shots older than the window are pruned.
    let recent = vec![(1u32, now), (2u32, now), (3u32, now)];
    let kept = prune_shots(&recent, &vec![0, 60, 59]);
    let ids: Vec<u32> = kept.iter().map(|(id, _)| *id).collect();
    assert_eq!(ids, vec![1, 3]);
}

#[test]
fn client_handle_chunk_directly() {
    let transport = MockTransport::new();
    let tx = Rc::clone(&transport.tx);
    let mut client = Client::new(transport, 20);
    assert!(matches!(client.handle_chunk(&REGISTER_OK), Ok(Some(Event::Registered { handle: 1 }))));
    assert!(client.handle_chunk(&[]).unwrap().is_none());
    let chunks = chunk_with_handle(&wrap_cobs(&build_frame(5011, &[9])), 0x01, 20);
    let mut events = Vec::new();
    for c in &chunks {
        if let Some(e) = client.handle_chunk(c).unwrap() {
            events.push(e);
        }
    }
    assert!(events.is_empty());
    assert_eq!(sent_frames(&tx), vec![(5000, vec![0x93, 0x13, 0x00, 0x00])]);
}

#[test]
fn client_handle_read_outcomes() {
    let transport = MockTransport::new();
    let mut client = Client::new(transport, 20);
    match client.handle_read(ReadOutcome::Failed(io::Error::from(io::ErrorKind::TimedOut))) {
        Err(Error::Transport(e)) => assert_eq!(e.kind(), io::ErrorKind::TimedOut),
        other => panic!("unexpected {other:?}"),
    }
    assert_eq!(client.phase(), "registering");
    assert!(client.handle_read(ReadOutcome::NoData).unwrap().is_none());
    assert!(matches!(
        client.handle_read(ReadOutcome::Data(REGISTER_OK.to_vec())),
        Ok(Some(Event::Registered { handle: 1 }))
    ));
    assert_eq!(client.phase(), "wait_device_info");
}
