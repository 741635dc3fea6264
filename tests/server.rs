use lockframe::frame::{Frame, FrameHeader, Opcode};
use lockframe::server::{LogLevel, ServerAction, ServerDriver, ServerEvent};
use lockframe::session::decode_hello_reply;
use lockframe::time::Instant;

const ROOM: u128 = 1;

fn frame(op: Opcode, sender_id: u64, payload: &[u8]) -> Frame {
    let mut header = FrameHeader::new(op);
    header.room_id = ROOM;
    header.sender_id = sender_id;
    Frame::new(header, payload.to_vec())
}

fn connect(server: &mut ServerDriver, session_id: u64, sender_id: u64) {
    assert!(server.handle_event(ServerEvent::ConnectionAccepted { session_id }).is_empty());
    let actions = server.handle_event(ServerEvent::FrameReceived {
        session_id,
        frame: frame(Opcode::Hello, sender_id, &[]),
    });
    match &actions[..] {
        [ServerAction::SendToSession { session_id: s, frame }] => {
            assert_eq!(*s, session_id);
            assert_eq!(frame.header.opcode, Opcode::HelloReply);
            assert_eq!(decode_hello_reply(&frame.payload), Some(session_id));
        },
        other => panic!("unexpected actions {:?}", other),
    }
}

fn targets(actions: &[ServerAction]) -> Vec<u64> {
    actions
        .iter()
        .filter_map(|a| match a {
            ServerAction::SendToSession { session_id, .. } => Some(*session_id),
            _ => None,
        })
        .collect()
}

#[test]
fn hello_binds_session_and_replies_with_its_id() {
    let mut server = ServerDriver::new();
    connect(&mut server, 0x1000_0000_0000_0000, 1000);
}

#[test]
fn frames_before_hello_close_the_session() {
    let mut server = ServerDriver::new();
    server.handle_event(ServerEvent::ConnectionAccepted { session_id: 3 });
    let actions = server.handle_event(ServerEvent::FrameReceived {
        session_id: 3,
        frame: frame(Opcode::AppMessage, 1000, b"x"),
    });
    assert_eq!(
        actions,
        vec![ServerAction::CloseSession { session_id: 3, reason: "unauthenticated".to_string() }]
    );
    let actions = server.handle_event(ServerEvent::FrameReceived {
        session_id: 3,
        frame: frame(Opcode::AppMessage, 1000, b"x"),
    });
    assert!(matches!(&actions[..], [ServerAction::Log { level: LogLevel::Warn, .. }]));
}

#[test]
fn bidirectional_routing_with_welcome() {
    let mut server = ServerDriver::new();
    connect(&mut server, 101, 1000);
    connect(&mut server, 102, 2000);
    server.create_room(ROOM, 1000, Instant::from_nanos(0)).unwrap();

    // Bob publishes a key package; Alice fetches it.
    let up = server.handle_event(ServerEvent::FrameReceived {
        session_id: 102,
        frame: frame(Opcode::KeyPackageUpload, 2000, b"bob-kp"),
    });
    assert!(up.is_empty());
    let mut fetch = frame(Opcode::KeyPackageFetch, 1000, &[]);
    fetch.header.recipient_id = 2000;
    let got = server.handle_event(ServerEvent::FrameReceived { session_id: 101, frame: fetch });
    match &got[..] {
        [ServerAction::SendToSession { session_id: 101, frame }] => {
            assert_eq!(frame.payload, b"bob-kp".to_vec())
        },
        other => panic!("unexpected actions {:?}", other),
    }

    // Alice commits and welcomes Bob.
    let commit = server.handle_event(ServerEvent::FrameReceived {
        session_id: 101,
        frame: frame(Opcode::Commit, 1000, b"commit"),
    });
    assert!(targets(&commit).is_empty());
    let mut welcome = frame(Opcode::Welcome, 1000, b"welcome");
    welcome.header.recipient_id = 2000;
    let routed = server.handle_event(ServerEvent::FrameReceived { session_id: 101, frame: welcome });
    assert_eq!(targets(&routed), vec![102]);
    assert!(server.rooms().is_member(ROOM, 2000));
    // Only the commit was persisted, at index 0.
    assert_eq!(server.storage().log_len(ROOM), 1);

    // Alice's message reaches Bob only; Bob's reply reaches Alice only.
    let a = server.handle_event(ServerEvent::FrameReceived {
        session_id: 101,
        frame: frame(Opcode::AppMessage, 1000, b"Hello from Alice!"),
    });
    assert_eq!(targets(&a), vec![102]);
    match &a[0] {
        ServerAction::SendToSession { frame, .. } => {
            assert_eq!(frame.payload, b"Hello from Alice!".to_vec());
            assert_eq!(frame.header.sender_id, 1000);
            assert_eq!(frame.header.log_index, 1);
        },
        other => panic!("unexpected action {:?}", other),
    }
    let b = server.handle_event(ServerEvent::FrameReceived {
        session_id: 102,
        frame: frame(Opcode::AppMessage, 2000, b"Hello from Bob!"),
    });
    assert_eq!(targets(&b), vec![101]);
    assert_eq!(server.storage().log_len(ROOM), 3);
}

#[test]
fn sender_id_comes_from_the_session() {
    let mut server = ServerDriver::new();
    connect(&mut server, 101, 1000);
    connect(&mut server, 102, 2000);
    server.create_room(ROOM, 1000, Instant::from_nanos(0)).unwrap();
    // Session 102 claims to be 1000, but it is bound to 2000, a non-member:
    // the rejection is fatal and closes the session.
    let actions = server.handle_event(ServerEvent::FrameReceived {
        session_id: 102,
        frame: frame(Opcode::AppMessage, 1000, b"spoof"),
    });
    assert_eq!(actions.len(), 2);
    assert!(matches!(actions[0], ServerAction::Log { level: LogLevel::Warn, .. }));
    assert_eq!(
        actions[1],
        ServerAction::CloseSession { session_id: 102, reason: "fatal error".to_string() }
    );
    assert_eq!(server.storage().log_len(ROOM), 0);
}

#[test]
fn ping_goodbye_and_close() {
    let mut server = ServerDriver::new();
    connect(&mut server, 7, 70);
    let pong = server.handle_event(ServerEvent::FrameReceived { session_id: 7, frame: frame(Opcode::Ping, 70, &[]) });
    match &pong[..] {
        [ServerAction::SendToSession { session_id: 7, frame }] => assert_eq!(frame.header.opcode, Opcode::Pong),
        other => panic!("unexpected actions {:?}", other),
    }
    let bye = server.handle_event(ServerEvent::FrameReceived { session_id: 7, frame: frame(Opcode::Goodbye, 70, &[]) });
    assert_eq!(bye, vec![ServerAction::CloseSession { session_id: 7, reason: "goodbye".to_string() }]);
    assert!(server.handle_event(ServerEvent::Tick { now: Instant::from_nanos(10) }).is_empty());
    assert!(server.handle_event(ServerEvent::ConnectionClosed { session_id: 7 }).is_empty());
}

#[test]
fn non_fatal_rejection_keeps_session() {
    let mut server = ServerDriver::new();
    connect(&mut server, 7, 70);
    let actions = server.handle_event(ServerEvent::FrameReceived {
        session_id: 7,
        frame: frame(Opcode::Commit, 70, b"c"),
    });
    assert_eq!(
        actions,
        vec![ServerAction::Log { level: LogLevel::Warn, message: "frame rejected".to_string() }]
    );
    // The session is still bound: a Ping is answered.
    let pong = server.handle_event(ServerEvent::FrameReceived { session_id: 7, frame: frame(Opcode::Ping, 70, &[]) });
    assert_eq!(pong.len(), 1);
}

#[test]
fn goodbye_removes_sender_from_every_room() {
    let mut server = ServerDriver::new();
    connect(&mut server, 101, 1000);
    connect(&mut server, 102, 2000);
    server.create_room(ROOM, 1000, Instant::from_nanos(0)).unwrap();
    server.create_room(2, 2000, Instant::from_nanos(0)).unwrap();
    let mut welcome = frame(Opcode::Welcome, 1000, b"w");
    welcome.header.recipient_id = 2000;
    server.handle_event(ServerEvent::FrameReceived { session_id: 101, frame: welcome });
    assert!(server.rooms().is_member(ROOM, 2000));

    let bye = server.handle_event(ServerEvent::FrameReceived {
        session_id: 102,
        frame: frame(Opcode::Goodbye, 2000, &[]),
    });
    assert_eq!(bye, vec![ServerAction::CloseSession { session_id: 102, reason: "goodbye".to_string() }]);
    assert!(!server.rooms().is_member(ROOM, 2000));
    assert!(server.rooms().is_member(ROOM, 1000));
    // Room 2 had only the leaver: it is gone.
    assert!(!server.rooms().has_room(2));
}
