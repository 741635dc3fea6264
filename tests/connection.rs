use lockframe::connection::{
    Connection, ConnectionAction, ConnectionConfig, ConnectionError, ConnectionState,
};
use lockframe::frame::{Frame, FrameHeader, Opcode, HEADER_SIZE, MAGIC, VERSION};
use lockframe::session::{decode_hello_reply, encode_hello_reply};
use lockframe::time::{Duration, Instant};

fn start() -> Instant {
    Instant::from_nanos(5_000_000_000)
}

#[test]
fn connection_lifecycle() {
    let t0 = start();
    let mut conn = Connection::new(t0, ConnectionConfig::default());

    assert_eq!(conn.state(), ConnectionState::Init);
    assert_eq!(conn.session_id(), None);

    let actions = conn.send_hello(t0).unwrap();
    assert_eq!(conn.state(), ConnectionState::Pending);
    assert!(actions.is_empty());

    let actions = conn.receive_hello_reply(12345, t0).unwrap();
    assert_eq!(conn.state(), ConnectionState::Authenticated);
    assert_eq!(conn.session_id(), Some(12345));
    assert!(actions.is_empty());

    conn.close();
    assert_eq!(conn.state(), ConnectionState::Closed);
}

#[test]
fn heartbeat_timing() {
    let t0 = start();
    let config =
        ConnectionConfig { heartbeat_interval: Duration::from_secs(20), ..Default::default() };
    let mut conn = Connection::new(t0, config);

    conn.send_hello(t0).unwrap();
    conn.receive_hello_reply(12345, t0).unwrap();

    let t1 = t0;
    let actions = conn.tick(t1);
    assert_eq!(actions.len(), 1);
    assert!(matches!(actions[0], ConnectionAction::SendFrame(_)));

    let t2 = t1.plus(Duration::from_secs(1));
    let actions = conn.tick(t2);
    assert!(actions.is_empty());

    let t3 = t1.plus(Duration::from_secs(21));
    let actions = conn.tick(t3);
    assert_eq!(actions.len(), 1);
    assert!(matches!(actions[0], ConnectionAction::SendFrame(_)));
}

#[test]
fn handshake_timeout() {
    let t0 = start();
    let config =
        ConnectionConfig { handshake_timeout: Duration::from_secs(30), ..Default::default() };
    let mut conn = Connection::new(t0, config);

    conn.send_hello(t0).unwrap();

    assert!(conn.check_timeout(t0).is_none());

    let t1 = t0.plus(Duration::from_secs(31));
    let elapsed = conn.check_timeout(t1);
    assert!(elapsed.is_some());
    assert!(elapsed.unwrap().as_nanos() > Duration::from_secs(30).as_nanos());

    let actions = conn.tick(t1);
    assert_eq!(actions.len(), 1);
    assert!(matches!(actions[0], ConnectionAction::Close { .. }));
    assert_eq!(conn.state(), ConnectionState::Closed);
}

#[test]
fn idle_timeout() {
    let t0 = start();
    let config =
        ConnectionConfig { idle_timeout: Duration::from_secs(60), ..Default::default() };
    let mut conn = Connection::new(t0, config);

    conn.send_hello(t0).unwrap();
    conn.receive_hello_reply(12345, t0).unwrap();

    assert!(conn.check_timeout(t0).is_none());

    let t1 = t0.plus(Duration::from_secs(61));
    let elapsed = conn.check_timeout(t1);
    assert!(elapsed.is_some());

    let actions = conn.tick(t1);
    assert_eq!(actions.len(), 1);
    assert!(matches!(actions[0], ConnectionAction::Close { .. }));
    assert_eq!(conn.state(), ConnectionState::Closed);
}

#[test]
fn invalid_state_transitions() {
    let t0 = start();
    let mut conn = Connection::new(t0, ConnectionConfig::default());

    let result = conn.receive_hello_reply(12345, t0);
    assert!(matches!(result, Err(ConnectionError::InvalidState { .. })));

    conn.send_hello(t0).unwrap();
    let result = conn.send_hello(t0);
    assert!(matches!(result, Err(ConnectionError::InvalidState { .. })));
}

#[test]
fn handle_pong_updates_activity() {
    let t0 = start();
    let mut conn = Connection::new(t0, ConnectionConfig::default());

    conn.send_hello(t0).unwrap();
    conn.receive_hello_reply(12345, t0).unwrap();

    let mut header_bytes = [0u8; HEADER_SIZE];
    header_bytes[0..4].copy_from_slice(&MAGIC.to_be_bytes());
    header_bytes[4] = VERSION;
    header_bytes[6..8].copy_from_slice(&Opcode::Pong.to_u16().to_be_bytes());
    let pong_header = FrameHeader::from_bytes(&header_bytes).expect("valid pong header");
    let pong_frame = Frame::new(pong_header, Vec::new());

    let t1 = t0.plus(Duration::from_secs(30));
    let actions = conn.handle_frame(&pong_frame, t1).unwrap();
    assert!(actions.is_empty());

    let t2 = t1.plus(Duration::from_secs(40));
    assert!(conn.check_timeout(t2).is_none());
}

#[test]
fn handshake_timeout_closes_with_reason() {
    let t0 = Instant::from_nanos(0);
    let mut conn = Connection::new(t0, ConnectionConfig::default());
    conn.send_hello(t0).unwrap();
    let actions = conn.tick(t0.plus(Duration::from_secs(31)));
    assert_eq!(actions.len(), 1);
    match &actions[0] {
        ConnectionAction::Close { reason } => assert!(reason.starts_with("handshake timeout")),
        other => panic!("unexpected action {:?}", other),
    }
    assert_eq!(conn.state(), ConnectionState::Closed);
}

#[test]
fn idle_timeout_reason_and_exact_boundary() {
    let t0 = Instant::from_nanos(0);
    let mut conn = Connection::new(t0, ConnectionConfig::default());
    conn.send_hello(t0).unwrap();
    conn.receive_hello_reply(7, t0).unwrap();
    // Exactly the timeout is not yet a timeout.
    assert!(conn.check_timeout(t0.plus(Duration::from_secs(60))).is_none());
    let late = t0.plus(Duration::from_secs(60)).plus(Duration::from_nanos(1));
    assert_eq!(conn.check_timeout(late).unwrap().as_nanos(), 60_000_000_001);
    let actions = conn.tick(late);
    match &actions[0] {
        ConnectionAction::Close { reason } => assert_eq!(reason, "idle timeout"),
        other => panic!("unexpected action {:?}", other),
    }
}

#[test]
fn heartbeat_is_a_ping_frame() {
    let t0 = Instant::from_nanos(0);
    let mut conn = Connection::new(t0, ConnectionConfig::default());
    conn.send_hello(t0).unwrap();
    conn.receive_hello_reply(9, t0).unwrap();
    let actions = conn.tick(t0);
    match &actions[0] {
        ConnectionAction::SendFrame(f) => {
            assert_eq!(f.header, FrameHeader::new(Opcode::Ping));
            assert!(f.payload.is_empty());
        },
        other => panic!("unexpected action {:?}", other),
    }
    // Exactly one interval later the next heartbeat is due.
    assert_eq!(conn.tick(t0.plus(Duration::from_secs(20))).len(), 1);
}

#[test]
fn unexpected_frames_are_rejected() {
    let t0 = Instant::from_nanos(0);
    let mut conn = Connection::new(t0, ConnectionConfig::default());
    let ping = Frame::new(FrameHeader::new(Opcode::Ping), Vec::new());
    let result = conn.handle_frame(&ping, t0);
    assert_eq!(
        result,
        Err(ConnectionError::UnexpectedFrame {
            state: ConnectionState::Init,
            opcode: Opcode::Ping.to_u16()
        })
    );
    // A client (no session id) does not answer Hello.
    let hello = Frame::new(FrameHeader::new(Opcode::Hello), Vec::new());
    assert!(conn.handle_frame(&hello, t0).is_err());
}

#[test]
fn server_and_client_complete_handshake_over_frames() {
    let t0 = Instant::from_nanos(0);
    let mut server = Connection::new(t0, ConnectionConfig::default());
    server.set_session_id(0xabcd);
    let mut client = Connection::new(t0, ConnectionConfig::default());
    client.send_hello(t0).unwrap();
    let hello = Frame::new(FrameHeader::new(Opcode::Hello), Vec::new());
    let mut replies = server.handle_frame(&hello, t0).unwrap();
    assert_eq!(server.state(), ConnectionState::Authenticated);
    let reply = match replies.pop() {
        Some(ConnectionAction::SendFrame(f)) => f,
        other => panic!("unexpected action {:?}", other),
    };
    assert_eq!(reply.header.opcode, Opcode::HelloReply);
    assert_eq!(reply.payload, encode_hello_reply(0xabcd));
    assert!(client.handle_frame(&reply, t0).unwrap().is_empty());
    assert_eq!(client.state(), ConnectionState::Authenticated);
    assert_eq!(client.session_id(), Some(0xabcd));
}

#[test]
fn hello_reply_payload_round_trip() {
    let bytes = encode_hello_reply(0x1000_0000_0000_0000);
    assert_eq!(bytes.len(), 21);
    assert_eq!(bytes[0], 0xa1);
    assert_eq!(&bytes[2..12], b"session_id");
    assert_eq!(&bytes[13..21], &0x1000_0000_0000_0000u64.to_be_bytes());
    assert_eq!(decode_hello_reply(&bytes), Some(0x1000_0000_0000_0000));
    let mut bad = bytes.clone();
    bad[5] = b'X';
    assert_eq!(decode_hello_reply(&bad), None);
    assert_eq!(decode_hello_reply(&bytes[..20]), None);
}

#[test]
fn default_config_is_valid() {
    let config = ConnectionConfig::default();
    assert_eq!(config.handshake_timeout, Duration::from_secs(30));
    assert_eq!(config.idle_timeout, Duration::from_secs(60));
    assert_eq!(config.heartbeat_interval, Duration::from_secs(20));
    assert!(config.is_valid());
    let slow = ConnectionConfig { heartbeat_interval: Duration::from_secs(30), ..Default::default() };
    assert!(!slow.is_valid());
    let odd = ConnectionConfig {
        idle_timeout: Duration::from_nanos(5),
        heartbeat_interval: Duration::from_nanos(2),
        ..Default::default()
    };
    assert!(odd.is_valid());
}
