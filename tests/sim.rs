use lockframe::frame::{Frame, FrameHeader, Opcode};
use lockframe::sim::{ping_round_trip, SimLink};
use lockframe::time::{Duration, Instant};

#[test]
fn ping_pong_with_packet_loss() {
    // 2% loss, seed 12345, 60 s of virtual time, 10 ms latency.
    let rtt = ping_round_trip(
        Duration::from_millis(10),
        20_000,
        12345,
        Duration::from_secs(60),
        Duration::from_millis(100),
        Duration::from_millis(1),
    );
    let rtt = rtt.expect("simulation should complete despite packet loss");
    assert!(rtt.as_nanos() >= Duration::from_millis(20).as_nanos());
    assert!(rtt.as_nanos() <= Duration::from_secs(60).as_nanos());
}

#[test]
fn ping_pong_with_latency() {
    let rtt = ping_round_trip(
        Duration::from_millis(100),
        0,
        1,
        Duration::from_secs(60),
        Duration::from_secs(1),
        Duration::from_millis(1),
    )
    .expect("simulation should complete with latency");
    assert!(rtt.as_nanos() >= Duration::from_millis(200).as_nanos(), "Round trip too fast: {:?}", rtt);
    assert_eq!(rtt, Duration::from_millis(200));
}

#[test]
fn total_loss_gives_no_pong() {
    let rtt = ping_round_trip(
        Duration::from_millis(5),
        1_000_000,
        7,
        Duration::from_secs(2),
        Duration::from_millis(100),
        Duration::from_millis(1),
    );
    assert_eq!(rtt, None);
}

#[test]
fn link_delivers_after_latency_in_order() {
    let mut link = SimLink::new(Duration::from_millis(100), 0, 42);
    assert!(!link.send(Instant::from_nanos(0), Frame::new(FrameHeader::new(Opcode::Ping), vec![1])));
    assert!(!link.send(Instant::from_nanos(5), Frame::new(FrameHeader::new(Opcode::Ping), vec![2])));
    assert!(link.deliver_due(Instant::from_nanos(99_999_999)).is_empty());
    let first = link.deliver_due(Instant::from_nanos(100_000_000));
    assert_eq!(first.len(), 1);
    assert_eq!(first[0].frame.payload, vec![1]);
    let second = link.deliver_due(Instant::from_nanos(200_000_000));
    assert_eq!(second.len(), 1);
    assert_eq!(second[0].sent_at, Instant::from_nanos(5));
    assert_eq!(link.latency(), Duration::from_millis(100));
}

#[test]
fn lossless_link_loses_nothing_and_keeps_pending_frames() {
    let mut link = SimLink::new(Duration::from_millis(10), 0, 0);
    for t in 0..50u64 {
        assert!(!link.send(Instant::from_nanos(t * 1_000_000), Frame::new(FrameHeader::new(Opcode::Ping), vec![])));
    }
    let due = link.deliver_due(Instant::from_nanos(20_000_000));
    assert_eq!(due.len(), 11);
    let rest = link.deliver_due(Instant::from_nanos(1_000_000_000));
    assert_eq!(rest.len(), 39);
    assert!(link.deliver_due(Instant::from_nanos(2_000_000_000)).is_empty());
}

#[test]
fn lossless_round_trip_is_bounded() {
    let rtt = ping_round_trip(
        Duration::from_nanos(1_000_001),
        0,
        3,
        Duration::from_secs(1),
        Duration::from_millis(50),
        Duration::from_millis(1),
    )
    .unwrap();
    assert_eq!(rtt, Duration::from_millis(4));
}
