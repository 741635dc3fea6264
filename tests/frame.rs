use lockframe::frame::{Frame, FrameHeader, Opcode, ProtocolError, HEADER_SIZE, MAGIC};

fn sample() -> Frame {
    let mut header = FrameHeader::new(Opcode::AppMessage);
    header.flags = 0x5a;
    header.room_id = 0x0102_0304_0506_0708_090a_0b0c_0d0e_0f10;
    header.sender_id = 1000;
    header.epoch = 7;
    header.log_index = 9;
    header.recipient_id = 2000;
    Frame::new(header, b"Hello from Alice!".to_vec())
}

#[test]
fn header_layout_is_big_endian_at_fixed_offsets() {
    let f = sample();
    let bytes = f.encode();
    assert_eq!(bytes.len(), HEADER_SIZE + 17);
    assert_eq!(&bytes[0..4], b"LKFR");
    assert_eq!(bytes[4], 1);
    assert_eq!(bytes[5], 0x5a);
    assert_eq!(&bytes[6..8], &Opcode::AppMessage.to_u16().to_be_bytes());
    assert_eq!(&bytes[8..24], &0x0102_0304_0506_0708_090a_0b0c_0d0e_0f10u128.to_be_bytes());
    assert_eq!(&bytes[24..32], &1000u64.to_be_bytes());
    assert_eq!(&bytes[32..40], &7u64.to_be_bytes());
    assert_eq!(&bytes[40..48], &9u64.to_be_bytes());
    assert_eq!(&bytes[48..56], &2000u64.to_be_bytes());
    assert_eq!(&bytes[56..60], &17u32.to_be_bytes());
    assert!(bytes[60..128].iter().all(|b| *b == 0));
    assert_eq!(&bytes[128..], b"Hello from Alice!");
    assert_eq!(MAGIC, 0x4C4B_4652);
}

#[test]
fn frame_round_trip() {
    let f = sample();
    let mut bytes = f.encode();
    assert_eq!(Frame::decode(&bytes), Ok(f.clone()));
    bytes.extend_from_slice(b"trailing");
    assert_eq!(Frame::decode(&bytes), Ok(f.clone()));
    assert_eq!(FrameHeader::from_bytes(&f.header.to_bytes()), Ok(f.header));
}

#[test]
fn decode_errors() {
    let good = sample().encode();
    assert_eq!(Frame::decode(&good[..127]), Err(ProtocolError::Truncated));
    assert_eq!(Frame::decode(&good[..140]), Err(ProtocolError::Truncated));

    let mut b = good.clone();
    b[0] = b'X';
    assert_eq!(Frame::decode(&b), Err(ProtocolError::InvalidMagic));

    let mut b = good.clone();
    b[4] = 2;
    assert_eq!(Frame::decode(&b), Err(ProtocolError::UnsupportedVersion));

    let mut b = good.clone();
    b[6] = 0x7f;
    assert_eq!(Frame::decode(&b), Err(ProtocolError::InvalidOpcode));

    let mut b = good.clone();
    b[56..60].copy_from_slice(&0x0100_0001u32.to_be_bytes());
    assert_eq!(Frame::decode(&b), Err(ProtocolError::PayloadTooLarge));

    let mut b = good.clone();
    b[100] = 1;
    assert_eq!(Frame::decode(&b), Err(ProtocolError::MalformedHeader));
}

#[test]
fn payload_limit_is_sixteen_mebibytes() {
    let mut b = sample().encode();
    b[56..60].copy_from_slice(&0x0100_0000u32.to_be_bytes());
    // The length is allowed, so only the missing payload is reported.
    assert_eq!(Frame::decode(&b), Err(ProtocolError::Truncated));
}

#[test]
fn opcodes_round_trip() {
    let all = [
        Opcode::Hello,
        Opcode::HelloReply,
        Opcode::Goodbye,
        Opcode::Ping,
        Opcode::Pong,
        Opcode::KeyPackageUpload,
        Opcode::KeyPackageFetch,
        Opcode::KeyPackageResponse,
        Opcode::Proposal,
        Opcode::Commit,
        Opcode::Welcome,
        Opcode::AppMessage,
        Opcode::SyncRequest,
        Opcode::SyncResponse,
    ];
    for op in all {
        assert_eq!(Opcode::from_u16(op.to_u16()), Some(op));
    }
    assert_eq!(Opcode::from_u16(0), None);
}
