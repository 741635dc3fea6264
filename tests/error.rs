use lockframe::error::ErrorKind;
use lockframe::frame::ProtocolError;
use lockframe::room::RoomError;

#[test]
fn error_kind_classification() {
    assert!(ErrorKind::InvalidClient.is_fatal());
    assert!(ErrorKind::NotMember.is_fatal());
    assert!(ErrorKind::CannotRemoveSelf.is_fatal());
    assert!(ErrorKind::DecryptionFailed.is_fatal());
    assert!(ErrorKind::MalformedHeader.is_fatal());

    assert!(!ErrorKind::RoomNotFound.is_fatal());
    assert!(!ErrorKind::RoomAlreadyExists.is_fatal());
    assert!(!ErrorKind::AlreadyMember.is_fatal());

    assert!(ErrorKind::EpochMismatch { expected: 1, actual: 0 }.is_retryable());
    assert!(!ErrorKind::EpochMismatch { expected: 1, actual: 0 }.is_fatal());
    assert!(!ErrorKind::NotMember.is_retryable());
}

#[test]
fn errors_map_to_kinds() {
    assert_eq!(ErrorKind::of_protocol(ProtocolError::Truncated), ErrorKind::MalformedHeader);
    assert_eq!(ErrorKind::of_protocol(ProtocolError::InvalidMagic), ErrorKind::InvalidMagic);
    assert_eq!(ErrorKind::of_room(RoomError::RoomNotFound(5)), ErrorKind::RoomNotFound);
    assert_eq!(
        ErrorKind::of_room(RoomError::NotMember { room_id: 1, sender_id: 2 }),
        ErrorKind::NotMember
    );
    assert!(ErrorKind::of_room(RoomError::StorageFailure).is_retryable());
}
