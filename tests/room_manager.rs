use lockframe::frame::{Frame, FrameHeader, Opcode};
use lockframe::room::{RoomAction, RoomError, RoomManager};
use lockframe::storage::{MemoryStorage, StorageError};
use lockframe::time::Instant;

fn now() -> Instant {
    Instant::from_nanos(1_000)
}

fn frame(op: Opcode, room_id: u128, sender_id: u64, payload: &[u8]) -> Frame {
    let mut header = FrameHeader::new(op);
    header.room_id = room_id;
    header.sender_id = sender_id;
    header.epoch = 0;
    Frame::new(header, payload.to_vec())
}

const ROOM: u128 = 0x1234_5678_90ab_cdef_1234_5678_90ab_cdef;

#[test]
fn room_manager_new_has_no_rooms() {
    let manager = RoomManager::new();
    assert!(!manager.has_room(0x1234));
}

#[test]
fn create_room_succeeds_for_new_room() {
    let mut manager = RoomManager::new();
    let room_id = 0x1234_5678_90ab_cdef_1234_5678_90ab_cdef;
    let creator = 42;

    let result = manager.create_room(room_id, creator, now());
    assert!(result.is_ok());
    assert!(manager.has_room(room_id));
}

#[test]
fn create_room_rejects_duplicate() {
    let mut manager = RoomManager::new();
    let room_id = 0x1234_5678_90ab_cdef_1234_5678_90ab_cdef;
    let creator = 42;

    manager.create_room(room_id, creator, now()).unwrap();

    let result = manager.create_room(room_id, creator, now());
    assert!(matches!(result, Err(RoomError::RoomAlreadyExists(_))));
}

#[test]
fn create_room_stores_metadata() {
    let mut manager = RoomManager::new();
    let room_id = 0x1234_5678_90ab_cdef_1234_5678_90ab_cdef;
    let creator = 42;

    manager.create_room(room_id, creator, now()).unwrap();

    assert!(manager.has_room(room_id));
    assert!(manager.is_member(room_id, creator));
    assert_eq!(manager.next_log_index(room_id), Some(0));
}

#[test]
fn create_multiple_rooms() {
    let mut manager = RoomManager::new();

    let room1 = 0x1111_1111_1111_1111_1111_1111_1111_1111;
    let room2 = 0x2222_2222_2222_2222_2222_2222_2222_2222;
    let room3 = 0x3333_3333_3333_3333_3333_3333_3333_3333;

    manager.create_room(room1, 1, now()).unwrap();
    manager.create_room(room2, 2, now()).unwrap();
    manager.create_room(room3, 3, now()).unwrap();

    assert!(manager.has_room(room1));
    assert!(manager.has_room(room2));
    assert!(manager.has_room(room3));
}

#[test]
fn process_frame_rejects_unknown_room() {
    let mut manager = RoomManager::new();
    let storage = MemoryStorage::new();

    let f = frame(Opcode::AppMessage, 0x9999_9999_9999_9999_9999_9999_9999_9999, 42, &[]);

    let result = manager.process_frame(f, now(), &storage);
    assert!(matches!(result, Err(RoomError::RoomNotFound(_))));
}

#[test]
fn process_frame_sequences_and_broadcasts() {
    let mut manager = RoomManager::new();
    let storage = MemoryStorage::new();
    manager.create_room(ROOM, 42, now()).unwrap();

    let actions = manager.process_frame(frame(Opcode::AppMessage, ROOM, 42, b"test message"), now(), &storage).unwrap();
    assert_eq!(actions.len(), 2);
    match &actions[0] {
        RoomAction::PersistFrame { room_id, log_index, frame } => {
            assert_eq!(*room_id, ROOM);
            assert_eq!(*log_index, 0);
            assert_eq!(frame.header.log_index, 0);
            assert_eq!(frame.payload, b"test message".to_vec());
        },
        other => panic!("unexpected action {:?}", other),
    }
    match &actions[1] {
        RoomAction::Broadcast { room_id, frame, exclude_sender } => {
            assert_eq!(*room_id, ROOM);
            assert_eq!(*exclude_sender, 42);
            assert_eq!(frame.header.log_index, 0);
        },
        other => panic!("unexpected action {:?}", other),
    }
    assert_eq!(manager.next_log_index(ROOM), Some(1));
}

#[test]
fn process_frame_routes_any_epoch() {
    let mut manager = RoomManager::new();
    let storage = MemoryStorage::new();
    manager.create_room(ROOM, 42, now()).unwrap();

    for epoch in [0, 1, 5, 100] {
        let mut f = frame(Opcode::AppMessage, ROOM, 42, format!("msg at epoch {epoch}").as_bytes());
        f.header.epoch = epoch;
        let result = manager.process_frame(f, now(), &storage);
        assert!(result.is_ok(), "Server should route frame at epoch {epoch}");
    }
}

#[test]
fn log_indices_are_consecutive_from_zero() {
    let mut manager = RoomManager::new();
    let mut storage = MemoryStorage::new();
    manager.create_room(ROOM, 42, now()).unwrap();
    for expected in 0..5u64 {
        let op = if expected % 2 == 0 { Opcode::AppMessage } else { Opcode::Commit };
        let actions = manager.process_frame(frame(op, ROOM, 42, b"x"), now(), &storage).unwrap();
        match &actions[0] {
            RoomAction::PersistFrame { room_id, log_index, frame } => {
                assert_eq!(*log_index, expected);
                storage.store_frame(*room_id, *log_index, frame).unwrap();
            },
            other => panic!("unexpected action {:?}", other),
        }
    }
    assert_eq!(storage.log_len(ROOM), 5);
}

#[test]
fn non_member_cannot_send() {
    let mut manager = RoomManager::new();
    let storage = MemoryStorage::new();
    manager.create_room(ROOM, 42, now()).unwrap();
    let result = manager.process_frame(frame(Opcode::AppMessage, ROOM, 7, b"hi"), now(), &storage);
    assert_eq!(result, Err(RoomError::NotMember { room_id: ROOM, sender_id: 7 }));
    assert_eq!(manager.next_log_index(ROOM), Some(0));
}

#[test]
fn welcome_is_directed_and_adds_member() {
    let mut manager = RoomManager::new();
    let storage = MemoryStorage::new();
    manager.create_room(ROOM, 1000, now()).unwrap();
    let mut w = frame(Opcode::Welcome, ROOM, 1000, b"welcome payload");
    w.header.recipient_id = 2000;
    let actions = manager.process_frame(w.clone(), now(), &storage).unwrap();
    assert_eq!(actions, vec![RoomAction::SendToSender { sender_id: 2000, frame: w }]);
    assert!(manager.is_member(ROOM, 2000));
    assert_eq!(manager.next_log_index(ROOM), Some(0));
    let ok = manager.process_frame(frame(Opcode::AppMessage, ROOM, 2000, b"Hello from Bob!"), now(), &storage);
    assert!(ok.is_ok());
}

#[test]
fn process_commit_routes_without_mls_validation() {
    let mut manager = RoomManager::new();
    let storage = MemoryStorage::new();
    manager.create_room(ROOM, 42, now()).unwrap();

    let result = manager.process_frame(frame(Opcode::Commit, ROOM, 42, b"commit payload"), now(), &storage);
    assert!(result.is_ok(), "Server should route Commit frame");

    let actions = result.unwrap();
    assert!(!actions.is_empty(), "Should produce routing actions");
}

#[test]
fn process_welcome_routes_without_mls_validation() {
    let mut manager = RoomManager::new();
    let storage = MemoryStorage::new();
    manager.create_room(ROOM, 42, now()).unwrap();

    let result = manager.process_frame(frame(Opcode::Welcome, ROOM, 42, b"welcome payload"), now(), &storage);
    assert!(result.is_ok(), "Server should route Welcome frame");
}

#[test]
fn key_packages_are_stored_and_served() {
    let mut manager = RoomManager::new();
    let storage = MemoryStorage::new();
    let upload = frame(Opcode::KeyPackageUpload, 0, 2000, b"kp-1");
    assert!(manager.process_frame(upload, now(), &storage).unwrap().is_empty());
    let upload = frame(Opcode::KeyPackageUpload, 0, 2000, b"kp-2");
    manager.process_frame(upload, now(), &storage).unwrap();

    let mut fetch = frame(Opcode::KeyPackageFetch, 0, 1000, &[]);
    fetch.header.recipient_id = 2000;
    let actions = manager.process_frame(fetch, now(), &storage).unwrap();
    match &actions[..] {
        [RoomAction::SendToSender { sender_id, frame }] => {
            assert_eq!(*sender_id, 1000);
            assert_eq!(frame.header.opcode, Opcode::KeyPackageResponse);
            assert_eq!(frame.payload, b"kp-2".to_vec());
            assert_eq!(frame.header.payload_length, 4);
        },
        other => panic!("unexpected actions {:?}", other),
    }

    let mut missing = frame(Opcode::KeyPackageFetch, 0, 1000, &[]);
    missing.header.recipient_id = 3000;
    let actions = manager.process_frame(missing, now(), &storage).unwrap();
    match &actions[..] {
        [RoomAction::SendToSender { frame, .. }] => assert!(frame.payload.is_empty()),
        other => panic!("unexpected actions {:?}", other),
    }
}

#[test]
fn session_frames_are_not_for_the_room_manager() {
    let mut manager = RoomManager::new();
    let storage = MemoryStorage::new();
    let result = manager.process_frame(frame(Opcode::Ping, 0, 1, &[]), now(), &storage);
    assert_eq!(result, Err(RoomError::InvalidFrame));
}

fn store_ten(storage: &mut MemoryStorage, room_id: u128) {
    for i in 0..10u64 {
        let mut f = frame(Opcode::AppMessage, room_id, 42, format!("message {i}").as_bytes());
        f.header.log_index = i;
        storage.store_frame(room_id, i, &f).unwrap();
    }
}

#[test]
fn handle_sync_request_returns_stored_frames() {
    let mut manager = RoomManager::new();
    let mut storage = MemoryStorage::new();
    let room_id = ROOM;
    let requester = 100;
    manager.create_room(room_id, 42, now()).unwrap();

    for i in 0..5u64 {
        let mut f = frame(Opcode::AppMessage, room_id, 42, format!("message {i}").as_bytes());
        f.header.log_index = i;
        storage.store_frame(room_id, i, &f).unwrap();
    }

    let result = manager.handle_sync_request(room_id, requester, 0, 10, now(), &storage);
    assert!(result.is_ok());

    match result.unwrap() {
        RoomAction::SendSyncResponse { sender_id, room_id: rid, frames, has_more } => {
            assert_eq!(sender_id, requester);
            assert_eq!(rid, room_id);
            assert_eq!(frames.len(), 5);
            assert!(!has_more);
        },
        _ => panic!("Expected SendSyncResponse action"),
    }
}

#[test]
fn handle_sync_request_paginates_with_limit() {
    let mut manager = RoomManager::new();
    let mut storage = MemoryStorage::new();
    manager.create_room(ROOM, 42, now()).unwrap();
    store_ten(&mut storage, ROOM);

    match manager.handle_sync_request(ROOM, 100, 0, 3, now(), &storage).unwrap() {
        RoomAction::SendSyncResponse { frames, has_more, .. } => {
            assert_eq!(frames.len(), 3);
            assert!(has_more, "Should indicate more frames available");
        },
        _ => panic!("Expected SendSyncResponse action"),
    }

    match manager.handle_sync_request(ROOM, 100, 3, 3, now(), &storage).unwrap() {
        RoomAction::SendSyncResponse { frames, has_more, .. } => {
            assert_eq!(frames.len(), 3);
            assert!(has_more, "Should still indicate more frames available");
        },
        _ => panic!("Expected SendSyncResponse action"),
    }
}

#[test]
fn sync_pagination_windows() {
    let mut manager = RoomManager::new();
    let mut storage = MemoryStorage::new();
    manager.create_room(ROOM, 42, now()).unwrap();
    store_ten(&mut storage, ROOM);
    let cases = [(0u64, 3u64, vec![0u64, 1, 2], true), (3, 3, vec![3, 4, 5], true), (9, 10, vec![9], false), (10, 5, vec![], false), (7, 3, vec![7, 8, 9], false)];
    for (from, limit, expected, more) in cases {
        match manager.handle_sync_request(ROOM, 42, from, limit, now(), &storage).unwrap() {
            RoomAction::SendSyncResponse { frames, has_more, .. } => {
                let idx: Vec<u64> = frames.iter().map(|f| f.header.log_index).collect();
                assert_eq!(idx, expected);
                assert_eq!(has_more, more);
            },
            _ => panic!("Expected SendSyncResponse action"),
        }
    }
}

#[test]
fn sync_request_frame_needs_membership() {
    let mut manager = RoomManager::new();
    let mut storage = MemoryStorage::new();
    manager.create_room(ROOM, 42, now()).unwrap();
    store_ten(&mut storage, ROOM);
    let mut req = frame(Opcode::SyncRequest, ROOM, 42, &3u32.to_be_bytes());
    req.header.log_index = 3;
    let actions = manager.process_frame(req.clone(), now(), &storage).unwrap();
    match &actions[..] {
        [RoomAction::SendSyncResponse { sender_id, frames, has_more, .. }] => {
            assert_eq!(*sender_id, 42);
            assert_eq!(frames.len(), 3);
            assert_eq!(frames[0].header.log_index, 3);
            assert!(*has_more);
        },
        other => panic!("unexpected actions {:?}", other),
    }
    req.header.sender_id = 5;
    assert_eq!(
        manager.process_frame(req, now(), &storage),
        Err(RoomError::NotMember { room_id: ROOM, sender_id: 5 })
    );
    let bad = frame(Opcode::SyncRequest, ROOM, 42, &[1, 2]);
    assert_eq!(manager.process_frame(bad, now(), &storage), Err(RoomError::InvalidFrame));
}

#[test]
fn handle_sync_request_unknown_room_fails() {
    let manager = RoomManager::new();
    let storage = MemoryStorage::new();

    let result = manager.handle_sync_request(
        0x9999_9999_9999_9999_9999_9999_9999_9999,
        100,
        0,
        10,
        now(),
        &storage,
    );

    assert!(matches!(result, Err(RoomError::RoomNotFound(_))));
}

#[test]
fn storage_rejects_out_of_order_writes() {
    let mut storage = MemoryStorage::new();
    let mut f = frame(Opcode::AppMessage, ROOM, 1, b"a");
    f.header.log_index = 1;
    assert_eq!(storage.store_frame(ROOM, 1, &f), Err(StorageError::StorageFailure));
    f.header.log_index = 0;
    assert_eq!(storage.store_frame(ROOM, 1, &f), Err(StorageError::StorageFailure));
    assert_eq!(storage.store_frame(ROOM, 0, &f), Ok(()));
    assert_eq!(storage.log_len(ROOM), 1);
    assert_eq!(storage.log_len(ROOM + 1), 0);
    let (frames, more) = storage.load_frames(ROOM, 0, 10);
    assert_eq!(frames, vec![f]);
    assert!(!more);
}

#[test]
fn remove_sender_leaves_every_room() {
    let mut manager = RoomManager::new();
    let storage = MemoryStorage::new();
    manager.create_room(ROOM, 1, now()).unwrap();
    manager.create_room(ROOM + 1, 2, now()).unwrap();
    let mut w = frame(Opcode::Welcome, ROOM, 1, b"w");
    w.header.recipient_id = 2;
    manager.process_frame(w, now(), &storage).unwrap();
    manager.remove_sender(2);
    assert!(manager.has_room(ROOM));
    assert!(!manager.is_member(ROOM, 2));
    assert!(!manager.has_room(ROOM + 1));
    let result = manager.process_frame(frame(Opcode::AppMessage, ROOM, 2, b"late"), now(), &storage);
    assert_eq!(result, Err(RoomError::NotMember { room_id: ROOM, sender_id: 2 }));
}
