use lockframe::model::{ModelWorld, Operation, OperationError, OperationResult, SmallMessage};

#[test]
fn model_basic_operations() {
    let mut model = ModelWorld::new(2);

    let result = model.apply(&Operation::CreateRoom { client_id: 0, room_id: 1 });
    assert!(result.is_ok());

    let result = model.apply(&Operation::SendMessage {
        client_id: 0,
        room_id: 1,
        content: SmallMessage { seed: 42, size_class: 1 },
    });
    assert!(result.is_ok());

    model.apply(&Operation::DeliverPending);

    let result = model.apply(&Operation::SendMessage {
        client_id: 1,
        room_id: 1,
        content: SmallMessage { seed: 43, size_class: 1 },
    });
    assert!(result.is_err());

    let result = model.apply(&Operation::LeaveRoom { client_id: 0, room_id: 1 });
    assert!(result.is_ok());

    let result = model.apply(&Operation::SendMessage {
        client_id: 0,
        room_id: 1,
        content: SmallMessage { seed: 44, size_class: 1 },
    });
    assert!(result.is_err());
}

#[test]
fn model_membership_operations() {
    let mut model = ModelWorld::new(3);

    let result = model.apply(&Operation::CreateRoom { client_id: 0, room_id: 1 });
    assert!(result.is_ok());

    let result = model.apply(&Operation::AddMember { inviter_id: 0, invitee_id: 1, room_id: 1 });
    assert!(result.is_ok());

    let result = model.apply(&Operation::SendMessage {
        client_id: 1,
        room_id: 1,
        content: SmallMessage { seed: 1, size_class: 0 },
    });
    assert!(result.is_ok());

    let result = model.apply(&Operation::RemoveMember { remover_id: 0, target_id: 1, room_id: 1 });
    assert!(result.is_ok());

    let result = model.apply(&Operation::SendMessage {
        client_id: 1,
        room_id: 1,
        content: SmallMessage { seed: 2, size_class: 0 },
    });
    assert!(result.is_err());
}

#[test]
fn model_pending_delivery() {
    let mut model = ModelWorld::new(2);

    model.apply(&Operation::CreateRoom { client_id: 0, room_id: 1 });
    model.apply(&Operation::AddMember { inviter_id: 0, invitee_id: 1, room_id: 1 });
    model.apply(&Operation::SendMessage {
        client_id: 0,
        room_id: 1,
        content: SmallMessage { seed: 42, size_class: 1 },
    });

    assert_eq!(model.pending_count(), 1);

    model.apply(&Operation::DeliverPending);

    assert_eq!(model.pending_count(), 0);

    assert!(!model.messages_of(1).is_empty());
}

#[test]
fn error_properties() {
    assert!(OperationError::InvalidClient.properties().is_fatal);
    assert!(OperationError::NotMember.properties().is_fatal);
    assert!(OperationError::CannotRemoveSelf.properties().is_fatal);

    assert!(!OperationError::RoomNotFound.properties().is_fatal);
    assert!(!OperationError::RoomAlreadyExists.properties().is_fatal);
    assert!(!OperationError::AlreadyMember.properties().is_fatal);

    assert!(OperationError::EpochMismatch { expected: 1, actual: 0 }.properties().is_retryable);
}

#[test]
fn idempotence_rules() {
    let mut model = ModelWorld::new(3);
    assert_eq!(model.apply(&Operation::CreateRoom { client_id: 0, room_id: 9 }), OperationResult::Success);
    assert_eq!(
        model.apply(&Operation::CreateRoom { client_id: 1, room_id: 9 }),
        OperationResult::Error(OperationError::RoomAlreadyExists)
    );
    model.apply(&Operation::AddMember { inviter_id: 0, invitee_id: 1, room_id: 9 });
    assert_eq!(
        model.apply(&Operation::AddMember { inviter_id: 0, invitee_id: 1, room_id: 9 }),
        OperationResult::Error(OperationError::AlreadyMember)
    );
    assert_eq!(
        model.apply(&Operation::RemoveMember { remover_id: 0, target_id: 0, room_id: 9 }),
        OperationResult::Error(OperationError::CannotRemoveSelf)
    );
    assert_eq!(
        model.apply(&Operation::RemoveMember { remover_id: 2, target_id: 2, room_id: 77 }),
        OperationResult::Error(OperationError::CannotRemoveSelf)
    );
    assert_eq!(
        model.apply(&Operation::SendMessage {
            client_id: 5,
            room_id: 9,
            content: SmallMessage { seed: 0, size_class: 0 }
        }),
        OperationResult::Error(OperationError::InvalidClient)
    );
}

#[test]
fn delivery_skips_sender_and_non_members() {
    let mut model = ModelWorld::new(3);
    model.apply(&Operation::CreateRoom { client_id: 0, room_id: 1 });
    model.apply(&Operation::AddMember { inviter_id: 0, invitee_id: 1, room_id: 1 });
    let m = SmallMessage { seed: 7, size_class: 2 };
    model.apply(&Operation::SendMessage { client_id: 1, room_id: 1, content: m });
    model.apply(&Operation::AdvanceTime { millis: 100 });
    model.apply(&Operation::DeliverPending);
    assert_eq!(model.messages_of(0), vec![(1, 1, m)]);
    assert!(model.messages_of(1).is_empty());
    assert!(model.messages_of(2).is_empty());
    assert!(model.messages_of(3).is_empty());
}
