//! Reference model of the group operations that clients perform: rooms
//! with member sets and epochs, messages waiting for delivery, and the
//! messages each client has received. Implementations are checked against
//! it, step by step.

use vstd::prelude::*;
use crate::error::{spec_is_fatal, spec_is_retryable, ErrorKind};

verus! {

/// Index of a client of the model, from 0.
pub type ClientId = u32;

/// Id of a room of the model.
pub type ModelRoomId = u32;

/// A message body, described by the seed and size class it is made from.
#[derive(Debug, Clone, Copy, PartialEq, Eq, Structural)]
pub struct SmallMessage {
    pub seed: u64,
    pub size_class: u8,
}

/// One step of a model run.
#[derive(Debug, Clone, Copy, PartialEq, Eq, Structural)]
pub enum Operation {
    CreateRoom { client_id: ClientId, room_id: ModelRoomId },
    SendMessage { client_id: ClientId, room_id: ModelRoomId, content: SmallMessage },
    LeaveRoom { client_id: ClientId, room_id: ModelRoomId },
    AddMember { inviter_id: ClientId, invitee_id: ClientId, room_id: ModelRoomId },
    RemoveMember { remover_id: ClientId, target_id: ClientId, room_id: ModelRoomId },
    AdvanceTime { millis: u64 },
    DeliverPending,
}

/// Why an operation failed.
#[derive(Debug, Clone, Copy, PartialEq, Eq, Structural)]
pub enum OperationError {
    InvalidClient,
    RoomNotFound,
    RoomAlreadyExists,
    NotMember,
    AlreadyMember,
    CannotRemoveSelf,
    EpochMismatch { expected: u64, actual: u64 },
}

/// How an error is classified.
#[derive(Debug, Clone, Copy, PartialEq, Eq, Structural)]
pub struct ErrorProperties {
    pub is_fatal: bool,
    pub is_retryable: bool,
}

/// The error kind of an operation error.
pub open spec fn operation_kind(e: OperationError) -> ErrorKind {
    match e {
        OperationError::InvalidClient => ErrorKind::InvalidClient,
        OperationError::RoomNotFound => ErrorKind::RoomNotFound,
        OperationError::RoomAlreadyExists => ErrorKind::RoomAlreadyExists,
        OperationError::NotMember => ErrorKind::NotMember,
        OperationError::AlreadyMember => ErrorKind::AlreadyMember,
        OperationError::CannotRemoveSelf => ErrorKind::CannotRemoveSelf,
        OperationError::EpochMismatch { expected, actual } => ErrorKind::EpochMismatch { expected, actual },
    }
}

impl OperationError {
    /// The error kind.
    pub fn kind(&self) -> (r: ErrorKind)
        ensures
            r == operation_kind(*self),
    {
        match *self {
            OperationError::InvalidClient => ErrorKind::InvalidClient,
            OperationError::RoomNotFound => ErrorKind::RoomNotFound,
            OperationError::RoomAlreadyExists => ErrorKind::RoomAlreadyExists,
            OperationError::NotMember => ErrorKind::NotMember,
            OperationError::AlreadyMember => ErrorKind::AlreadyMember,
            OperationError::CannotRemoveSelf => ErrorKind::CannotRemoveSelf,
            OperationError::EpochMismatch { expected, actual } => ErrorKind::EpochMismatch { expected, actual },
        }
    }

    /// Whether the error is fatal and whether it is retryable.
    pub fn properties(&self) -> (r: ErrorProperties)
        ensures
            r.is_fatal == spec_is_fatal(operation_kind(*self)),
            r.is_retryable == spec_is_retryable(operation_kind(*self)),
    {
        let k = self.kind();
        ErrorProperties { is_fatal: k.is_fatal(), is_retryable: k.is_retryable() }
    }
}

/// The outcome of one operation.
#[derive(Debug, Clone, Copy, PartialEq, Eq, Structural)]
pub enum OperationResult {
    Success,
    Error(OperationError),
}

impl OperationResult {
    /// Whether the operation succeeded.
    pub fn is_ok(&self) -> (r: bool)
        ensures
            r == (*self is Success),
    {
        match self {
            OperationResult::Success => true,
            OperationResult::Error(_) => false,
        }
    }

    /// Whether the operation failed.
    pub fn is_err(&self) -> (r: bool)
        ensures
            r == (*self is Error),
    {
        !self.is_ok()
    }
}

/// A message in flight or received: room, sender and content.
pub type Envelope = (ModelRoomId, ClientId, SmallMessage);

/// A room of the model as contracts see it.
pub struct ModelRoomView {
    pub room_id: ModelRoomId,
    pub members: Set<ClientId>,
    pub epoch: u64,
}

/// The model as contracts see it.
pub struct ModelView {
    pub num_clients: u32,
    pub rooms: Seq<ModelRoomView>,
    pub pending: Seq<Envelope>,
    pub delivered: Seq<Seq<Envelope>>,
}

/// Position of the first room `id` at or after `i`.
pub open spec fn find_room(rooms: Seq<ModelRoomView>, id: ModelRoomId, i: int) -> Option<int>
    decreases rooms.len() - i,
{
    if i < 0 || i >= rooms.len() {
        None
    } else if rooms[i].room_id == id {
        Some(i)
    } else {
        find_room(rooms, id, i + 1)
    }
}

/// The epoch after one more committed change (it stops at the largest).
pub open spec fn next_epoch(e: u64) -> u64 {
    if e < u64::MAX {
        (e + 1) as u64
    } else {
        e
    }
}

/// The messages of `pending` that client `c` receives: those of rooms it
/// is a member of, sent by someone else.
pub open spec fn deliveries(rooms: Seq<ModelRoomView>, pending: Seq<Envelope>, c: ClientId) -> Seq<Envelope>
    decreases pending.len(),
{
    if pending.len() == 0 {
        seq![]
    } else {
        let m = pending.last();
        let rest = deliveries(rooms, pending.drop_last(), c);
        if find_room(rooms, m.0, 0) matches Some(i) && rooms[i].members.contains(c) && m.1 != c {
            rest.push(m)
        } else {
            rest
        }
    }
}

/// What applying `op` to the model does, and its outcome.
pub open spec fn apply_spec(v: ModelView, op: Operation) -> (ModelView, OperationResult) {
    let n = v.num_clients;
    match op {
        Operation::CreateRoom { client_id, room_id } => if client_id >= n {
            (v, OperationResult::Error(OperationError::InvalidClient))
        } else if find_room(v.rooms, room_id, 0) is Some {
            (v, OperationResult::Error(OperationError::RoomAlreadyExists))
        } else {
            (
                ModelView {
                    rooms: v.rooms.push(ModelRoomView { room_id, members: set![client_id], epoch: 0 }),
                    ..v
                },
                OperationResult::Success,
            )
        },
        Operation::SendMessage { client_id, room_id, content } => if client_id >= n {
            (v, OperationResult::Error(OperationError::InvalidClient))
        } else {
            match find_room(v.rooms, room_id, 0) {
                None => (v, OperationResult::Error(OperationError::RoomNotFound)),
                Some(i) => if !v.rooms[i].members.contains(client_id) {
                    (v, OperationResult::Error(OperationError::NotMember))
                } else {
                    (
                        ModelView { pending: v.pending.push((room_id, client_id, content)), ..v },
                        OperationResult::Success,
                    )
                },
            }
        },
        Operation::LeaveRoom { client_id, room_id } => if client_id >= n {
            (v, OperationResult::Error(OperationError::InvalidClient))
        } else {
            match find_room(v.rooms, room_id, 0) {
                None => (v, OperationResult::Error(OperationError::RoomNotFound)),
                Some(i) => if !v.rooms[i].members.contains(client_id) {
                    (v, OperationResult::Error(OperationError::NotMember))
                } else if v.rooms[i].members.remove(client_id) =~= Set::empty() {
                    (ModelView { rooms: v.rooms.remove(i), ..v }, OperationResult::Success)
                } else {
                    (
                        ModelView {
                            rooms: v.rooms.update(
                                i,
                                ModelRoomView {
                                    room_id,
                                    members: v.rooms[i].members.remove(client_id),
                                    epoch: next_epoch(v.rooms[i].epoch),
                                },
                            ),
                            ..v
                        },
                        OperationResult::Success,
                    )
                },
            }
        },
        Operation::AddMember { inviter_id, invitee_id, room_id } => if inviter_id >= n || invitee_id >= n {
            (v, OperationResult::Error(OperationError::InvalidClient))
        } else {
            match find_room(v.rooms, room_id, 0) {
                None => (v, OperationResult::Error(OperationError::RoomNotFound)),
                Some(i) => if v.rooms[i].members.contains(invitee_id) {
                    (v, OperationResult::Error(OperationError::AlreadyMember))
                } else if !v.rooms[i].members.contains(inviter_id) {
                    (v, OperationResult::Error(OperationError::NotMember))
                } else {
                    (
                        ModelView {
                            rooms: v.rooms.update(
                                i,
                                ModelRoomView {
                                    room_id,
                                    members: v.rooms[i].members.insert(invitee_id),
                                    epoch: next_epoch(v.rooms[i].epoch),
                                },
                            ),
                            ..v
                        },
                        OperationResult::Success,
                    )
                },
            }
        },
        Operation::RemoveMember { remover_id, target_id, room_id } => if remover_id >= n || target_id >= n {
            (v, OperationResult::Error(OperationError::InvalidClient))
        } else if remover_id == target_id {
            (v, OperationResult::Error(OperationError::CannotRemoveSelf))
        } else {
            match find_room(v.rooms, room_id, 0) {
                None => (v, OperationResult::Error(OperationError::RoomNotFound)),
                Some(i) => if !v.rooms[i].members.contains(remover_id) || !v.rooms[i].members.contains(
                    target_id,
                ) {
                    (v, OperationResult::Error(OperationError::NotMember))
                } else {
                    (
                        ModelView {
                            rooms: v.rooms.update(
                                i,
                                ModelRoomView {
                                    room_id,
                                    members: v.rooms[i].members.remove(target_id),
                                    epoch: next_epoch(v.rooms[i].epoch),
                                },
                            ),
                            ..v
                        },
                        OperationResult::Success,
                    )
                },
            }
        },
        Operation::AdvanceTime { .. } => (v, OperationResult::Success),
        Operation::DeliverPending => (
            ModelView {
                pending: seq![],
                delivered: Seq::new(v.delivered.len(), |c: int| v.delivered[c] + deliveries(v.rooms, v.pending, c as u32)),
                ..v
            },
            OperationResult::Success,
        ),
    }
}

/// Removing oneself always fails with `CannotRemoveSelf`.
pub proof fn lemma_self_removal_fails(v: ModelView, c: ClientId, room: ModelRoomId)
    requires
        c < v.num_clients,
    ensures
        apply_spec(v, Operation::RemoveMember { remover_id: c, target_id: c, room_id: room }).1
            == OperationResult::Error(OperationError::CannotRemoveSelf),
        apply_spec(v, Operation::RemoveMember { remover_id: c, target_id: c, room_id: room }).0 == v,
{
}

/// Adding a client that is already a member of an existing room always
/// fails with `AlreadyMember`.
pub proof fn lemma_add_existing_member_fails(v: ModelView, inviter: ClientId, invitee: ClientId, room: ModelRoomId)
    requires
        inviter < v.num_clients,
        invitee < v.num_clients,
        find_room(v.rooms, room, 0) matches Some(i) && v.rooms[i].members.contains(invitee),
    ensures
        apply_spec(v, Operation::AddMember { inviter_id: inviter, invitee_id: invitee, room_id: room }).1
            == OperationResult::Error(OperationError::AlreadyMember),
{
}

proof fn lemma_find_room_range(rooms: Seq<ModelRoomView>, id: ModelRoomId, i: int)
    ensures
        find_room(rooms, id, i) matches Some(k) ==> i <= k < rooms.len() && rooms[k].room_id == id,
        0 <= i && find_room(rooms, id, i) is None ==> forall|k: int| i <= k < rooms.len() ==> rooms[k].room_id != id,
    decreases rooms.len() - i,
{
    if 0 <= i < rooms.len() && rooms[i].room_id != id {
        lemma_find_room_range(rooms, id, i + 1);
    }
}

proof fn lemma_find_room_push(rooms: Seq<ModelRoomView>, r: ModelRoomView, id: ModelRoomId, i: int)
    requires
        0 <= i <= rooms.len(),
        find_room(rooms, id, i) is None,
        r.room_id == id,
    ensures
        find_room(rooms.push(r), id, i) == Some(rooms.len() as int),
    decreases rooms.len() - i,
{
    if i < rooms.len() {
        assert(rooms.push(r)[i] == rooms[i]);
        lemma_find_room_push(rooms, r, id, i + 1);
    }
}

/// Creating a room twice with the same id fails the second time.
pub proof fn lemma_model_create_twice_fails(v: ModelView, c1: ClientId, c2: ClientId, room: ModelRoomId)
    requires
        apply_spec(v, Operation::CreateRoom { client_id: c1, room_id: room }).1 is Success,
        c2 < v.num_clients,
    ensures
        apply_spec(
            apply_spec(v, Operation::CreateRoom { client_id: c1, room_id: room }).0,
            Operation::CreateRoom { client_id: c2, room_id: room },
        ).1 == OperationResult::Error(OperationError::RoomAlreadyExists),
{
    lemma_find_room_push(v.rooms, ModelRoomView { room_id: room, members: set![c1], epoch: 0 }, room, 0);
}

/// A valid client's message to an existing room is accepted exactly when
/// the client is a member of it.
pub proof fn lemma_model_send_iff_member(v: ModelView, c: ClientId, room: ModelRoomId, m: SmallMessage)
    requires
        c < v.num_clients,
        find_room(v.rooms, room, 0) is Some,
    ensures
        apply_spec(v, Operation::SendMessage { client_id: c, room_id: room, content: m }).1 is Success
            <==> v.rooms[find_room(v.rooms, room, 0)->Some_0].members.contains(c),
{
}

struct ModelRoom {
    room_id: ModelRoomId,
    members: Vec<ClientId>,
    epoch: u64,
}

spec fn model_room_view(r: ModelRoom) -> ModelRoomView {
    ModelRoomView { room_id: r.room_id, members: r.members@.to_set(), epoch: r.epoch }
}

/// The reference model: `num_clients` clients (ids `0..num_clients`) and
/// their rooms, pending messages and received messages.
pub struct ModelWorld {
    num_clients: u32,
    rooms: Vec<ModelRoom>,
    pending: Vec<Envelope>,
    delivered: Vec<Vec<Envelope>>,
}

impl View for ModelWorld {
    type V = ModelView;

    closed spec fn view(&self) -> ModelView {
        ModelView {
            num_clients: self.num_clients,
            rooms: self.rooms@.map_values(|r: ModelRoom| model_room_view(r)),
            pending: self.pending@,
            delivered: self.delivered@.map_values(|d: Vec<Envelope>| d@),
        }
    }
}

/// The clients of `v` but `x`.
fn clients_without(v: &Vec<ClientId>, x: ClientId) -> (r: Vec<ClientId>)
    ensures
        r@.to_set() == v@.to_set().remove(x),
        r@.len() == 0 <==> v@.to_set().remove(x) =~= Set::empty(),
{
    let mut out: Vec<ClientId> = Vec::new();
    let mut i: usize = 0;
    while i < v.len()
        invariant
            i <= v@.len(),
            forall|p: int| 0 <= p < out@.len() ==> out@[p] != x && v@.subrange(0, i as int).contains(#[trigger] out@[p]),
            forall|k: int| 0 <= k < i && v@[k] != x ==> out@.contains(#[trigger] v@[k]),
        decreases v@.len() - i,
    {
        let ghost prev = out@;
        let y = v[i];
        if y != x {
            out.push(y);
            assert(out@[out@.len() - 1] == y);
        }
        proof {
            assert forall|p: int| 0 <= p < out@.len() implies out@[p] != x && v@.subrange(0, i + 1).contains(#[trigger] out@[p]) by {
                if p < prev.len() {
                    assert(out@[p] == prev[p]);
                    let k = choose|k: int| 0 <= k < i && v@.subrange(0, i as int)[k] == prev[p];
                    assert(v@.subrange(0, i + 1)[k] == prev[p]);
                } else {
                    assert(v@.subrange(0, i + 1)[i as int] == y);
                }
            }
            assert forall|k: int| 0 <= k < i + 1 && v@[k] != x implies out@.contains(#[trigger] v@[k]) by {
                if k < i {
                    let p = choose|p: int| 0 <= p < prev.len() && prev[p] == v@[k];
                    assert(out@[p] == prev[p]);
                } else {
                    assert(out@[out@.len() - 1] == v@[k]);
                }
            }
        }
        i = i + 1;
    }
    proof {
        assert(v@.subrange(0, i as int) =~= v@);
        assert forall|z: ClientId| out@.to_set().contains(z) <==> v@.to_set().remove(x).contains(z) by {
            if out@.contains(z) {
                let p = choose|p: int| 0 <= p < out@.len() && out@[p] == z;
                assert(v@.subrange(0, i as int).contains(out@[p]));
            }
            if v@.contains(z) && z != x {
                let k = choose|k: int| 0 <= k < v@.len() && v@[k] == z;
                assert(out@.contains(v@[k]));
            }
        }
        assert(out@.to_set() =~= v@.to_set().remove(x));
        if out@.len() > 0 {
            assert(out@.to_set().contains(out@[0]));
            assert(v@.to_set().remove(x).contains(out@[0]));
        } else {
            assert forall|z: ClientId| !v@.to_set().remove(x).contains(z) by {
                if v@.to_set().remove(x).contains(z) {
                    assert(out@.to_set().contains(z));
                    assert(out@.contains(z));
                }
            }
            assert(v@.to_set().remove(x) =~= Set::empty());
        }
    }
    out
}

impl ModelWorld {
    /// The model's invariant: one inbox per client.
    pub closed spec fn wf(&self) -> bool {
        self.delivered@.len() == self.num_clients
    }

    /// A model of `num_clients` clients, no rooms and no messages.
    pub fn new(num_clients: u32) -> (r: ModelWorld)
        ensures
            r.wf(),
            r@ == (ModelView {
                num_clients,
                rooms: seq![],
                pending: seq![],
                delivered: Seq::new(num_clients as nat, |c: int| Seq::<Envelope>::empty()),
            }),
    {
        let mut delivered: Vec<Vec<Envelope>> = Vec::new();
        let mut c: u32 = 0;
        while c < num_clients
            invariant
                c <= num_clients,
                delivered@.len() == c,
                forall|k: int| 0 <= k < c ==> (#[trigger] delivered@[k])@ == Seq::<Envelope>::empty(),
            decreases num_clients - c,
        {
            delivered.push(Vec::new());
            c = c + 1;
        }
        let r = ModelWorld { num_clients, rooms: Vec::new(), pending: Vec::new(), delivered };
        assert(r@.rooms =~= seq![]);
        assert(r@.delivered =~= Seq::new(num_clients as nat, |c: int| Seq::<Envelope>::empty()));
        r
    }

    /// Number of messages sent but not yet delivered.
    pub fn pending_count(&self) -> (r: usize)
        ensures
            r == self@.pending.len(),
    {
        self.pending.len()
    }

    /// The messages client `c` has received, in order.
    pub fn messages_of(&self, c: ClientId) -> (r: Vec<Envelope>)
        requires
            self.wf(),
        ensures
            c < self@.num_clients ==> r@ == self@.delivered[c as int],
            c >= self@.num_clients ==> r@.len() == 0,
    {
        let mut out: Vec<Envelope> = Vec::new();
        if c >= self.num_clients {
            return out;
        }
        let inbox = &self.delivered[c as usize];
        let mut k: usize = 0;
        while k < inbox.len()
            invariant
                k <= inbox@.len(),
                out@ == inbox@.subrange(0, k as int),
            decreases inbox@.len() - k,
        {
            out.push(inbox[k]);
            k = k + 1;
            assert(out@ =~= inbox@.subrange(0, k as int));
        }
        assert(inbox@.subrange(0, k as int) =~= inbox@);
        out
    }

    fn find_model_room(&self, id: ModelRoomId) -> (r: Option<usize>)
        ensures
            match r {
                Some(i) => find_room(self@.rooms, id, 0) == Some(i as int) && i < self.rooms@.len(),
                None => find_room(self@.rooms, id, 0) is None,
            },
    {
        let mut i: usize = 0;
        while i < self.rooms.len()
            invariant
                i <= self.rooms@.len(),
                find_room(self@.rooms, id, i as int) == find_room(self@.rooms, id, 0),
            decreases self.rooms@.len() - i,
        {
            if self.rooms[i].room_id == id {
                return Some(i);
            }
            i = i + 1;
        }
        None
    }

    fn has_client(&self, i: usize, c: ClientId) -> (r: bool)
        requires
            i < self.rooms@.len(),
        ensures
            r == self@.rooms[i as int].members.contains(c),
    {
        let members = &self.rooms[i].members;
        let mut k: usize = 0;
        while k < members.len()
            invariant
                k <= members@.len(),
                i < self.rooms@.len(),
                members@ == self.rooms@[i as int].members@,
                forall|a: int| 0 <= a < k ==> members@[a] != c,
            decreases members@.len() - k,
        {
            if members[k] == c {
                assert(members@[k as int] == c);
                assert(self@.rooms[i as int] == model_room_view(self.rooms@[i as int]));
                assert(members@.to_set().contains(c));
                return true;
            }
            k = k + 1;
        }
        assert(self@.rooms[i as int] == model_room_view(self.rooms@[i as int]));
        assert(!members@.to_set().contains(c));
        false
    }

    fn deliveries_for(&self, c: ClientId) -> (r: Vec<Envelope>)
        ensures
            r@ == deliveries(self@.rooms, self@.pending, c),
    {
        let mut out: Vec<Envelope> = Vec::new();
        let mut i: usize = 0;
        while i < self.pending.len()
            invariant
                i <= self.pending@.len(),
                out@ == deliveries(self@.rooms, self@.pending.subrange(0, i as int), c),
            decreases self.pending@.len() - i,
        {
            let m = self.pending[i];
            assert(self@.pending.subrange(0, i + 1).drop_last() =~= self@.pending.subrange(0, i as int));
            assert(self@.pending.subrange(0, i + 1).last() == m);
            proof {
                lemma_find_room_range(self@.rooms, m.0, 0);
            }
            match self.find_model_room(m.0) {
                Some(k) => {
                    if self.has_client(k, c) && m.1 != c {
                        out.push(m);
                    }
                },
                None => {},
            }
            i = i + 1;
        }
        assert(self@.pending.subrange(0, i as int) =~= self@.pending);
        out
    }

    fn deliver(&mut self)
        requires
            old(self).wf(),
        ensures
            final(self).wf(),
            final(self)@ == apply_spec(old(self)@, Operation::DeliverPending).0,
    {
        let ghost old_v = self@;
        let n = self.num_clients;
        let mut c: u32 = 0;
        while c < n
            invariant
                c <= n,
                n == self.num_clients,
                self.wf(),
                self@.rooms == old_v.rooms,
                self@.pending == old_v.pending,
                self@.num_clients == old_v.num_clients,
                self@.delivered.len() == old_v.delivered.len(),
                forall|k: int| 0 <= k < c ==> #[trigger] self@.delivered[k] == old_v.delivered[k] + deliveries(
                    old_v.rooms,
                    old_v.pending,
                    k as u32,
                ),
                forall|k: int| c <= k < self@.delivered.len() ==> #[trigger] self@.delivered[k] == old_v.delivered[k],
            decreases n - c,
        {
            let add = self.deliveries_for(c);
            let mut j: usize = 0;
            while j < add.len()
                invariant
                    j <= add@.len(),
                    c < n,
                    n == self.num_clients,
                    self.wf(),
                    add@ == deliveries(old_v.rooms, old_v.pending, c),
                    self@.rooms == old_v.rooms,
                    self@.pending == old_v.pending,
                    self@.num_clients == old_v.num_clients,
                    self@.delivered.len() == old_v.delivered.len(),
                    forall|k: int| 0 <= k < c ==> #[trigger] self@.delivered[k] == old_v.delivered[k] + deliveries(
                        old_v.rooms,
                        old_v.pending,
                        k as u32,
                    ),
                    forall|k: int| c < k < self@.delivered.len() ==> #[trigger] self@.delivered[k] == old_v.delivered[k],
                    self@.delivered[c as int] == old_v.delivered[c as int] + add@.subrange(0, j as int),
                decreases add@.len() - j,
            {
                let ghost before = self.delivered@;
                let ghost before_v = self@.delivered;
                self.delivered[c as usize].push(add[j]);
                proof {
                    assert forall|k: int| 0 <= k < before.len() && k != c implies #[trigger] self@.delivered[k] == before_v[k] by {
                        assert(self.delivered@[k] == before[k]);
                        assert(self@.delivered[k] == self.delivered@[k]@);
                        assert(before_v[k] == before[k]@);
                    }
                    assert(self@.delivered[c as int] =~= old_v.delivered[c as int] + add@.subrange(0, j + 1));
                    assert(self@.rooms =~= old_v.rooms);
                }
                j = j + 1;
            }
            assert(add@.subrange(0, j as int) =~= add@);
            c = c + 1;
        }
        self.pending.clear();
        proof {
            assert(self@.delivered =~= apply_spec(old_v, Operation::DeliverPending).0.delivered);
            assert(self@.pending =~= Seq::<Envelope>::empty());
        }
    }

    /// Applies one operation; see `apply_spec` for its meaning.
    pub fn apply(&mut self, op: &Operation) -> (r: OperationResult)
        requires
            old(self).wf(),
        ensures
            final(self).wf(),
            (final(self)@, r) == apply_spec(old(self)@, *op),
    {
        let ghost old_v = self@;
        let n = self.num_clients;
        match *op {
            Operation::CreateRoom { client_id, room_id } => {
                if client_id >= n {
                    return OperationResult::Error(OperationError::InvalidClient);
                }
                if self.find_model_room(room_id).is_some() {
                    return OperationResult::Error(OperationError::RoomAlreadyExists);
                }
                let mut members: Vec<ClientId> = Vec::new();
                members.push(client_id);
                self.rooms.push(ModelRoom { room_id, members, epoch: 0 });
                proof {
                    let m = self.rooms@[old_v.rooms.len() as int].members@;
                    assert(m =~= seq![client_id]);
                    assert forall|y: ClientId| m.to_set().contains(y) <==> set![client_id].contains(y) by {
                        if y == client_id {
                            assert(m[0] == client_id);
                        }
                    }
                    assert(m.to_set() =~= set![client_id]);
                    assert(self@.rooms =~= apply_spec(old_v, *op).0.rooms);
                }
                OperationResult::Success
            },
            Operation::SendMessage { client_id, room_id, content } => {
                if client_id >= n {
                    return OperationResult::Error(OperationError::InvalidClient);
                }
                let i = match self.find_model_room(room_id) {
                    Some(i) => i,
                    None => {
                        return OperationResult::Error(OperationError::RoomNotFound);
                    },
                };
                if !self.has_client(i, client_id) {
                    return OperationResult::Error(OperationError::NotMember);
                }
                self.pending.push((room_id, client_id, content));
                OperationResult::Success
            },
            Operation::LeaveRoom { client_id, room_id } => {
                if client_id >= n {
                    return OperationResult::Error(OperationError::InvalidClient);
                }
                let i = match self.find_model_room(room_id) {
                    Some(i) => i,
                    None => {
                        return OperationResult::Error(OperationError::RoomNotFound);
                    },
                };
                proof {
                    lemma_find_room_range(old_v.rooms, room_id, 0);
                }
                if !self.has_client(i, client_id) {
                    return OperationResult::Error(OperationError::NotMember);
                }
                let rest = clients_without(&self.rooms[i].members, client_id);
                assert(old_v.rooms[i as int] == model_room_view(self.rooms@[i as int]));
                if rest.len() == 0 {
                    self.rooms.remove(i);
                    assert(self@.rooms =~= old_v.rooms.remove(i as int));
                } else {
                    let epoch = if self.rooms[i].epoch < u64::MAX {
                        self.rooms[i].epoch + 1
                    } else {
                        self.rooms[i].epoch
                    };
                    self.rooms.set(i, ModelRoom { room_id, members: rest, epoch });
                    assert(self@.rooms =~= apply_spec(old_v, *op).0.rooms);
                }
                OperationResult::Success
            },
            Operation::AddMember { inviter_id, invitee_id, room_id } => {
                if inviter_id >= n || invitee_id >= n {
                    return OperationResult::Error(OperationError::InvalidClient);
                }
                let i = match self.find_model_room(room_id) {
                    Some(i) => i,
                    None => {
                        return OperationResult::Error(OperationError::RoomNotFound);
                    },
                };
                proof {
                    lemma_find_room_range(old_v.rooms, room_id, 0);
                }
                if self.has_client(i, invitee_id) {
                    return OperationResult::Error(OperationError::AlreadyMember);
                }
                if !self.has_client(i, inviter_id) {
                    return OperationResult::Error(OperationError::NotMember);
                }
                let ghost old_members = self.rooms@[i as int].members@;
                assert(old_v.rooms[i as int] == model_room_view(self.rooms@[i as int]));
                let epoch = if self.rooms[i].epoch < u64::MAX {
                    self.rooms[i].epoch + 1
                } else {
                    self.rooms[i].epoch
                };
                self.rooms[i].members.push(invitee_id);
                self.rooms[i].epoch = epoch;
                proof {
                    assert(self.rooms@[i as int].members@ == old_members.push(invitee_id));
                    old_members.lemma_push_to_set_commute(invitee_id);
                    assert(self@.rooms =~= apply_spec(old_v, *op).0.rooms);
                }
                OperationResult::Success
            },
            Operation::RemoveMember { remover_id, target_id, room_id } => {
                if remover_id >= n || target_id >= n {
                    return OperationResult::Error(OperationError::InvalidClient);
                }
                if remover_id == target_id {
                    return OperationResult::Error(OperationError::CannotRemoveSelf);
                }
                let i = match self.find_model_room(room_id) {
                    Some(i) => i,
                    None => {
                        return OperationResult::Error(OperationError::RoomNotFound);
                    },
                };
                proof {
                    lemma_find_room_range(old_v.rooms, room_id, 0);
                }
                if !self.has_client(i, remover_id) || !self.has_client(i, target_id) {
                    return OperationResult::Error(OperationError::NotMember);
                }
                let rest = clients_without(&self.rooms[i].members, target_id);
                assert(old_v.rooms[i as int] == model_room_view(self.rooms@[i as int]));
                let epoch = if self.rooms[i].epoch < u64::MAX {
                    self.rooms[i].epoch + 1
                } else {
                    self.rooms[i].epoch
                };
                self.rooms.set(i, ModelRoom { room_id, members: rest, epoch });
                assert(self@.rooms =~= apply_spec(old_v, *op).0.rooms);
                OperationResult::Success
            },
            Operation::AdvanceTime { .. } => OperationResult::Success,
            Operation::DeliverPending => {
                self.deliver();
                OperationResult::Success
            },
        }
    }
}

} // verus!
