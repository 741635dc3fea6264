//! The routing-only room manager: rooms and their member sets, per-room log
//! sequencing, key-package registry and sync responses. It never reads an
//! encrypted payload.

use vstd::prelude::*;
use crate::frame::{
    be_value, lemma_be_value_bound, lemma_pow256_values, read_be, Frame, FrameHeader, Opcode,
    MAX_PAYLOAD_SIZE,
};
use crate::storage::{frames_view, log_of, sync_window, LogsView, MemoryStorage};
use crate::time::Instant;

verus! {

/// Errors of the room manager.
#[derive(Debug, Clone, Copy, PartialEq, Eq, Structural)]
pub enum RoomError {
    /// No room with this id.
    RoomNotFound(u128),
    /// A room with this id exists already.
    RoomAlreadyExists(u128),
    /// The sender is not a member of the room.
    NotMember { room_id: u128, sender_id: u64 },
    /// The session has not completed its handshake.
    Unauthenticated,
    /// The frame cannot be handled by the room manager.
    InvalidFrame,
    /// The storage refused a write.
    StorageFailure,
}

/// A frame as contracts see it: header and payload bytes.
pub type FrameView = (FrameHeader, Seq<u8>);

/// What the driver is asked to do after a frame was processed.
#[derive(Debug, Clone, PartialEq, Eq)]
pub enum RoomAction {
    /// Append the sequenced frame to the room's log.
    PersistFrame { room_id: u128, log_index: u64, frame: Frame },
    /// Send the frame to every member of the room but the sender.
    Broadcast { room_id: u128, frame: Frame, exclude_sender: u64 },
    /// Send the frame to the sessions of one sender.
    SendToSender { sender_id: u64, frame: Frame },
    /// Answer a sync request.
    SendSyncResponse { sender_id: u64, room_id: u128, frames: Vec<Frame>, has_more: bool },
}

/// An action as contracts see it.
pub enum RoomActionView {
    PersistFrame { room_id: u128, log_index: u64, frame: FrameView },
    Broadcast { room_id: u128, frame: FrameView, exclude_sender: u64 },
    SendToSender { sender_id: u64, frame: FrameView },
    SendSyncResponse { sender_id: u64, room_id: u128, frames: Seq<FrameView>, has_more: bool },
}

impl View for RoomAction {
    type V = RoomActionView;

    open spec fn view(&self) -> RoomActionView {
        match self {
            RoomAction::PersistFrame { room_id, log_index, frame } => RoomActionView::PersistFrame {
                room_id: *room_id,
                log_index: *log_index,
                frame: frame@,
            },
            RoomAction::Broadcast { room_id, frame, exclude_sender } => RoomActionView::Broadcast {
                room_id: *room_id,
                frame: frame@,
                exclude_sender: *exclude_sender,
            },
            RoomAction::SendToSender { sender_id, frame } => RoomActionView::SendToSender {
                sender_id: *sender_id,
                frame: frame@,
            },
            RoomAction::SendSyncResponse { sender_id, room_id, frames, has_more } =>
                RoomActionView::SendSyncResponse {
                sender_id: *sender_id,
                room_id: *room_id,
                frames: frames_view(frames@),
                has_more: *has_more,
            },
        }
    }
}

/// The views of a sequence of actions.
pub open spec fn actions_view(a: Seq<RoomAction>) -> Seq<RoomActionView> {
    a.map_values(|x: RoomAction| x@)
}

/// A room as contracts see it.
pub struct RoomView {
    pub room_id: u128,
    pub creator_id: u64,
    pub members: Set<u64>,
    pub next_log_index: u64,
    pub created_at: Instant,
}

struct Room {
    room_id: u128,
    creator_id: u64,
    members: Vec<u64>,
    next_log_index: u64,
    created_at: Instant,
}

spec fn room_view(r: Room) -> RoomView {
    RoomView {
        room_id: r.room_id,
        creator_id: r.creator_id,
        members: r.members@.to_set(),
        next_log_index: r.next_log_index,
        created_at: r.created_at,
    }
}

struct KeyPackageEntry {
    sender_id: u64,
    blob: Vec<u8>,
}

spec fn package_view(e: KeyPackageEntry) -> (u64, Seq<u8>) {
    (e.sender_id, e.blob@)
}

/// The server's rooms and key-package registry.
pub struct RoomManager {
    rooms: Vec<Room>,
    key_packages: Vec<KeyPackageEntry>,
}

/// The room manager as contracts see it.
pub struct RoomManagerView {
    pub rooms: Seq<RoomView>,
    pub key_packages: Seq<(u64, Seq<u8>)>,
}

impl View for RoomManager {
    type V = RoomManagerView;

    closed spec fn view(&self) -> RoomManagerView {
        RoomManagerView {
            rooms: self.rooms@.map_values(|r: Room| room_view(r)),
            key_packages: self.key_packages@.map_values(|e: KeyPackageEntry| package_view(e)),
        }
    }
}

/// Whether a member set is not empty.
pub open spec fn has_members(m: Set<u64>) -> bool {
    exists|x: u64| m.contains(x)
}

/// Room `r` without `sender` among its members.
pub open spec fn without_sender(r: RoomView, sender: u64) -> RoomView {
    RoomView { members: r.members.remove(sender), ..r }
}

/// The rooms once `sender` has left them all: rooms left without members
/// are dropped, the others keep their order.
pub open spec fn strip_sender(rooms: Seq<RoomView>, sender: u64) -> Seq<RoomView>
    decreases rooms.len(),
{
    if rooms.len() == 0 {
        seq![]
    } else {
        let rest = strip_sender(rooms.drop_last(), sender);
        let r = without_sender(rooms.last(), sender);
        if has_members(r.members) {
            rest.push(r)
        } else {
            rest
        }
    }
}

/// Position of the room `id` in `rooms`, if it is there.
pub open spec fn room_index(rooms: Seq<RoomView>, id: u128) -> Option<int>
    decreases rooms.len(),
{
    if rooms.len() == 0 {
        None
    } else if rooms.last().room_id == id {
        Some(rooms.len() - 1)
    } else {
        room_index(rooms.drop_last(), id)
    }
}

/// Position of the key package of `sender` in `packages`, if it is there.
pub open spec fn package_index(packages: Seq<(u64, Seq<u8>)>, sender: u64) -> Option<int>
    decreases packages.len(),
{
    if packages.len() == 0 {
        None
    } else if packages.last().0 == sender {
        Some(packages.len() - 1)
    } else {
        package_index(packages.drop_last(), sender)
    }
}

impl RoomManagerView {
    /// Room ids and key-package owners are unique, stored key packages fit
    /// in a frame, and no room is without members.
    pub open spec fn wf(self) -> bool {
        &&& forall|a: int, b: int|
            0 <= a < b < self.rooms.len() ==> self.rooms[a].room_id != self.rooms[b].room_id
        &&& forall|a: int, b: int|
            0 <= a < b < self.key_packages.len() ==> self.key_packages[a].0
                != self.key_packages[b].0
        &&& forall|a: int|
            0 <= a < self.key_packages.len() ==> #[trigger] self.key_packages[a].1.len()
                <= MAX_PAYLOAD_SIZE
        &&& forall|a: int| 0 <= a < self.rooms.len() ==> has_members(#[trigger] self.rooms[a].members)
    }

    /// Whether room `id` exists.
    pub open spec fn has_room(self, id: u128) -> bool {
        room_index(self.rooms, id) is Some
    }

    /// Room `id`, where it exists.
    pub open spec fn room(self, id: u128) -> RoomView {
        self.rooms[room_index(self.rooms, id)->Some_0]
    }

    /// Whether `sender` is a member of room `id`.
    pub open spec fn is_member(self, id: u128, sender: u64) -> bool {
        self.has_room(id) && self.room(id).members.contains(sender)
    }

    /// The key package most recently uploaded by `sender`.
    pub open spec fn key_package(self, sender: u64) -> Option<Seq<u8>> {
        match package_index(self.key_packages, sender) {
            Some(i) => Some(self.key_packages[i].1),
            None => None,
        }
    }

    /// The manager with room `id`, which exists, replaced by `r`.
    pub open spec fn with_room(self, id: u128, r: RoomView) -> RoomManagerView {
        RoomManagerView { rooms: self.rooms.update(room_index(self.rooms, id)->Some_0, r), ..self }
    }

    /// The manager with `blob` as the key package of `sender`.
    pub open spec fn with_key_package(self, sender: u64, blob: Seq<u8>) -> RoomManagerView {
        match package_index(self.key_packages, sender) {
            Some(i) => RoomManagerView {
                key_packages: self.key_packages.update(i, (sender, blob)),
                ..self
            },
            None => RoomManagerView { key_packages: self.key_packages.push((sender, blob)), ..self },
        }
    }
}

/// The outcome of creating room `id` with `creator` at `now`.
pub open spec fn create_spec(v: RoomManagerView, id: u128, creator: u64, now: Instant) -> Result<
    RoomManagerView,
    RoomError,
> {
    if v.has_room(id) {
        Err(RoomError::RoomAlreadyExists(id))
    } else {
        Ok(
            RoomManagerView {
                rooms: v.rooms.push(
                    RoomView {
                        room_id: id,
                        creator_id: creator,
                        members: set![creator],
                        next_log_index: 0,
                        created_at: now,
                    },
                ),
                ..v
            },
        )
    }
}

/// The limit of a sync request: its payload is the limit as four
/// big-endian bytes.
pub open spec fn sync_limit(p: Seq<u8>) -> Option<u64> {
    if p.len() == 4 {
        Some(be_value(p) as u64)
    } else {
        None
    }
}

/// The answer to `requester`'s sync of `room` from `from`, at most `limit`
/// frames.
pub open spec fn sync_response(
    room: u128,
    requester: u64,
    from: u64,
    limit: u64,
    logs: LogsView,
) -> RoomActionView {
    RoomActionView::SendSyncResponse {
        sender_id: requester,
        room_id: room,
        frames: sync_window(log_of(logs, room), from as int, limit as int),
        has_more: log_of(logs, room).len() > from + limit,
    }
}

/// The key-package response to a fetch with header `h`: the blob found, or
/// an empty payload.
pub open spec fn key_package_response(h: FrameHeader, found: Option<Seq<u8>>) -> FrameView {
    let blob = match found {
        Some(b) => b,
        None => seq![],
    };
    (FrameHeader { opcode: Opcode::KeyPackageResponse, payload_length: blob.len() as u32, ..h }, blob)
}

/// Whether frames with opcode `op` are sequenced into the room's log.
pub open spec fn is_sequenced(op: Opcode) -> bool {
    op == Opcode::AppMessage || op == Opcode::Proposal || op == Opcode::Commit
}

/// What processing frame `f` does, given the stored logs.
pub open spec fn process_spec(v: RoomManagerView, f: FrameView, logs: LogsView) -> Result<
    (RoomManagerView, Seq<RoomActionView>),
    RoomError,
> {
    let h = f.0;
    let room = h.room_id;
    let sender = h.sender_id;
    if is_sequenced(h.opcode) {
        if !v.has_room(room) {
            Err(RoomError::RoomNotFound(room))
        } else if h.opcode == Opcode::AppMessage && !v.room(room).members.contains(sender) {
            Err(RoomError::NotMember { room_id: room, sender_id: sender })
        } else if v.room(room).next_log_index == u64::MAX {
            Err(RoomError::InvalidFrame)
        } else {
            let i = v.room(room).next_log_index;
            let seq_frame = (FrameHeader { log_index: i, ..h }, f.1);
            Ok(
                (
                    v.with_room(room, RoomView { next_log_index: (i + 1) as u64, ..v.room(room) }),
                    seq![
                        RoomActionView::PersistFrame { room_id: room, log_index: i, frame: seq_frame },
                        RoomActionView::Broadcast {
                            room_id: room,
                            frame: seq_frame,
                            exclude_sender: sender,
                        },
                    ],
                ),
            )
        }
    } else if h.opcode == Opcode::Welcome {
        if !v.has_room(room) {
            Err(RoomError::RoomNotFound(room))
        } else {
            Ok(
                (
                    v.with_room(
                        room,
                        RoomView { members: v.room(room).members.insert(h.recipient_id), ..v.room(room) },
                    ),
                    seq![RoomActionView::SendToSender { sender_id: h.recipient_id, frame: f }],
                ),
            )
        }
    } else if h.opcode == Opcode::KeyPackageUpload {
        Ok((v.with_key_package(sender, f.1), seq![]))
    } else if h.opcode == Opcode::KeyPackageFetch {
        Ok(
            (
                v,
                seq![
                    RoomActionView::SendToSender {
                        sender_id: sender,
                        frame: key_package_response(h, v.key_package(h.recipient_id)),
                    },
                ],
            ),
        )
    } else if h.opcode == Opcode::SyncRequest {
        if !v.has_room(room) {
            Err(RoomError::RoomNotFound(room))
        } else if !v.room(room).members.contains(sender) {
            Err(RoomError::NotMember { room_id: room, sender_id: sender })
        } else {
            match sync_limit(f.1) {
                Some(limit) => Ok((v, seq![sync_response(room, sender, h.log_index, limit, logs)])),
                None => Err(RoomError::InvalidFrame),
            }
        }
    } else {
        Err(RoomError::InvalidFrame)
    }
}

proof fn lemma_room_index_range(rooms: Seq<RoomView>, id: u128)
    ensures
        room_index(rooms, id) matches Some(i) ==> 0 <= i < rooms.len() && rooms[i].room_id == id,
        room_index(rooms, id) is None ==> forall|a: int| 0 <= a < rooms.len() ==> rooms[a].room_id != id,
    decreases rooms.len(),
{
    if rooms.len() > 0 {
        lemma_room_index_range(rooms.drop_last(), id);
        assert(forall|a: int| 0 <= a < rooms.len() - 1 ==> rooms.drop_last()[a] == rooms[a]);
    }
}

proof fn lemma_room_index_found(rooms: Seq<RoomView>, id: u128, i: int)
    requires
        0 <= i < rooms.len(),
        rooms[i].room_id == id,
        forall|a: int, b: int| 0 <= a < b < rooms.len() ==> rooms[a].room_id != rooms[b].room_id,
    ensures
        room_index(rooms, id) == Some(i),
    decreases rooms.len(),
{
    if i < rooms.len() - 1 {
        lemma_room_index_found(rooms.drop_last(), id, i);
    }
}

proof fn lemma_room_index_absent(rooms: Seq<RoomView>, id: u128)
    requires
        forall|a: int| 0 <= a < rooms.len() ==> rooms[a].room_id != id,
    ensures
        room_index(rooms, id) is None,
    decreases rooms.len(),
{
    if rooms.len() > 0 {
        lemma_room_index_absent(rooms.drop_last(), id);
    }
}

proof fn lemma_package_index_range(p: Seq<(u64, Seq<u8>)>, id: u64)
    ensures
        package_index(p, id) matches Some(i) ==> 0 <= i < p.len() && p[i].0 == id,
        package_index(p, id) is None ==> forall|a: int| 0 <= a < p.len() ==> p[a].0 != id,
    decreases p.len(),
{
    if p.len() > 0 {
        lemma_package_index_range(p.drop_last(), id);
        assert(forall|a: int| 0 <= a < p.len() - 1 ==> p.drop_last()[a] == p[a]);
    }
}

proof fn lemma_package_index_found(p: Seq<(u64, Seq<u8>)>, id: u64, i: int)
    requires
        0 <= i < p.len(),
        p[i].0 == id,
        forall|a: int, b: int| 0 <= a < b < p.len() ==> p[a].0 != p[b].0,
    ensures
        package_index(p, id) == Some(i),
    decreases p.len(),
{
    if i < p.len() - 1 {
        lemma_package_index_found(p.drop_last(), id, i);
    }
}

proof fn lemma_package_index_absent(p: Seq<(u64, Seq<u8>)>, id: u64)
    requires
        forall|a: int| 0 <= a < p.len() ==> p[a].0 != id,
    ensures
        package_index(p, id) is None,
    decreases p.len(),
{
    if p.len() > 0 {
        lemma_package_index_absent(p.drop_last(), id);
    }
}

proof fn lemma_strip_ids(rooms: Seq<RoomView>, sender: u64)
    ensures
        forall|k: int|
            0 <= k < strip_sender(rooms, sender).len() ==> exists|j: int|
                0 <= j < rooms.len() && rooms[j].room_id == (#[trigger] strip_sender(rooms, sender)[k]).room_id,
        forall|k: int|
            0 <= k < strip_sender(rooms, sender).len() ==> has_members(
                (#[trigger] strip_sender(rooms, sender)[k]).members,
            ),
        forall|k: int|
            0 <= k < strip_sender(rooms, sender).len() ==> !(#[trigger] strip_sender(rooms, sender)[k]).members.contains(
                sender,
            ),
    decreases rooms.len(),
{
    if rooms.len() > 0 {
        let init = rooms.drop_last();
        lemma_strip_ids(init, sender);
        let rest = strip_sender(init, sender);
        assert forall|k: int| 0 <= k < strip_sender(rooms, sender).len() implies exists|j: int|
            0 <= j < rooms.len() && rooms[j].room_id == (#[trigger] strip_sender(rooms, sender)[k]).room_id by {
            if k < rest.len() {
                let j = choose|j: int| 0 <= j < init.len() && init[j].room_id == (#[trigger] rest[k]).room_id;
                assert(rooms[j] == init[j]);
            } else {
                assert(rooms[rooms.len() - 1].room_id == strip_sender(rooms, sender)[k].room_id);
            }
        }
    }
}

proof fn lemma_strip_unique(rooms: Seq<RoomView>, sender: u64)
    requires
        forall|a: int, b: int| 0 <= a < b < rooms.len() ==> rooms[a].room_id != rooms[b].room_id,
    ensures
        forall|a: int, b: int|
            0 <= a < b < strip_sender(rooms, sender).len() ==> strip_sender(rooms, sender)[a].room_id
                != strip_sender(rooms, sender)[b].room_id,
    decreases rooms.len(),
{
    if rooms.len() > 0 {
        let init = rooms.drop_last();
        lemma_strip_unique(init, sender);
        lemma_strip_ids(init, sender);
        let rest = strip_sender(init, sender);
        assert forall|a: int, b: int| 0 <= a < b < strip_sender(rooms, sender).len() implies strip_sender(rooms, sender)[a].room_id
            != strip_sender(rooms, sender)[b].room_id by {
            if b >= rest.len() {
                let j = choose|j: int| 0 <= j < init.len() && init[j].room_id == (#[trigger] rest[a]).room_id;
                assert(rooms[j] == init[j]);
            }
        }
    }
}

/// The members of `v` but `sender`.
fn members_without(v: &Vec<u64>, sender: u64) -> (r: Vec<u64>)
    ensures
        r@.to_set() == v@.to_set().remove(sender),
        r@.len() > 0 <==> has_members(v@.to_set().remove(sender)),
{
    let mut out: Vec<u64> = Vec::new();
    let mut i: usize = 0;
    while i < v.len()
        invariant
            i <= v@.len(),
            forall|p: int| 0 <= p < out@.len() ==> out@[p] != sender && v@.subrange(0, i as int).contains(#[trigger] out@[p]),
            forall|k: int| 0 <= k < i && v@[k] != sender ==> out@.contains(#[trigger] v@[k]),
        decreases v@.len() - i,
    {
        let ghost prev = out@;
        let x = v[i];
        if x != sender {
            out.push(x);
            assert(out@[out@.len() - 1] == x);
        }
        proof {
            assert forall|p: int| 0 <= p < out@.len() implies out@[p] != sender && v@.subrange(0, i + 1).contains(#[trigger] out@[p]) by {
                if p < prev.len() {
                    assert(out@[p] == prev[p]);
                    let k = choose|k: int| 0 <= k < i && v@.subrange(0, i as int)[k] == prev[p];
                    assert(v@.subrange(0, i + 1)[k] == prev[p]);
                } else {
                    assert(v@.subrange(0, i + 1)[i as int] == x);
                }
            }
            assert forall|k: int| 0 <= k < i + 1 && v@[k] != sender implies out@.contains(#[trigger] v@[k]) by {
                if k < i {
                    let p = choose|p: int| 0 <= p < prev.len() && prev[p] == v@[k];
                    assert(out@[p] == prev[p]);
                } else {
                    assert(out@[out@.len() - 1] == v@[k]);
                }
            }
        }
        i = i + 1;
    }
    proof {
        assert(v@.subrange(0, i as int) =~= v@);
        assert forall|x: u64| out@.to_set().contains(x) <==> v@.to_set().remove(sender).contains(x) by {
            if out@.contains(x) {
                let p = choose|p: int| 0 <= p < out@.len() && out@[p] == x;
                assert(v@.subrange(0, i as int).contains(out@[p]));
            }
            if v@.contains(x) && x != sender {
                let k = choose|k: int| 0 <= k < v@.len() && v@[k] == x;
                assert(out@.contains(v@[k]));
            }
        }
        assert(out@.to_set() =~= v@.to_set().remove(sender));
        if out@.len() > 0 {
            assert(out@.contains(out@[0]));
            assert(out@.to_set().contains(out@[0]));
        } else {
            assert forall|x: u64| !v@.to_set().remove(sender).contains(x) by {
                if v@.to_set().remove(sender).contains(x) {
                    assert(out@.to_set().contains(x));
                    assert(out@.contains(x));
                }
            }
        }
    }
    out
}

impl RoomManager {
    /// A manager with no rooms and no key packages.
    pub fn new() -> (r: RoomManager)
        ensures
            r@.rooms.len() == 0,
            r@.key_packages.len() == 0,
            r@.wf(),
    {
        RoomManager { rooms: Vec::new(), key_packages: Vec::new() }
    }

    fn find_room(&self, id: u128) -> (r: Option<usize>)
        requires
            self@.wf(),
        ensures
            match r {
                Some(i) => room_index(self@.rooms, id) == Some(i as int) && i < self.rooms@.len(),
                None => room_index(self@.rooms, id) is None,
            },
    {
        let mut i: usize = 0;
        while i < self.rooms.len()
            invariant
                i <= self.rooms@.len(),
                self@.wf(),
                forall|a: int| 0 <= a < i ==> self@.rooms[a].room_id != id,
            decreases self.rooms@.len() - i,
        {
            if self.rooms[i].room_id == id {
                proof {
                    lemma_room_index_found(self@.rooms, id, i as int);
                }
                return Some(i);
            }
            i = i + 1;
        }
        proof {
            lemma_room_index_absent(self@.rooms, id);
        }
        None
    }

    fn find_package(&self, sender: u64) -> (r: Option<usize>)
        requires
            self@.wf(),
        ensures
            match r {
                Some(i) => package_index(self@.key_packages, sender) == Some(i as int) && i
                    < self.key_packages@.len(),
                None => package_index(self@.key_packages, sender) is None,
            },
    {
        let mut i: usize = 0;
        while i < self.key_packages.len()
            invariant
                i <= self.key_packages@.len(),
                self@.wf(),
                forall|a: int| 0 <= a < i ==> self@.key_packages[a].0 != sender,
            decreases self.key_packages@.len() - i,
        {
            if self.key_packages[i].sender_id == sender {
                proof {
                    lemma_package_index_found(self@.key_packages, sender, i as int);
                }
                return Some(i);
            }
            i = i + 1;
        }
        proof {
            lemma_package_index_absent(self@.key_packages, sender);
        }
        None
    }

    fn member_at(&self, i: usize, sender: u64) -> (r: bool)
        requires
            i < self.rooms@.len(),
        ensures
            r == self@.rooms[i as int].members.contains(sender),
    {
        let members = &self.rooms[i].members;
        let mut k: usize = 0;
        while k < members.len()
            invariant
                k <= members@.len(),
                i < self.rooms@.len(),
                members@ == self.rooms@[i as int].members@,
                forall|a: int| 0 <= a < k ==> members@[a] != sender,
            decreases members@.len() - k,
        {
            if members[k] == sender {
                assert(members@[k as int] == sender);
                assert(self@.rooms[i as int] == room_view(self.rooms@[i as int]));
                assert(members@.to_set().contains(sender));
                return true;
            }
            k = k + 1;
        }
        assert(self@.rooms[i as int] == room_view(self.rooms@[i as int]));
        assert(!members@.to_set().contains(sender));
        false
    }

    /// Whether room `id` exists.
    pub fn has_room(&self, id: u128) -> (r: bool)
        requires
            self@.wf(),
        ensures
            r == self@.has_room(id),
    {
        self.find_room(id).is_some()
    }

    /// Whether `sender` is a member of room `id`.
    pub fn is_member(&self, id: u128, sender: u64) -> (r: bool)
        requires
            self@.wf(),
        ensures
            r == self@.is_member(id, sender),
    {
        match self.find_room(id) {
            Some(i) => self.member_at(i, sender),
            None => false,
        }
    }

    /// The log index the next sequenced frame of room `id` will get.
    pub fn next_log_index(&self, id: u128) -> (r: Option<u64>)
        requires
            self@.wf(),
        ensures
            r == (if self@.has_room(id) {
                Some(self@.room(id).next_log_index)
            } else {
                None::<u64>
            }),
    {
        match self.find_room(id) {
            Some(i) => Some(self.rooms[i].next_log_index),
            None => None,
        }
    }

    /// Creates room `id` whose only member is `creator`; fails with
    /// `RoomAlreadyExists` if the room exists.
    pub fn create_room(&mut self, id: u128, creator: u64, now: Instant) -> (r: Result<(), RoomError>)
        requires
            old(self)@.wf(),
        ensures
            final(self)@.wf(),
            match create_spec(old(self)@, id, creator, now) {
                Ok(v) => r is Ok && final(self)@ == v,
                Err(e) => r == Err::<(), RoomError>(e) && final(self)@ == old(self)@,
            },
    {
        let ghost old_v = self@;
        if self.find_room(id).is_some() {
            return Err(RoomError::RoomAlreadyExists(id));
        }
        proof {
            lemma_room_index_range(old_v.rooms, id);
        }
        let mut members: Vec<u64> = Vec::new();
        members.push(creator);
        self.rooms.push(
            Room { room_id: id, creator_id: creator, members, next_log_index: 0, created_at: now },
        );
        proof {
            let n = old_v.rooms.len();
            let m = self.rooms@[n as int].members@;
            assert(m =~= seq![creator]);
            assert forall|y: u64| m.to_set().contains(y) <==> set![creator].contains(y) by {
                if y == creator {
                    assert(m[0] == creator);
                }
            }
            assert(m.to_set() =~= set![creator]);
            assert(set![creator].contains(creator));
            assert(self@.rooms =~= create_spec(old_v, id, creator, now)->Ok_0.rooms);
            assert(self@.key_packages =~= old_v.key_packages);
        }
        Ok(())
    }

    /// Removes `sender` from every room; rooms left without members are
    /// dropped.
    pub fn remove_sender(&mut self, sender: u64)
        requires
            old(self)@.wf(),
        ensures
            final(self)@.wf(),
            final(self)@ == (RoomManagerView {
                rooms: strip_sender(old(self)@.rooms, sender),
                ..old(self)@
            }),
    {
        let ghost old_v = self@;
        let mut out: Vec<Room> = Vec::new();
        let mut i: usize = 0;
        while i < self.rooms.len()
            invariant
                i <= self.rooms@.len(),
                self@ == old_v,
                out@.map_values(|r: Room| room_view(r)) == strip_sender(old_v.rooms.subrange(0, i as int), sender),
            decreases self.rooms@.len() - i,
        {
            let ghost prev = out@;
            assert(old_v.rooms.subrange(0, i + 1).drop_last() =~= old_v.rooms.subrange(0, i as int));
            assert(old_v.rooms.subrange(0, i + 1).last() == room_view(self.rooms@[i as int]));
            let r = &self.rooms[i];
            let members = members_without(&r.members, sender);
            if members.len() > 0 {
                let kept = Room {
                    room_id: r.room_id,
                    creator_id: r.creator_id,
                    members,
                    next_log_index: r.next_log_index,
                    created_at: r.created_at,
                };
                out.push(kept);
                assert(out@.map_values(|r: Room| room_view(r)) =~= prev.map_values(|r: Room| room_view(r)).push(
                    without_sender(old_v.rooms[i as int], sender),
                ));
            }
            i = i + 1;
        }
        assert(old_v.rooms.subrange(0, i as int) =~= old_v.rooms);
        self.rooms = out;
        proof {
            lemma_strip_unique(old_v.rooms, sender);
            lemma_strip_ids(old_v.rooms, sender);
            assert(self@.rooms == strip_sender(old_v.rooms, sender));
            assert(self@.key_packages =~= old_v.key_packages);
        }
    }

    /// Answers `requester`'s request for the frames of room `id` from
    /// `from`, at most `limit` of them; fails with `RoomNotFound` if the
    /// room does not exist.
    pub fn handle_sync_request(
        &self,
        room_id: u128,
        requester: u64,
        from: u64,
        limit: u64,
        now: Instant,
        storage: &MemoryStorage,
    ) -> (r: Result<RoomAction, RoomError>)
        requires
            self@.wf(),
            storage.wf(),
        ensures
            !self@.has_room(room_id) ==> r == Err::<RoomAction, RoomError>(
                RoomError::RoomNotFound(room_id),
            ),
            self@.has_room(room_id) ==> (r matches Ok(a) && a@ == sync_response(
                room_id,
                requester,
                from,
                limit,
                storage@,
            )),
    {
        if self.find_room(room_id).is_none() {
            return Err(RoomError::RoomNotFound(room_id));
        }
        let (frames, has_more) = storage.load_frames(room_id, from, limit);
        Ok(RoomAction::SendSyncResponse { sender_id: requester, room_id, frames, has_more })
    }

    /// Processes one frame from an authenticated sender: sequences and
    /// broadcasts application messages, proposals and commits; routes a
    /// Welcome to its recipient and adds the recipient to the room; stores
    /// and serves key packages; answers sync requests of members.
    pub fn process_frame(&mut self, frame: Frame, now: Instant, storage: &MemoryStorage) -> (r: Result<
        Vec<RoomAction>,
        RoomError,
    >)
        requires
            old(self)@.wf(),
            frame.wf(),
            storage.wf(),
        ensures
            final(self)@.wf(),
            match r {
                Ok(a) => process_spec(old(self)@, frame@, storage@) == Ok::<
                    (RoomManagerView, Seq<RoomActionView>),
                    RoomError,
                >((final(self)@, actions_view(a@))),
                Err(e) => process_spec(old(self)@, frame@, storage@) == Err::<
                    (RoomManagerView, Seq<RoomActionView>),
                    RoomError,
                >(e) && final(self)@ == old(self)@,
            },
    {
        let ghost old_v = self@;
        let ghost f = frame@;
        let h = frame.header;
        let room = h.room_id;
        let sender = h.sender_id;
        let op = h.opcode;
        if op == Opcode::AppMessage || op == Opcode::Proposal || op == Opcode::Commit {
            let idx = match self.find_room(room) {
                Some(i) => i,
                None => {
                    return Err(RoomError::RoomNotFound(room));
                },
            };
            proof {
                lemma_room_index_range(old_v.rooms, room);
            }
            if op == Opcode::AppMessage && !self.member_at(idx, sender) {
                return Err(RoomError::NotMember { room_id: room, sender_id: sender });
            }
            let next = self.rooms[idx].next_log_index;
            if next == u64::MAX {
                return Err(RoomError::InvalidFrame);
            }
            self.rooms[idx].next_log_index = next + 1;
            proof {
                assert(self@.rooms =~= old_v.rooms.update(
                    idx as int,
                    RoomView { next_log_index: (next + 1) as u64, ..old_v.rooms[idx as int] },
                ));
                assert(has_members(old_v.rooms[idx as int].members));
                assert(self@.rooms[idx as int].members == old_v.rooms[idx as int].members);
                assert(self@.key_packages =~= old_v.key_packages);
            }
            let sequenced = Frame { header: FrameHeader { log_index: next, ..h }, payload: frame.payload };
            let copy = sequenced.duplicate();
            let mut actions: Vec<RoomAction> = Vec::new();
            actions.push(RoomAction::PersistFrame { room_id: room, log_index: next, frame: sequenced });
            actions.push(RoomAction::Broadcast { room_id: room, frame: copy, exclude_sender: sender });
            proof {
                assert(actions_view(actions@) =~= process_spec(old_v, f, storage@)->Ok_0.1);
            }
            return Ok(actions);
        }
        if op == Opcode::Welcome {
            let idx = match self.find_room(room) {
                Some(i) => i,
                None => {
                    return Err(RoomError::RoomNotFound(room));
                },
            };
            proof {
                lemma_room_index_range(old_v.rooms, room);
            }
            let recipient = h.recipient_id;
            let ghost old_members = self.rooms@[idx as int].members@;
            if !self.member_at(idx, recipient) {
                self.rooms[idx].members.push(recipient);
                proof {
                    assert(self.rooms@[idx as int].members@ == old_members.push(recipient));
                    old_members.lemma_push_to_set_commute(recipient);
                }
            } else {
                assert(old_members.to_set().insert(recipient) =~= old_members.to_set());
            }
            proof {
                assert(self@.rooms =~= old_v.rooms.update(
                    idx as int,
                    RoomView { members: old_v.rooms[idx as int].members.insert(recipient), ..old_v.rooms[idx as int] },
                ));
                assert(self@.rooms[idx as int].members.contains(recipient));
                assert(self@.key_packages =~= old_v.key_packages);
            }
            let mut actions: Vec<RoomAction> = Vec::new();
            actions.push(RoomAction::SendToSender { sender_id: recipient, frame });
            proof {
                assert(actions_view(actions@) =~= process_spec(old_v, f, storage@)->Ok_0.1);
            }
            return Ok(actions);
        }
        if op == Opcode::KeyPackageUpload {
            proof {
                lemma_package_index_range(old_v.key_packages, sender);
            }
            match self.find_package(sender) {
                Some(i) => {
                    self.key_packages[i].blob = frame.payload;
                    proof {
                        assert(self@.key_packages =~= old_v.key_packages.update(i as int, (sender, f.1)));
                    }
                },
                None => {
                    self.key_packages.push(KeyPackageEntry { sender_id: sender, blob: frame.payload });
                    proof {
                        assert(self@.key_packages =~= old_v.key_packages.push((sender, f.1)));
                    }
                },
            }
            proof {
                assert(self@.rooms =~= old_v.rooms);
            }
            let actions: Vec<RoomAction> = Vec::new();
            proof {
                assert(actions_view(actions@) =~= process_spec(old_v, f, storage@)->Ok_0.1);
            }
            return Ok(actions);
        }
        if op == Opcode::KeyPackageFetch {
            proof {
                lemma_package_index_range(old_v.key_packages, h.recipient_id);
            }
            let blob: Vec<u8> = match self.find_package(h.recipient_id) {
                Some(i) => {
                    let b = self.key_packages[i].blob.clone();
                    assert(b@ =~= old_v.key_packages[i as int].1);
                    b
                },
                None => Vec::new(),
            };
            let len = blob.len() as u32;
            let response = Frame {
                header: FrameHeader { opcode: Opcode::KeyPackageResponse, payload_length: len, ..h },
                payload: blob,
            };
            let mut actions: Vec<RoomAction> = Vec::new();
            actions.push(RoomAction::SendToSender { sender_id: sender, frame: response });
            proof {
                assert(actions_view(actions@) =~= process_spec(old_v, f, storage@)->Ok_0.1);
            }
            return Ok(actions);
        }
        if op == Opcode::SyncRequest {
            let idx = match self.find_room(room) {
                Some(i) => i,
                None => {
                    return Err(RoomError::RoomNotFound(room));
                },
            };
            proof {
                lemma_room_index_range(old_v.rooms, room);
            }
            if !self.member_at(idx, sender) {
                return Err(RoomError::NotMember { room_id: room, sender_id: sender });
            }
            if frame.payload.len() != 4 {
                return Err(RoomError::InvalidFrame);
            }
            let limit = read_be(frame.payload.as_slice(), 0, 4);
            proof {
                lemma_pow256_values();
                lemma_be_value_bound(f.1.subrange(0, 4));
                assert(f.1.subrange(0, 4) =~= f.1);
            }
            let action = match self.handle_sync_request(room, sender, h.log_index, limit as u64, now, storage) {
                Ok(a) => a,
                Err(e) => {
                    return Err(e);
                },
            };
            let mut actions: Vec<RoomAction> = Vec::new();
            actions.push(action);
            proof {
                assert(actions_view(actions@) =~= process_spec(old_v, f, storage@)->Ok_0.1);
            }
            return Ok(actions);
        }
        Err(RoomError::InvalidFrame)
    }
}

/// In a newly created room the first sequenced frame gets log index 0.
pub proof fn lemma_first_log_index_is_zero(
    v: RoomManagerView,
    id: u128,
    creator: u64,
    now: Instant,
    f: FrameView,
    logs: LogsView,
)
    requires
        v.wf(),
        create_spec(v, id, creator, now) is Ok,
        is_sequenced(f.0.opcode),
        f.0.room_id == id,
        process_spec(create_spec(v, id, creator, now)->Ok_0, f, logs) is Ok,
    ensures
        process_spec(create_spec(v, id, creator, now)->Ok_0, f, logs)->Ok_0.1[0]
            matches RoomActionView::PersistFrame { log_index, .. } && log_index == 0,
{
    let v1 = create_spec(v, id, creator, now)->Ok_0;
    lemma_room_index_range(v.rooms, id);
    lemma_room_index_found(v1.rooms, id, v.rooms.len() as int);
}

/// Two sequenced frames of one room, processed one after the other, are
/// persisted under consecutive log indices.
pub proof fn lemma_log_indices_consecutive(
    v: RoomManagerView,
    f1: FrameView,
    f2: FrameView,
    logs1: LogsView,
    logs2: LogsView,
)
    requires
        v.wf(),
        is_sequenced(f1.0.opcode),
        is_sequenced(f2.0.opcode),
        f1.0.room_id == f2.0.room_id,
        process_spec(v, f1, logs1) is Ok,
        process_spec(process_spec(v, f1, logs1)->Ok_0.0, f2, logs2) is Ok,
    ensures
        process_spec(v, f1, logs1)->Ok_0.1[0] matches RoomActionView::PersistFrame {
            log_index: i1,
            ..
        } && process_spec(process_spec(v, f1, logs1)->Ok_0.0, f2, logs2)->Ok_0.1[0]
            matches RoomActionView::PersistFrame { log_index: i2, .. } && i2 == i1 + 1,
{
    let room = f1.0.room_id;
    let v1 = process_spec(v, f1, logs1)->Ok_0.0;
    lemma_room_index_range(v.rooms, room);
    let i = room_index(v.rooms, room)->Some_0;
    assert(v1.rooms[i].room_id == room);
    lemma_room_index_found(v1.rooms, room, i);
}

/// An application message is accepted exactly when its sender is a member
/// of the room (given that the room's log is not full).
pub proof fn lemma_send_iff_member(v: RoomManagerView, f: FrameView, logs: LogsView)
    requires
        v.wf(),
        f.0.opcode == Opcode::AppMessage,
        v.has_room(f.0.room_id) ==> v.room(f.0.room_id).next_log_index < u64::MAX,
    ensures
        process_spec(v, f, logs) is Ok <==> v.is_member(f.0.room_id, f.0.sender_id),
{
}

/// A Welcome is routed only to its recipient, and nothing of it is
/// persisted or broadcast; no room's log advances.
pub proof fn lemma_welcome_directed(v: RoomManagerView, f: FrameView, logs: LogsView)
    requires
        v.wf(),
        f.0.opcode == Opcode::Welcome,
        process_spec(v, f, logs) is Ok,
    ensures
        process_spec(v, f, logs)->Ok_0.1 == seq![
            RoomActionView::SendToSender { sender_id: f.0.recipient_id, frame: f },
        ],
        forall|a: int|
            0 <= a < v.rooms.len() ==> #[trigger] process_spec(v, f, logs)->Ok_0.0.rooms[a].next_log_index
                == v.rooms[a].next_log_index,
{
    lemma_room_index_range(v.rooms, f.0.room_id);
}

/// Creating a room a second time with the same id fails.
pub proof fn lemma_create_room_twice_fails(
    v: RoomManagerView,
    id: u128,
    c1: u64,
    t1: Instant,
    c2: u64,
    t2: Instant,
)
    requires
        v.wf(),
        create_spec(v, id, c1, t1) is Ok,
    ensures
        create_spec(create_spec(v, id, c1, t1)->Ok_0, id, c2, t2) == Err::<RoomManagerView, RoomError>(
            RoomError::RoomAlreadyExists(id),
        ),
{
    let v1 = create_spec(v, id, c1, t1)->Ok_0;
    lemma_room_index_range(v.rooms, id);
    lemma_room_index_found(v1.rooms, id, v.rooms.len() as int);
}

/// A sender that has left every room is a member of none, so it cannot
/// send to any room.
pub proof fn lemma_left_sender_is_no_member(v: RoomManagerView, sender: u64, room: u128)
    requires
        v.wf(),
    ensures
        !(RoomManagerView { rooms: strip_sender(v.rooms, sender), ..v }).is_member(room, sender),
{
    let stripped = strip_sender(v.rooms, sender);
    lemma_strip_ids(v.rooms, sender);
    lemma_room_index_range(stripped, room);
}

} // verus!
