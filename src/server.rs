//! The server driver: a session table above the room manager. It turns
//! transport events into room-manager calls, keeps the room log in its
//! storage, and turns room actions into per-session effects.

use vstd::prelude::*;
use crate::frame::{Frame, FrameHeader, Opcode};
use crate::error::{room_kind, spec_is_fatal, ErrorKind};
use crate::room::{
    actions_view, process_spec, strip_sender, FrameView, RoomAction, RoomActionView, RoomManager,
    RoomManagerView,
};
use crate::session::{encode_hello_reply, hello_reply_bytes};
use crate::storage::{log_of, LogsView, MemoryStorage};
use crate::time::Instant;

verus! {

/// What the transport reports to the server.
#[derive(Debug, Clone, PartialEq, Eq)]
pub enum ServerEvent {
    /// A peer connected; the transport chose the session id.
    ConnectionAccepted { session_id: u64 },
    /// A frame arrived on a session.
    FrameReceived { session_id: u64, frame: Frame },
    /// A session's connection ended.
    ConnectionClosed { session_id: u64 },
    /// Time passed.
    Tick { now: Instant },
}

/// Severity of a log line.
#[derive(Debug, Clone, Copy, PartialEq, Eq, Structural)]
pub enum LogLevel {
    Info,
    Warn,
    Error,
}

/// What the server asks the transport to do.
#[derive(Debug, Clone, PartialEq, Eq)]
pub enum ServerAction {
    /// Write the frame to the session.
    SendToSession { session_id: u64, frame: Frame },
    /// Answer a sync request on the session.
    SendSync { session_id: u64, room_id: u128, frames: Vec<Frame>, has_more: bool },
    /// Close the session.
    CloseSession { session_id: u64, reason: String },
    /// Record a log line.
    Log { level: LogLevel, message: String },
}

/// A server action as contracts see it.
pub enum ServerActionView {
    SendToSession { session_id: u64, frame: FrameView },
    SendSync { session_id: u64, room_id: u128, frames: Seq<FrameView>, has_more: bool },
    CloseSession { session_id: u64, reason: Seq<char> },
    Log { level: LogLevel, message: Seq<char> },
}

impl View for ServerAction {
    type V = ServerActionView;

    open spec fn view(&self) -> ServerActionView {
        match self {
            ServerAction::SendToSession { session_id, frame } => ServerActionView::SendToSession {
                session_id: *session_id,
                frame: frame@,
            },
            ServerAction::SendSync { session_id, room_id, frames, has_more } =>
                ServerActionView::SendSync {
                session_id: *session_id,
                room_id: *room_id,
                frames: crate::storage::frames_view(frames@),
                has_more: *has_more,
            },
            ServerAction::CloseSession { session_id, reason } => ServerActionView::CloseSession {
                session_id: *session_id,
                reason: reason@,
            },
            ServerAction::Log { level, message } => ServerActionView::Log {
                level: *level,
                message: message@,
            },
        }
    }
}

/// The views of a sequence of server actions.
pub open spec fn server_actions_view(a: Seq<ServerAction>) -> Seq<ServerActionView> {
    a.map_values(|x: ServerAction| x@)
}

/// A session table entry: the session id and, once it said Hello, its
/// sender id.
pub type SessionEntry = (u64, Option<u64>);

/// The sessions, in table order, that receive a broadcast to a room with
/// `members`, sent from session `origin`.
pub open spec fn fan_out(sessions: Seq<SessionEntry>, members: Set<u64>, origin: u64) -> Seq<u64>
    decreases sessions.len(),
{
    if sessions.len() == 0 {
        seq![]
    } else {
        let e = sessions.last();
        let rest = fan_out(sessions.drop_last(), members, origin);
        if e.1 matches Some(s) && members.contains(s) && e.0 != origin {
            rest.push(e.0)
        } else {
            rest
        }
    }
}

/// The sessions, in table order, bound to `sender`.
pub open spec fn sessions_of(sessions: Seq<SessionEntry>, sender: u64) -> Seq<u64>
    decreases sessions.len(),
{
    if sessions.len() == 0 {
        seq![]
    } else {
        let e = sessions.last();
        let rest = sessions_of(sessions.drop_last(), sender);
        if e.1 == Some(sender) {
            rest.push(e.0)
        } else {
            rest
        }
    }
}

/// The frame `f` sent to each of `targets`.
pub open spec fn sends(targets: Seq<u64>, f: FrameView) -> Seq<ServerActionView> {
    targets.map_values(|t: u64| ServerActionView::SendToSession { session_id: t, frame: f })
}

/// Whether the storage accepts `f` as entry `index` of the log of `room`.
pub open spec fn persist_ok(logs: LogsView, room: u128, index: u64, f: FrameView) -> bool {
    index == log_of(logs, room).len() && f.0.log_index == index && crate::frame::frame_wf(f)
}

/// The session effects of one room action, given the room state after the
/// frame, the log before the action, and the originating session.
pub open spec fn route(
    sessions: Seq<SessionEntry>,
    rooms: RoomManagerView,
    logs: LogsView,
    origin: u64,
    a: RoomActionView,
) -> Seq<ServerActionView> {
    match a {
        RoomActionView::PersistFrame { room_id, log_index, frame } => if persist_ok(
            logs,
            room_id,
            log_index,
            frame,
        ) {
            seq![]
        } else {
            seq![ServerActionView::Log { level: LogLevel::Error, message: "storage failure"@ }]
        },
        RoomActionView::Broadcast { room_id, frame, .. } => sends(
            fan_out(sessions, Set::new(|s: u64| rooms.is_member(room_id, s)), origin),
            frame,
        ),
        RoomActionView::SendToSender { sender_id, frame } => sends(sessions_of(sessions, sender_id), frame),
        RoomActionView::SendSyncResponse { room_id, frames, has_more, .. } => seq![
            ServerActionView::SendSync { session_id: origin, room_id, frames, has_more },
        ],
    }
}

/// Position of session `id` in the table, if it is there.
pub open spec fn session_index(sessions: Seq<SessionEntry>, id: u64) -> Option<int>
    decreases sessions.len(),
{
    if sessions.len() == 0 {
        None
    } else if sessions.last().0 == id {
        Some(sessions.len() - 1)
    } else {
        session_index(sessions.drop_last(), id)
    }
}

/// The sender bound to session `id`: `None` for an unknown session,
/// `Some(None)` before its Hello.
pub open spec fn session_sender(sessions: Seq<SessionEntry>, id: u64) -> Option<Option<u64>> {
    match session_index(sessions, id) {
        Some(i) => Some(sessions[i].1),
        None => None,
    }
}

/// The table with session `id` bound to `sender` (added if it is new).
pub open spec fn bind(sessions: Seq<SessionEntry>, id: u64, sender: Option<u64>) -> Seq<SessionEntry> {
    match session_index(sessions, id) {
        Some(i) => sessions.update(i, (id, sender)),
        None => sessions.push((id, sender)),
    }
}

/// The table without session `id`.
pub open spec fn unbind(sessions: Seq<SessionEntry>, id: u64) -> Seq<SessionEntry> {
    match session_index(sessions, id) {
        Some(i) => sessions.remove(i),
        None => sessions,
    }
}

struct Session {
    session_id: u64,
    sender_id: Option<u64>,
}

spec fn session_view(s: Session) -> SessionEntry {
    (s.session_id, s.sender_id)
}

/// The server: session table, room manager and frame log.
pub struct ServerDriver {
    sessions: Vec<Session>,
    rooms: RoomManager,
    storage: MemoryStorage,
    now: Instant,
}

/// The server as contracts see it.
pub struct ServerView {
    pub sessions: Seq<SessionEntry>,
    pub rooms: RoomManagerView,
    pub logs: LogsView,
}

impl View for ServerDriver {
    type V = ServerView;

    closed spec fn view(&self) -> ServerView {
        ServerView {
            sessions: self.sessions@.map_values(|s: Session| session_view(s)),
            rooms: self.rooms@,
            logs: self.storage@,
        }
    }
}

impl ServerDriver {
    /// Session ids are unique; the room manager and the storage are well
    /// formed.
    pub closed spec fn wf(&self) -> bool {
        &&& forall|a: int, b: int|
            0 <= a < b < self@.sessions.len() ==> self@.sessions[a].0 != self@.sessions[b].0
        &&& self.rooms@.wf()
        &&& self.storage.wf()
    }
}

/// The session effects of a sequence of room actions, in order.
pub open spec fn routed(
    sessions: Seq<SessionEntry>,
    rooms: RoomManagerView,
    logs: LogsView,
    origin: u64,
    acts: Seq<RoomActionView>,
) -> Seq<ServerActionView>
    decreases acts.len(),
{
    if acts.len() == 0 {
        seq![]
    } else {
        routed(sessions, rooms, logs, origin, acts.drop_last()) + route(
            sessions,
            rooms,
            logs,
            origin,
            acts.last(),
        )
    }
}

/// The log of `room` after the room actions `acts`: a persisted frame is
/// appended where the storage accepts it.
pub open spec fn log_after(logs: LogsView, acts: Seq<RoomActionView>, room: u128) -> Seq<FrameView> {
    if acts.len() == 0 {
        log_of(logs, room)
    } else {
        match acts[0] {
            RoomActionView::PersistFrame { room_id, log_index, frame } => if room_id == room
                && persist_ok(logs, room_id, log_index, frame) {
                log_of(logs, room).push(frame)
            } else {
                log_of(logs, room)
            },
            _ => log_of(logs, room),
        }
    }
}

/// The HelloReply frame for session `id`.
pub open spec fn hello_reply_frame(id: u64) -> FrameView {
    (
        FrameHeader { opcode: Opcode::HelloReply, payload_length: 21, ..FrameHeader::spec_new(Opcode::HelloReply) },
        hello_reply_bytes(id),
    )
}

/// What a frame `f` on session `sid` does to the session table and the
/// rooms, and the actions it yields; room actions are routed by `routed`.
pub open spec fn frame_step(v: ServerView, sid: u64, f: FrameView) -> (
    Seq<SessionEntry>,
    RoomManagerView,
    Seq<ServerActionView>,
) {
    match session_sender(v.sessions, sid) {
        None => (v.sessions, v.rooms, seq![ServerActionView::Log { level: LogLevel::Warn, message: "unknown session"@ }]),
        Some(bound) => if !crate::frame::frame_wf(f) {
            (v.sessions, v.rooms, seq![ServerActionView::Log { level: LogLevel::Warn, message: "malformed frame"@ }])
        } else if f.0.opcode == Opcode::Hello {
            (
                bind(v.sessions, sid, Some(f.0.sender_id)),
                v.rooms,
                seq![ServerActionView::SendToSession { session_id: sid, frame: hello_reply_frame(sid) }],
            )
        } else if bound is None {
            (
                unbind(v.sessions, sid),
                v.rooms,
                seq![ServerActionView::CloseSession { session_id: sid, reason: "unauthenticated"@ }],
            )
        } else if f.0.opcode == Opcode::Goodbye {
            (
                unbind(v.sessions, sid),
                RoomManagerView { rooms: strip_sender(v.rooms.rooms, bound->Some_0), ..v.rooms },
                seq![ServerActionView::CloseSession { session_id: sid, reason: "goodbye"@ }],
            )
        } else if f.0.opcode == Opcode::Ping {
            (
                v.sessions,
                v.rooms,
                seq![
                    ServerActionView::SendToSession {
                        session_id: sid,
                        frame: (FrameHeader::spec_new(Opcode::Pong), seq![]),
                    },
                ],
            )
        } else {
            let g = (FrameHeader { sender_id: bound->Some_0, ..f.0 }, f.1);
            match process_spec(v.rooms, g, v.logs) {
                Err(e) => if spec_is_fatal(room_kind(e)) {
                    (
                        unbind(v.sessions, sid),
                        v.rooms,
                        seq![
                            ServerActionView::Log { level: LogLevel::Warn, message: "frame rejected"@ },
                            ServerActionView::CloseSession { session_id: sid, reason: "fatal error"@ },
                        ],
                    )
                } else {
                    (
                        v.sessions,
                        v.rooms,
                        seq![ServerActionView::Log { level: LogLevel::Warn, message: "frame rejected"@ }],
                    )
                },
                Ok((rv, acts)) => (v.sessions, rv, routed(v.sessions, rv, v.logs, sid, acts)),
            }
        },
    }
}

/// The room actions that a frame on a bound session yields, where the room
/// manager accepts it.
pub open spec fn frame_room_actions(v: ServerView, sid: u64, f: FrameView) -> Seq<RoomActionView> {
    match session_sender(v.sessions, sid) {
        Some(Some(sender)) => if crate::frame::frame_wf(f) && f.0.opcode != Opcode::Hello
            && f.0.opcode != Opcode::Goodbye && f.0.opcode != Opcode::Ping {
            match process_spec(v.rooms, (FrameHeader { sender_id: sender, ..f.0 }, f.1), v.logs) {
                Ok((_, acts)) => acts,
                Err(_) => seq![],
            }
        } else {
            seq![]
        },
        _ => seq![],
    }
}

proof fn lemma_session_index_range(sessions: Seq<SessionEntry>, id: u64)
    ensures
        session_index(sessions, id) matches Some(i) ==> 0 <= i < sessions.len() && sessions[i].0 == id,
        session_index(sessions, id) is None ==> forall|a: int| 0 <= a < sessions.len() ==> sessions[a].0 != id,
    decreases sessions.len(),
{
    if sessions.len() > 0 {
        lemma_session_index_range(sessions.drop_last(), id);
        assert(forall|a: int| 0 <= a < sessions.len() - 1 ==> sessions.drop_last()[a] == sessions[a]);
    }
}

proof fn lemma_session_index_found(sessions: Seq<SessionEntry>, id: u64, i: int)
    requires
        0 <= i < sessions.len(),
        sessions[i].0 == id,
        forall|a: int, b: int| 0 <= a < b < sessions.len() ==> sessions[a].0 != sessions[b].0,
    ensures
        session_index(sessions, id) == Some(i),
    decreases sessions.len(),
{
    if i < sessions.len() - 1 {
        lemma_session_index_found(sessions.drop_last(), id, i);
    }
}

proof fn lemma_session_index_absent(sessions: Seq<SessionEntry>, id: u64)
    requires
        forall|a: int| 0 <= a < sessions.len() ==> sessions[a].0 != id,
    ensures
        session_index(sessions, id) is None,
    decreases sessions.len(),
{
    if sessions.len() > 0 {
        lemma_session_index_absent(sessions.drop_last(), id);
    }
}

fn copy_frames(frames: &Vec<Frame>) -> (r: Vec<Frame>)
    ensures
        crate::storage::frames_view(r@) == crate::storage::frames_view(frames@),
{
    let mut out: Vec<Frame> = Vec::new();
    let mut i: usize = 0;
    while i < frames.len()
        invariant
            i <= frames@.len(),
            crate::storage::frames_view(out@) == crate::storage::frames_view(frames@.subrange(0, i as int)),
        decreases frames@.len() - i,
    {
        let ghost prev = out@;
        let d = frames[i].duplicate();
        out.push(d);
        assert(crate::storage::frames_view(out@) =~= crate::storage::frames_view(prev).push(d@));
        assert(frames@.subrange(0, i + 1) =~= frames@.subrange(0, i as int).push(frames@[i as int]));
        assert(crate::storage::frames_view(frames@.subrange(0, i + 1)) =~= crate::storage::frames_view(
            frames@.subrange(0, i as int),
        ).push(frames@[i as int]@));
        i = i + 1;
    }
    assert(frames@.subrange(0, i as int) =~= frames@);
    out
}

fn push_sends(out: &mut Vec<ServerAction>, targets: &Vec<u64>, frame: &Frame)
    ensures
        server_actions_view(final(out)@) == server_actions_view(old(out)@) + sends(targets@, frame@),
{
    let ghost base = server_actions_view(out@);
    let mut i: usize = 0;
    while i < targets.len()
        invariant
            i <= targets@.len(),
            server_actions_view(out@) == base + sends(targets@.subrange(0, i as int), frame@),
        decreases targets@.len() - i,
    {
        let ghost prev = out@;
        let a = ServerAction::SendToSession { session_id: targets[i], frame: frame.duplicate() };
        out.push(a);
        assert(server_actions_view(out@) =~= server_actions_view(prev).push(a@));
        assert(targets@.subrange(0, i + 1) =~= targets@.subrange(0, i as int).push(targets@[i as int]));
        assert(sends(targets@.subrange(0, i + 1), frame@) =~= sends(targets@.subrange(0, i as int), frame@).push(a@));
        i = i + 1;
    }
    assert(targets@.subrange(0, i as int) =~= targets@);
}

impl ServerDriver {
    /// A server with no sessions, rooms or stored frames.
    pub fn new() -> (r: ServerDriver)
        ensures
            r.wf(),
            r@.sessions.len() == 0,
            r@.rooms.rooms.len() == 0,
            r@.rooms.key_packages.len() == 0,
            r@.logs.len() == 0,
    {
        let r = ServerDriver {
            sessions: Vec::new(),
            rooms: RoomManager::new(),
            storage: MemoryStorage::new(),
            now: Instant::from_nanos(0),
        };
        assert(r@.sessions.len() == 0);
        r
    }

    /// The room manager.
    pub fn rooms(&self) -> (r: &RoomManager)
        ensures
            r@ == self@.rooms,
    {
        &self.rooms
    }

    /// The frame log.
    pub fn storage(&self) -> (r: &MemoryStorage)
        ensures
            r@ == self@.logs,
    {
        &self.storage
    }

    /// Creates a room administratively (see `RoomManager::create_room`).
    pub fn create_room(&mut self, room_id: u128, creator: u64, now: Instant) -> (r: Result<(), crate::room::RoomError>)
        requires
            old(self).wf(),
        ensures
            final(self).wf(),
            match crate::room::create_spec(old(self)@.rooms, room_id, creator, now) {
                Ok(v) => r is Ok && final(self)@ == (ServerView { rooms: v, ..old(self)@ }),
                Err(e) => r == Err::<(), crate::room::RoomError>(e) && final(self)@ == old(self)@,
            },
    {
        self.rooms.create_room(room_id, creator, now)
    }

    fn find_session(&self, id: u64) -> (r: Option<usize>)
        requires
            self.wf(),
        ensures
            match r {
                Some(i) => session_index(self@.sessions, id) == Some(i as int) && i < self.sessions@.len(),
                None => session_index(self@.sessions, id) is None,
            },
    {
        let mut i: usize = 0;
        while i < self.sessions.len()
            invariant
                i <= self.sessions@.len(),
                self.wf(),
                forall|a: int| 0 <= a < i ==> self@.sessions[a].0 != id,
            decreases self.sessions@.len() - i,
        {
            if self.sessions[i].session_id == id {
                proof {
                    lemma_session_index_found(self@.sessions, id, i as int);
                }
                return Some(i);
            }
            i = i + 1;
        }
        proof {
            lemma_session_index_absent(self@.sessions, id);
        }
        None
    }

    fn bind_session(&mut self, id: u64, sender: Option<u64>)
        requires
            old(self).wf(),
        ensures
            final(self).wf(),
            final(self)@ == (ServerView { sessions: bind(old(self)@.sessions, id, sender), ..old(self)@ }),
    {
        let ghost old_s = self@.sessions;
        proof {
            lemma_session_index_range(old_s, id);
        }
        match self.find_session(id) {
            Some(i) => {
                self.sessions.set(i, Session { session_id: id, sender_id: sender });
                assert(self@.sessions =~= old_s.update(i as int, (id, sender)));
            },
            None => {
                self.sessions.push(Session { session_id: id, sender_id: sender });
                assert(self@.sessions =~= old_s.push((id, sender)));
            },
        }
    }

    fn unbind_session(&mut self, id: u64)
        requires
            old(self).wf(),
        ensures
            final(self).wf(),
            final(self)@ == (ServerView { sessions: unbind(old(self)@.sessions, id), ..old(self)@ }),
    {
        let ghost old_s = self@.sessions;
        proof {
            lemma_session_index_range(old_s, id);
        }
        match self.find_session(id) {
            Some(i) => {
                self.sessions.remove(i);
                assert(self@.sessions =~= old_s.remove(i as int));
            },
            None => {},
        }
    }

    fn fan_out_to(&self, room: u128, origin: u64) -> (r: Vec<u64>)
        requires
            self.wf(),
        ensures
            r@ == fan_out(self@.sessions, Set::new(|s: u64| self@.rooms.is_member(room, s)), origin),
    {
        let ghost members = Set::new(|s: u64| self@.rooms.is_member(room, s));
        let ghost all = self@.sessions;
        let mut out: Vec<u64> = Vec::new();
        let mut i: usize = 0;
        while i < self.sessions.len()
            invariant
                i <= self.sessions@.len(),
                self.wf(),
                all == self@.sessions,
                members == Set::new(|s: u64| self@.rooms.is_member(room, s)),
                out@ == fan_out(all.subrange(0, i as int), members, origin),
            decreases self.sessions@.len() - i,
        {
            assert(all.subrange(0, i + 1).drop_last() =~= all.subrange(0, i as int));
            assert(all[i as int] == session_view(self.sessions@[i as int]));
            let e = &self.sessions[i];
            if let Some(s) = e.sender_id {
                if self.rooms.is_member(room, s) && e.session_id != origin {
                    out.push(e.session_id);
                }
            }
            i = i + 1;
        }
        assert(all.subrange(0, i as int) =~= all);
        out
    }

    fn sessions_bound_to(&self, sender: u64) -> (r: Vec<u64>)
        ensures
            r@ == sessions_of(self@.sessions, sender),
    {
        let ghost all = self@.sessions;
        let mut out: Vec<u64> = Vec::new();
        let mut i: usize = 0;
        while i < self.sessions.len()
            invariant
                i <= self.sessions@.len(),
                all == self@.sessions,
                out@ == sessions_of(all.subrange(0, i as int), sender),
            decreases self.sessions@.len() - i,
        {
            assert(all.subrange(0, i + 1).drop_last() =~= all.subrange(0, i as int));
            assert(all[i as int] == session_view(self.sessions@[i as int]));
            if self.sessions[i].sender_id == Some(sender) {
                out.push(self.sessions[i].session_id);
            }
            i = i + 1;
        }
        assert(all.subrange(0, i as int) =~= all);
        out
    }

    fn route_actions(&mut self, origin: u64, acts: &Vec<RoomAction>) -> (r: Vec<ServerAction>)
        requires
            old(self).wf(),
            forall|k: int|
                1 <= k < acts@.len() ==> !(actions_view(acts@)[k] is PersistFrame),
        ensures
            final(self).wf(),
            final(self)@.sessions == old(self)@.sessions,
            final(self)@.rooms == old(self)@.rooms,
            server_actions_view(r@) == routed(
                old(self)@.sessions,
                old(self)@.rooms,
                old(self)@.logs,
                origin,
                actions_view(acts@),
            ),
            forall|room: u128|
                log_of(final(self)@.logs, room) == log_after(old(self)@.logs, actions_view(acts@), room),
    {
        let ghost s0 = self@;
        let ghost av = actions_view(acts@);
        let mut out: Vec<ServerAction> = Vec::new();
        let mut i: usize = 0;
        while i < acts.len()
            invariant
                i <= acts@.len(),
                av == actions_view(acts@),
                forall|k: int| 1 <= k < acts@.len() ==> !(av[k] is PersistFrame),
                self.wf(),
                self@.sessions == s0.sessions,
                self@.rooms == s0.rooms,
                server_actions_view(out@) == routed(s0.sessions, s0.rooms, s0.logs, origin, av.subrange(0, i as int)),
                forall|room: u128| log_of(self@.logs, room) == log_after(s0.logs, av.subrange(0, i as int), room),
                i == 0 ==> self@.logs == s0.logs,
            decreases acts@.len() - i,
        {
            assert(av.subrange(0, i + 1).drop_last() =~= av.subrange(0, i as int));
            assert(av.subrange(0, i + 1).last() == av[i as int]);
            let ghost prev = server_actions_view(out@);
            match &acts[i] {
                RoomAction::PersistFrame { room_id, log_index, frame } => {
                    let stored = self.storage.store_frame(*room_id, *log_index, frame);
                    if stored.is_err() {
                        let a = ServerAction::Log { level: LogLevel::Error, message: String::from_str("storage failure") };
                        out.push(a);
                        assert(server_actions_view(out@) =~= prev.push(a@));
                    }
                    assert(route(s0.sessions, s0.rooms, s0.logs, origin, av[i as int]) =~= server_actions_view(out@).subrange(prev.len() as int, server_actions_view(out@).len() as int));
                    assert(server_actions_view(out@) =~= prev + route(s0.sessions, s0.rooms, s0.logs, origin, av[i as int]));
                },
                RoomAction::Broadcast { room_id, frame, .. } => {
                    let targets = self.fan_out_to(*room_id, origin);
                    push_sends(&mut out, &targets, frame);
                },
                RoomAction::SendToSender { sender_id, frame } => {
                    let targets = self.sessions_bound_to(*sender_id);
                    push_sends(&mut out, &targets, frame);
                },
                RoomAction::SendSyncResponse { room_id, frames, has_more, .. } => {
                    let a = ServerAction::SendSync {
                        session_id: origin,
                        room_id: *room_id,
                        frames: copy_frames(frames),
                        has_more: *has_more,
                    };
                    out.push(a);
                    assert(server_actions_view(out@) =~= prev.push(a@));
                    assert(server_actions_view(out@) =~= prev + route(s0.sessions, s0.rooms, s0.logs, origin, av[i as int]));
                },
            }
            i = i + 1;
        }
        assert(av.subrange(0, i as int) =~= av);
        out
    }

    /// Handles one transport event. A Hello binds the session to the
    /// sender id of its header and is answered with a HelloReply carrying
    /// the session id; any other frame of a session without a Hello closes
    /// it. A Goodbye removes the sender from every room and closes the
    /// session. Frames of bound sessions go to the room manager with the bound
    /// sender id; what it returns is persisted and fanned out to sessions.
    /// Rejected frames are logged, and fatal rejections close the session.
    pub fn handle_event(&mut self, event: ServerEvent) -> (r: Vec<ServerAction>)
        requires
            old(self).wf(),
        ensures
            final(self).wf(),
            match event {
                ServerEvent::ConnectionAccepted { session_id } => r@.len() == 0 && final(self)@
                    == (ServerView { sessions: bind(old(self)@.sessions, session_id, None), ..old(self)@ }),
                ServerEvent::ConnectionClosed { session_id } => r@.len() == 0 && final(self)@
                    == (ServerView { sessions: unbind(old(self)@.sessions, session_id), ..old(self)@ }),
                ServerEvent::Tick { .. } => r@.len() == 0 && final(self)@ == old(self)@,
                ServerEvent::FrameReceived { session_id, frame } => {
                    &&& final(self)@.sessions == frame_step(old(self)@, session_id, frame@).0
                    &&& final(self)@.rooms == frame_step(old(self)@, session_id, frame@).1
                    &&& server_actions_view(r@) == frame_step(old(self)@, session_id, frame@).2
                    &&& forall|room: u128|
                        log_of(final(self)@.logs, room) == log_after(
                            old(self)@.logs,
                            frame_room_actions(old(self)@, session_id, frame@),
                            room,
                        )
                },
            },
    {
        match event {
            ServerEvent::ConnectionAccepted { session_id } => {
                self.bind_session(session_id, None);
                Vec::new()
            },
            ServerEvent::ConnectionClosed { session_id } => {
                self.unbind_session(session_id);
                Vec::new()
            },
            ServerEvent::Tick { now } => {
                let ghost before = self@;
                self.now = now;
                assert(self@ == before);
                Vec::new()
            },
            ServerEvent::FrameReceived { session_id, frame } => self.handle_frame(session_id, frame),
        }
    }

    fn handle_frame(&mut self, sid: u64, frame: Frame) -> (r: Vec<ServerAction>)
        requires
            old(self).wf(),
        ensures
            final(self).wf(),
            final(self)@.sessions == frame_step(old(self)@, sid, frame@).0,
            final(self)@.rooms == frame_step(old(self)@, sid, frame@).1,
            server_actions_view(r@) == frame_step(old(self)@, sid, frame@).2,
            forall|room: u128|
                log_of(final(self)@.logs, room) == log_after(
                    old(self)@.logs,
                    frame_room_actions(old(self)@, sid, frame@),
                    room,
                ),
    {
        let ghost v = self@;
        let ghost f = frame@;
        let mut out: Vec<ServerAction> = Vec::new();
        proof {
            lemma_session_index_range(v.sessions, sid);
        }
        let idx = match self.find_session(sid) {
            Some(i) => i,
            None => {
                out.push(ServerAction::Log { level: LogLevel::Warn, message: String::from_str("unknown session") });
                assert(server_actions_view(out@) =~= frame_step(v, sid, f).2);
                return out;
            },
        };
        assert(v.sessions[idx as int] == session_view(self.sessions@[idx as int]));
        let bound = self.sessions[idx].sender_id;
        if frame.header.payload_length > crate::frame::MAX_PAYLOAD_SIZE
            || frame.header.payload_length as usize != frame.payload.len() {
            out.push(ServerAction::Log { level: LogLevel::Warn, message: String::from_str("malformed frame") });
            assert(server_actions_view(out@) =~= frame_step(v, sid, f).2);
            return out;
        }
        let op = frame.header.opcode;
        if op == Opcode::Hello {
            self.bind_session(sid, Some(frame.header.sender_id));
            let reply = Frame::new(FrameHeader::new(Opcode::HelloReply), encode_hello_reply(sid));
            out.push(ServerAction::SendToSession { session_id: sid, frame: reply });
            assert(server_actions_view(out@) =~= frame_step(v, sid, f).2);
            return out;
        }
        let sender = match bound {
            Some(s) => s,
            None => {
                self.unbind_session(sid);
                out.push(ServerAction::CloseSession { session_id: sid, reason: String::from_str("unauthenticated") });
                assert(server_actions_view(out@) =~= frame_step(v, sid, f).2);
                return out;
            },
        };
        if op == Opcode::Goodbye {
            self.rooms.remove_sender(sender);
            self.unbind_session(sid);
            out.push(ServerAction::CloseSession { session_id: sid, reason: String::from_str("goodbye") });
            assert(server_actions_view(out@) =~= frame_step(v, sid, f).2);
            return out;
        }
        if op == Opcode::Ping {
            out.push(ServerAction::SendToSession { session_id: sid, frame: Frame::new(FrameHeader::new(Opcode::Pong), Vec::new()) });
            assert(server_actions_view(out@) =~= frame_step(v, sid, f).2);
            return out;
        }
        let mut g = frame;
        g.header.sender_id = sender;
        let now = self.now;
        match self.rooms.process_frame(g, now, &self.storage) {
            Err(e) => {
                out.push(ServerAction::Log { level: LogLevel::Warn, message: String::from_str("frame rejected") });
                if ErrorKind::of_room(e).is_fatal() {
                    self.unbind_session(sid);
                    out.push(ServerAction::CloseSession { session_id: sid, reason: String::from_str("fatal error") });
                }
                assert(server_actions_view(out@) =~= frame_step(v, sid, f).2);
                out
            },
            Ok(acts) => {
                self.route_actions(sid, &acts)
            },
        }
    }
}

proof fn lemma_sessions_of_bound(sessions: Seq<SessionEntry>, x: u64)
    ensures
        forall|k: int|
            0 <= k < sessions_of(sessions, x).len() ==> exists|j: int|
                0 <= j < sessions.len() && sessions[j].0 == #[trigger] sessions_of(sessions, x)[k]
                    && sessions[j].1 == Some(x),
    decreases sessions.len(),
{
    if sessions.len() > 0 {
        let init = sessions.drop_last();
        lemma_sessions_of_bound(init, x);
        assert forall|k: int| 0 <= k < sessions_of(sessions, x).len() implies exists|j: int|
            0 <= j < sessions.len() && sessions[j].0 == #[trigger] sessions_of(sessions, x)[k]
                && sessions[j].1 == Some(x) by {
            if k < sessions_of(init, x).len() {
                let j = choose|j: int|
                    0 <= j < init.len() && init[j].0 == #[trigger] sessions_of(init, x)[k] && init[j].1 == Some(x);
                assert(sessions[j] == init[j]);
            } else {
                assert(sessions[sessions.len() - 1].1 == Some(x));
            }
        }
    }
}

/// A Welcome reaches only sessions bound to its recipient, and nothing of
/// it is stored in any room's log.
pub proof fn lemma_welcome_reaches_only_recipient(v: ServerView, sid: u64, f: FrameView)
    requires
        v.rooms.wf(),
        f.0.opcode == Opcode::Welcome,
    ensures
        forall|k: int|
            0 <= k < frame_step(v, sid, f).2.len() ==> (#[trigger] frame_step(v, sid, f).2[k]
                matches ServerActionView::SendToSession { session_id, .. } ==> exists|j: int|
                0 <= j < v.sessions.len() && v.sessions[j].0 == session_id && v.sessions[j].1 == Some(
                f.0.recipient_id,
            )),
        forall|room: u128| log_after(v.logs, frame_room_actions(v, sid, f), room) == log_of(v.logs, room),
{
    let x = f.0.recipient_id;
    lemma_sessions_of_bound(v.sessions, x);
    match session_sender(v.sessions, sid) {
        Some(Some(sender)) => {
            if crate::frame::frame_wf(f) {
                let g = (FrameHeader { sender_id: sender, ..f.0 }, f.1);
                match process_spec(v.rooms, g, v.logs) {
                    Ok((rv, acts)) => {
                        assert(acts == seq![RoomActionView::SendToSender { sender_id: x, frame: g }]);
                        assert(acts.drop_last() =~= Seq::<RoomActionView>::empty());
                        let r1 = route(v.sessions, rv, v.logs, sid, acts.last());
                        assert(r1 == sends(sessions_of(v.sessions, x), g));
                        assert(routed(v.sessions, rv, v.logs, sid, acts) == routed(
                            v.sessions,
                            rv,
                            v.logs,
                            sid,
                            Seq::<RoomActionView>::empty(),
                        ) + r1);
                        assert(Seq::<ServerActionView>::empty() + r1 =~= r1);
                        let out = frame_step(v, sid, f).2;
                        assert(out == sends(sessions_of(v.sessions, x), g));
                        assert forall|k: int| 0 <= k < out.len() implies (#[trigger] out[k]
                            matches ServerActionView::SendToSession { session_id, .. } ==> exists|j: int|
                            0 <= j < v.sessions.len() && v.sessions[j].0 == session_id && v.sessions[j].1
                                == Some(x)) by {
                            assert(out[k] == ServerActionView::SendToSession {
                                session_id: sessions_of(v.sessions, x)[k],
                                frame: g,
                            });
                        }
                    },
                    Err(_) => {},
                }
            }
        },
        _ => {},
    }
}

} // verus!
