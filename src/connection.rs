//! Connection state machine: handshake, heartbeat and timeouts.
//!
//! The machine holds no clock and does no I/O. Each call takes the current
//! time and returns the actions the driver must carry out.

use vstd::prelude::*;
use crate::frame::{Frame, FrameHeader, Opcode};
use crate::session::{decode_hello_reply, encode_hello_reply, hello_reply_bytes, hello_reply_id};
use crate::time::{elapsed, Duration, Instant};

verus! {

/// What the driver is asked to do.
#[derive(Debug, Clone, PartialEq, Eq)]
pub enum ConnectionAction {
    /// Send this frame to the peer.
    SendFrame(Frame),
    /// Close the connection with this reason.
    Close { reason: String },
}

/// Lifecycle state of a connection.
#[derive(Debug, Clone, Copy, PartialEq, Eq, Structural, Hash)]
pub enum ConnectionState {
    /// Created, no handshake started.
    Init,
    /// Hello sent, waiting for HelloReply.
    Pending,
    /// Handshake complete.
    Authenticated,
    /// Terminated.
    Closed,
}

/// Errors of the connection state machine.
#[derive(Debug, Clone, PartialEq, Eq)]
pub enum ConnectionError {
    /// The operation is not allowed in the current state.
    InvalidState { state: ConnectionState, operation: String },
    /// The frame is not expected in the current state.
    UnexpectedFrame { state: ConnectionState, opcode: u16 },
}

/// Timeouts and heartbeat period.
#[derive(Debug, Clone, Copy, PartialEq, Eq, Structural)]
pub struct ConnectionConfig {
    /// Time allowed to complete the handshake.
    pub handshake_timeout: Duration,
    /// Time without activity before an authenticated connection closes.
    pub idle_timeout: Duration,
    /// Time between heartbeats; should be below half the idle timeout.
    pub heartbeat_interval: Duration,
}

impl ConnectionConfig {
    /// The defaults: handshake 30 s, idle 60 s, heartbeat 20 s.
    pub open spec fn spec_default() -> ConnectionConfig {
        ConnectionConfig {
            handshake_timeout: Duration { nanos: 30_000_000_000 },
            idle_timeout: Duration { nanos: 60_000_000_000 },
            heartbeat_interval: Duration { nanos: 20_000_000_000 },
        }
    }
}

impl ConnectionConfig {
    /// Whether heartbeats come often enough: the interval is below half
    /// the idle timeout.
    pub open spec fn spec_is_valid(self) -> bool {
        2 * (self.heartbeat_interval.nanos as int) < self.idle_timeout.nanos as int
    }

    /// Whether heartbeats come often enough: the interval is below half
    /// the idle timeout.
    pub fn is_valid(&self) -> (r: bool)
        ensures
            r == self.spec_is_valid(),
    {
        self.heartbeat_interval.nanos < self.idle_timeout.nanos / 2 + self.idle_timeout.nanos % 2
    }
}

impl Default for ConnectionConfig {
    fn default() -> (r: ConnectionConfig)
        ensures
            r == ConnectionConfig::spec_default(),
    {
        ConnectionConfig {
            handshake_timeout: Duration::from_secs(30),
            idle_timeout: Duration::from_secs(60),
            heartbeat_interval: Duration::from_secs(20),
        }
    }
}

/// The state of a connection as contracts see it.
pub struct ConnectionView {
    pub state: ConnectionState,
    pub config: ConnectionConfig,
    pub last_activity: Instant,
    pub last_heartbeat: Option<Instant>,
    pub session_id: Option<u64>,
}

/// Connection state machine for one peer.
#[derive(Debug, Clone, Copy)]
pub struct Connection {
    state: ConnectionState,
    config: ConnectionConfig,
    last_activity: Instant,
    last_heartbeat: Option<Instant>,
    session_id: Option<u64>,
}

impl View for Connection {
    type V = ConnectionView;

    closed spec fn view(&self) -> ConnectionView {
        ConnectionView {
            state: self.state,
            config: self.config,
            last_activity: self.last_activity,
            last_heartbeat: self.last_heartbeat,
            session_id: self.session_id,
        }
    }
}

/// The timeout that applies in the connection's state, if any.
pub open spec fn timeout_of(v: ConnectionView) -> Option<Duration> {
    match v.state {
        ConnectionState::Pending => Some(v.config.handshake_timeout),
        ConnectionState::Authenticated => Some(v.config.idle_timeout),
        _ => None,
    }
}

/// Whether more than the state's timeout has passed since the last activity.
pub open spec fn timed_out(v: ConnectionView, now: Instant) -> bool {
    timeout_of(v) matches Some(t) && elapsed(v.last_activity, now) > t.nanos
}

/// Whether an authenticated connection owes the peer a heartbeat.
pub open spec fn heartbeat_due(v: ConnectionView, now: Instant) -> bool {
    v.state == ConnectionState::Authenticated && match v.last_heartbeat {
        None => true,
        Some(last) => elapsed(last, now) >= v.config.heartbeat_interval.nanos,
    }
}

/// The reason given when a connection in `state` times out.
pub open spec fn timeout_reason(state: ConnectionState) -> Seq<char> {
    if state == ConnectionState::Pending {
        "handshake timeout"@
    } else {
        "idle timeout"@
    }
}

/// A frame with the given opcode, every other header field zero, and
/// payload `p`.
pub open spec fn is_plain_frame(f: Frame, op: Opcode, p: Seq<u8>) -> bool {
    f.header == (FrameHeader { opcode: op, payload_length: p.len() as u32, ..FrameHeader::spec_new(op) })
        && f.payload@ == p
}

/// Whether a frame with opcode `op` and payload `p` is expected in `v`:
/// a Pong once authenticated, a Hello by a server that holds a session id,
/// a HelloReply carrying a session id while the handshake is pending.
pub open spec fn frame_expected(v: ConnectionView, op: Opcode, p: Seq<u8>) -> bool {
    (v.state == ConnectionState::Authenticated && op == Opcode::Pong) || (v.state
        == ConnectionState::Init && op == Opcode::Hello && v.session_id is Some) || (v.state
        == ConnectionState::Pending && op == Opcode::HelloReply && hello_reply_id(p) is Some)
}

impl Connection {
    /// A connection in `Init`, last active at `now`.
    pub fn new(now: Instant, config: ConnectionConfig) -> (r: Connection)
        ensures
            r@ == (ConnectionView {
                state: ConnectionState::Init,
                config,
                last_activity: now,
                last_heartbeat: None,
                session_id: None,
            }),
    {
        Connection {
            state: ConnectionState::Init,
            config,
            last_activity: now,
            last_heartbeat: None,
            session_id: None,
        }
    }

    /// The current state.
    pub fn state(&self) -> (r: ConnectionState)
        ensures
            r == self@.state,
    {
        self.state
    }

    /// The session id, once assigned.
    pub fn session_id(&self) -> (r: Option<u64>)
        ensures
            r == self@.session_id,
    {
        self.session_id
    }

    /// The configuration.
    pub fn config(&self) -> (r: ConnectionConfig)
        ensures
            r == self@.config,
    {
        self.config
    }

    /// Assigns the session id that a server hands out in its HelloReply.
    pub fn set_session_id(&mut self, session_id: u64)
        ensures
            final(self)@ == (ConnectionView { session_id: Some(session_id), ..old(self)@ }),
    {
        self.session_id = Some(session_id);
    }

    /// Hello sent: `Init` to `Pending`.
    pub fn send_hello(&mut self, now: Instant) -> (r: Result<Vec<ConnectionAction>, ConnectionError>)
        ensures
            old(self)@.state == ConnectionState::Init ==> (r matches Ok(a) && a@.len() == 0
                && final(self)@ == (ConnectionView {
                state: ConnectionState::Pending,
                last_activity: now,
                ..old(self)@
            })),
            old(self)@.state != ConnectionState::Init ==> (r matches Err(
                ConnectionError::InvalidState { state, operation },
            ) && state == old(self)@.state && operation@ == "send_hello"@ && final(self)@ == old(self)@),
    {
        if self.state != ConnectionState::Init {
            return Err(
                ConnectionError::InvalidState {
                    state: self.state,
                    operation: String::from_str("send_hello"),
                },
            );
        }
        self.state = ConnectionState::Pending;
        self.last_activity = now;
        Ok(Vec::new())
    }

    /// HelloReply received: `Pending` to `Authenticated` with the session id.
    pub fn receive_hello_reply(&mut self, session_id: u64, now: Instant) -> (r: Result<
        Vec<ConnectionAction>,
        ConnectionError,
    >)
        ensures
            old(self)@.state == ConnectionState::Pending ==> (r matches Ok(a) && a@.len() == 0
                && final(self)@ == (ConnectionView {
                state: ConnectionState::Authenticated,
                session_id: Some(session_id),
                last_activity: now,
                ..old(self)@
            })),
            old(self)@.state != ConnectionState::Pending ==> (r matches Err(
                ConnectionError::InvalidState { state, operation },
            ) && state == old(self)@.state && operation@ == "receive_hello_reply"@ && final(self)@
                == old(self)@),
    {
        if self.state != ConnectionState::Pending {
            return Err(
                ConnectionError::InvalidState {
                    state: self.state,
                    operation: String::from_str("receive_hello_reply"),
                },
            );
        }
        self.state = ConnectionState::Authenticated;
        self.session_id = Some(session_id);
        self.last_activity = now;
        Ok(Vec::new())
    }

    /// Moves to `Closed` from any state.
    pub fn close(&mut self)
        ensures
            final(self)@ == (ConnectionView { state: ConnectionState::Closed, ..old(self)@ }),
    {
        self.state = ConnectionState::Closed;
    }

    /// Records activity from the peer at `now`.
    pub fn update_activity(&mut self, now: Instant)
        ensures
            final(self)@ == (ConnectionView { last_activity: now, ..old(self)@ }),
    {
        self.last_activity = now;
    }

    /// The time since the last activity, if it exceeds the timeout of the
    /// current state (handshake while pending, idle once authenticated).
    pub fn check_timeout(&self, now: Instant) -> (r: Option<Duration>)
        ensures
            timed_out(self@, now) ==> r == Some(Duration { nanos: elapsed(self@.last_activity, now) }),
            !timed_out(self@, now) ==> r is None,
    {
        let since = now.duration_since(self.last_activity);
        let timeout = match self.state {
            ConnectionState::Pending => self.config.handshake_timeout,
            ConnectionState::Authenticated => self.config.idle_timeout,
            _ => {
                return None;
            },
        };
        if since.nanos > timeout.nanos {
            Some(since)
        } else {
            None
        }
    }

    /// Periodic step: closes a connection that timed out, else sends a Ping
    /// when an authenticated connection owes a heartbeat.
    pub fn tick(&mut self, now: Instant) -> (r: Vec<ConnectionAction>)
        ensures
            timed_out(old(self)@, now) ==> (r@.len() == 1 && (r@[0] matches ConnectionAction::Close {
                reason,
            } && reason@ == timeout_reason(old(self)@.state)) && final(self)@ == (ConnectionView {
                state: ConnectionState::Closed,
                ..old(self)@
            })),
            !timed_out(old(self)@, now) && heartbeat_due(old(self)@, now) ==> (r@.len() == 1
                && (r@[0] matches ConnectionAction::SendFrame(f) && is_plain_frame(f, Opcode::Ping, seq![]))
                && final(self)@ == (ConnectionView {
                last_heartbeat: Some(now),
                last_activity: now,
                ..old(self)@
            })),
            !timed_out(old(self)@, now) && !heartbeat_due(old(self)@, now) ==> r@.len() == 0
                && final(self)@ == old(self)@,
    {
        let mut actions: Vec<ConnectionAction> = Vec::new();
        if let Some(_) = self.check_timeout(now) {
            let reason = if self.state == ConnectionState::Pending {
                String::from_str("handshake timeout")
            } else {
                String::from_str("idle timeout")
            };
            self.close();
            actions.push(ConnectionAction::Close { reason });
            return actions;
        }
        if self.state == ConnectionState::Authenticated {
            let should_send = match self.last_heartbeat {
                None => true,
                Some(last) => now.duration_since(last).nanos >= self.config.heartbeat_interval.nanos,
            };
            if should_send {
                let ping = Frame::new(FrameHeader::new(Opcode::Ping), Vec::new());
                actions.push(ConnectionAction::SendFrame(ping));
                self.last_heartbeat = Some(now);
                self.last_activity = now;
            }
        }
        actions
    }

    /// Handles a frame from the peer at `now`, which counts as activity.
    /// A Pong is consumed once authenticated; a server (a connection in
    /// `Init` that holds a session id) answers a Hello with a HelloReply
    /// and becomes authenticated; a pending client takes the session id
    /// from a HelloReply and becomes authenticated. Any other frame is
    /// unexpected.
    pub fn handle_frame(&mut self, frame: &Frame, now: Instant) -> (r: Result<
        Vec<ConnectionAction>,
        ConnectionError,
    >)
        ensures
            !frame_expected(old(self)@, frame.header.opcode, frame.payload@) ==> (r matches Err(
                ConnectionError::UnexpectedFrame { state, opcode },
            ) && state == old(self)@.state && opcode == frame.header.opcode.code() && final(self)@
                == (ConnectionView { last_activity: now, ..old(self)@ })),
            old(self)@.state == ConnectionState::Authenticated && frame.header.opcode == Opcode::Pong
                ==> (r matches Ok(a) && a@.len() == 0 && final(self)@ == (ConnectionView {
                last_activity: now,
                ..old(self)@
            })),
            old(self)@.state == ConnectionState::Init && frame.header.opcode == Opcode::Hello && old(self)@.session_id is Some ==> (r matches Ok(a) && a@.len() == 1 && (a@[0] matches ConnectionAction::SendFrame(f)
                && is_plain_frame(f, Opcode::HelloReply, hello_reply_bytes(old(self)@.session_id->Some_0)))
                && final(self)@ == (ConnectionView {
                state: ConnectionState::Authenticated,
                last_activity: now,
                ..old(self)@
            })),
            old(self)@.state == ConnectionState::Pending && frame.header.opcode == Opcode::HelloReply
                && hello_reply_id(frame.payload@) is Some ==> (r matches Ok(a) && a@.len() == 0
                && final(self)@ == (ConnectionView {
                state: ConnectionState::Authenticated,
                session_id: hello_reply_id(frame.payload@),
                last_activity: now,
                ..old(self)@
            })),
    {
        self.last_activity = now;
        let op = frame.header.opcode;
        match (self.state, op) {
            (ConnectionState::Authenticated, Opcode::Pong) => {
                return Ok(Vec::new());
            },
            (ConnectionState::Init, Opcode::Hello) => {
                if let Some(id) = self.session_id {
                    let payload = encode_hello_reply(id);
                    let reply = Frame::new(FrameHeader::new(Opcode::HelloReply), payload);
                    self.state = ConnectionState::Authenticated;
                    let mut actions: Vec<ConnectionAction> = Vec::new();
                    actions.push(ConnectionAction::SendFrame(reply));
                    return Ok(actions);
                }
            },
            (ConnectionState::Pending, Opcode::HelloReply) => {
                if let Some(id) = decode_hello_reply(frame.payload.as_slice()) {
                    self.state = ConnectionState::Authenticated;
                    self.session_id = Some(id);
                    return Ok(Vec::new());
                }
            },
            _ => {},
        }
        Err(ConnectionError::UnexpectedFrame { state: self.state, opcode: op.to_u16() })
    }
}

} // verus!
