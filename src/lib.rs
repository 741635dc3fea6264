//! An end-to-end encrypted group messaging substrate, verified with Verus.
//!
//! - [`frame`]: the 128-byte wire header and frame codec.
//! - [`session`]: the HelloReply payload that carries a session id.
//! - [`connection`]: the connection state machine (handshake, heartbeat,
//!   timeouts).
//! - [`room`] and [`storage`]: the routing-only room manager and sequencer
//!   with its append-only frame log.
//! - [`server`]: the session table and fan-out above the room manager.
//! - [`sender_keys`]: per-epoch, per-sender ratchets and message
//!   encryption.
//! - [`error`]: the error taxonomy and its classification.
//! - [`model`]: the reference model of group operations.
//! - [`scenario`] and [`sim`]: the scenario harness and the deterministic
//!   network simulation.
//! - [`commands`] and [`action`]: the user command language and the
//!   actions of the application.
//! - [`payloads`] and [`time`]: group-protocol payloads and virtual time.

pub mod action;
pub mod commands;
pub mod connection;
pub mod error;
pub mod frame;
pub mod model;
pub mod payloads;
pub mod room;
pub mod scenario;
pub mod sender_keys;
pub mod server;
pub mod session;
pub mod sim;
pub mod storage;
pub mod time;
