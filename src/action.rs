//! Actions that the user interface asks the runtime to carry out.

use vstd::prelude::*;

verus! {

/// Actions produced by the application state machine.
#[derive(Debug, Clone, PartialEq, Eq)]
pub enum AppAction {
    /// Render the interface.
    Render,
    /// Quit the application.
    Quit,
    /// Connect to the server at `server_addr` (host:port).
    Connect { server_addr: String },
    /// Create a room.
    CreateRoom { room_id: u128 },
    /// Join a room.
    JoinRoom { room_id: u128 },
    /// Leave a room.
    LeaveRoom { room_id: u128 },
    /// Send a message to a room.
    SendMessage { room_id: u128, content: Vec<u8> },
    /// Publish one's key package to the server.
    PublishKeyPackage,
    /// Add a member to a room by fetching their key package.
    AddMember { room_id: u128, user_id: u64 },
}

} // verus!
