//! Messages emitted by the server. Server messages are authoritative
//! and are never rejected or altered by clients.

use vstd::prelude::*;

use crate::message::overlay::{DisplayOptions, Overlay};
use crate::message::version::Version;

verus! {

/// Stable server-assigned identity of a message's sender, as the 128
/// bits of its unique identifier.
pub struct SenderInfo {
    /// Server-assigned identifier of the sender.
    pub id: u128,
}

/// The payload of a server message.
pub enum ServerMessageType {
    /// Confirms party creation and grants creator privileges.
    PartyCreated,
    /// Confirms that the client joined the party it asked for.
    JoinAccepted,
    /// The full set of overlays to display, with display options.
    Overlays { overlays: Vec<Overlay>, options: DisplayOptions },
    /// Every online party member has downloaded the overlays.
    OverlaysFullAck,
    /// Every online party member has rasterized the overlays.
    RasterizationFullAck,
    /// The synchronized display may fire.
    Fire,
    /// A rejected client action or a server error.
    Error { message: String },
}

/// Top-level message emitted by the server.
pub struct ServerMessage {
    /// Protocol version of the server that sent the message.
    pub version: Version,
    /// Who the message is relayed from.
    pub sender: SenderInfo,
    /// The actual payload.
    pub kind: ServerMessageType,
}

} // verus!
