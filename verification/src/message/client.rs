//! Messages sent by a client to the server. Client messages are
//! requests or signals only; only server messages are authoritative.

use vstd::prelude::*;

use crate::message::overlay::{DisplayOptions, Overlay};
use crate::message::version::Version;

verus! {

/// All possible client message kinds. Parties are identified by the
/// 128 bits of their server-assigned unique identifier.
pub enum ClientMessageType {
    /// Request creation of a new party; the sender becomes its creator.
    CreateParty,
    /// Request disbanding of a party; permissions are checked
    /// server-side.
    DisbandParty { party_id: u128 },
    /// Request to join a party using an invitation link.
    JoinParty { invitation_link: String },
    /// Request a new invitation link for a party; restricted to its
    /// admins and creator.
    CreateInvationLink { party_id: u128 },
    /// Broadcast a set of overlays through the server.
    Overlays { overlays: Vec<Overlay>, options: DisplayOptions },
    /// Acknowledge successful download of all overlays.
    OverlaysAck,
    /// Acknowledge successful rasterization of all overlays.
    RasterizationAck,
    /// Signal readiness to trigger the final action; the server decides
    /// if and when it becomes authoritative.
    Fire,
    /// Error emitted by the client.
    Error { message: String },
}

/// Top-level message sent by a client to the server. No sender identity
/// is included on purpose: the server never trusts client-provided
/// identity.
pub struct ClientMessage {
    /// Protocol version of the message payload.
    pub version: Version,
    /// Actual message payload.
    pub kind: ClientMessageType,
}

} // verus!
