//! The messages exchanged between the components of the system: the
//! overlay descriptors a sender broadcasts, and the wrappers that carry
//! them.

pub mod client;
pub mod overlay;
pub mod server;
pub mod version;

use vstd::prelude::*;

use crate::message::overlay::{DisplayOptions, Overlay};

verus! {

/// A party of connected clients.
pub struct Party {
    /// Stable identifier of the party.
    pub id: String,
    /// Human-readable name of the party.
    pub name: String,
}

/// The payload of a message.
pub enum MessageType {
    /// Request to join a party.
    JoinParty,
    /// Show a batch of overlays with the given display options.
    ShowMedia { overlays: Vec<Overlay>, options: DisplayOptions },
    /// Remove anything currently shown on the splash screen.
    Clear,
}

/// Full message wrapper exchanged between all components.
pub struct Message {
    /// `MAJOR.MINOR.PATCH` protocol version of the sender.
    pub version: String,
    /// The party the message concerns.
    pub party: Party,
    /// The actual payload.
    pub kind: MessageType,
}

} // verus!
