//! The session-facing client: hands the renderer the encoded message
//! it was constructed with, exactly once.

use vstd::prelude::*;

verus! {

/// A client that delivers one pending encoded message.
pub struct WSClient {
    /// Whether the pending message has already been handed out.
    pub sent: bool,
    /// The encoded message to deliver.
    pub msg_bytes: Vec<u8>,
}

impl WSClient {
    /// A client holding one encoded message to deliver.
    pub fn new(msg_bytes: Vec<u8>) -> (c: WSClient)
        ensures
            !c.sent,
            c.msg_bytes@ == msg_bytes@,
    {
        WSClient { sent: false, msg_bytes }
    }

    /// The pending message the first time, `None` afterwards.
    pub fn recv(&mut self) -> (r: Option<&[u8]>)
        ensures
            final(self).sent,
            final(self).msg_bytes@ == old(self).msg_bytes@,
            match r {
                Some(b) => !old(self).sent && b@ == old(self).msg_bytes@,
                None => old(self).sent,
            },
    {
        if !self.sent {
            self.sent = true;
            Some(self.msg_bytes.as_slice())
        } else {
            None
        }
    }
}

} // verus!
