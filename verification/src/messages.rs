//! What the listeners hand on to whoever shows the chat.

use vstd::prelude::*;

verus! {

/// The chat service that a message came from.
#[derive(Debug, Clone, Copy, PartialEq, Eq, Structural)]
pub enum Platform {
    Twitch,
    Youtube,
}

/// One chat message, whatever service it came from.
#[derive(Debug, Clone, PartialEq, Eq)]
pub struct PlatformMessage {
    pub sender: String,
    pub msg: String,
    pub platform: Platform,
}

impl View for PlatformMessage {
    type V = (Seq<char>, Seq<char>, Platform);

    /// The sender, the text and the service.
    open spec fn view(&self) -> (Seq<char>, Seq<char>, Platform) {
        (self.sender@, self.msg@, self.platform)
    }
}

} // verus!
