//! The mission protocol spoken over the CSP payload link: the network map
//! (which node/port carries what) and the message and command formats.
//!
//! - [`Command`]: inbound commands from the bus, parsed in [`command`].
//! - [`Message`]: outbound messages and their destinations, in [`message`].
//! - [`CommandLink`]: the role trait a link implements.
//!
//! Its lower layer lives alongside it: the KISS/CSP wire codec in [`kiss`].

pub mod arch;
pub mod command;
pub mod csp;
pub mod kiss;
pub mod kiss_laws;
pub mod message;
pub mod payload_link;

use vstd::prelude::*;

use crate::error::Result;
pub use command::Command;
pub use message::{Dest, Message, Routes};

verus! {

/// This node's CSP address on the payload bus.
pub const NODE: u16 = 7;

/// One use of a [`CommandLink`].
pub enum LinkCall {
    /// A message was handed over for transmission.
    Sent(Message),
    /// The link was polled, with this outcome.
    Received(Result<Option<Command>>),
}

/// The mission's view of the payload link: transmit [`Message`]s and poll for
/// inbound [`Command`]s. Depending on the trait lets the mission logic run
/// against a stand-in link off-target.
pub trait CommandLink {
    /// Every use made of the link so far, oldest first.
    open spec fn calls(&self) -> Seq<LinkCall> {
        arbitrary()
    }

    /// Transmit a message via the link.
    fn send(&mut self, message: Message)
        ensures
            final(self).calls() == old(self).calls().push(LinkCall::Sent(message)),
    ;

    /// Return the next pending command, or `None` if none is currently
    /// available. When nothing is buffered this pumps the link once, waiting up
    /// to the read timeout for traffic.
    fn receive(&mut self) -> (command: Result<Option<Command>>)
        ensures
            final(self).calls() == old(self).calls().push(LinkCall::Received(command)),
    ;
}

} // verus!
