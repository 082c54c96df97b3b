//! Outbound messages and their destinations on the network map.

use vstd::prelude::*;
#[allow(unused_imports)]
use vstd::string::*;

use crate::error;
use crate::error::Error;

verus! {

/// A destination on the CSP network: which node, and which port on it.
#[derive(Clone, Copy, Debug, PartialEq, Eq, Structural)]
pub struct Dest {
    /// The node's address.
    pub node: u16,
    /// The port on that node.
    pub port: u8,
}

/// Where each class of outbound [`Message`] is routed. Supplied by the firmware
/// at link bring-up so a different mission can re-target the payload without
/// editing this crate.
#[derive(Clone, Copy, Debug, PartialEq, Eq, Structural)]
pub struct Routes {
    /// `Available` / `Busy` status.
    pub payload: Dest,
    /// `Booted` firmware-identity announcement.
    pub obc: Dest,
    /// `Error` reports.
    pub uhf_ground: Dest,
}

/// The MOVE-IIIa network map.
pub open spec fn move_iiia_routes() -> Routes {
    Routes {
        payload: Dest { node: 14, port: 1 },
        obc: Dest { node: 1, port: 1 },
        uhf_ground: Dest { node: 2, port: 1 },
    }
}

impl Routes {
    /// The MOVE-IIIa network map.
    pub fn move_iiia() -> (routes: Routes)
        ensures
            routes == move_iiia_routes(),
    {
        Routes {
            payload: Dest { node: 14, port: 1 },
            obc: Dest { node: 1, port: 1 },
            uhf_ground: Dest { node: 2, port: 1 },
        }
    }
}

/// Messages that can be transmitted via the payload link.
#[derive(Debug)]
pub enum Message {
    /// Message for payload board announcing idle state.
    Available,
    /// Boot announcement carrying the firmware identity for ground validation.
    Booted(String),
    /// Message for payload board announcing exit of idle state.
    Busy,
    /// Error report for ground station.
    Error(Error),
}

/// The destination of a message on a network map.
pub open spec fn destination(message: Message, routes: Routes) -> Dest {
    match message {
        Message::Available | Message::Busy => routes.payload,
        Message::Booted(_) => routes.obc,
        Message::Error(_) => routes.uhf_ground,
    }
}

/// The text of a message.
pub open spec fn message_text(message: Message) -> Seq<char> {
    match message {
        Message::Available => "AVAILABLE"@,
        Message::Busy => "BUSY"@,
        Message::Booted(firmware) => "STATUS: BOOTED "@ + firmware@,
        Message::Error(e) => error::error_text(e),
    }
}

impl Message {
    /// Resolve this message's destination against the firmware's network map.
    pub fn dest(&self, routes: &Routes) -> (dest: Dest)
        ensures
            dest == destination(*self, *routes),
    {
        match self {
            Self::Available | Self::Busy => routes.payload,
            Self::Booted(_) => routes.obc,
            Self::Error(_) => routes.uhf_ground,
        }
    }

    /// The destination CSP node on the MOVE-IIIa network map.
    pub fn node(&self) -> (node: u16)
        ensures
            node == destination(*self, move_iiia_routes()).node,
    {
        self.dest(&Routes::move_iiia()).node
    }

    /// The destination CSP port on the MOVE-IIIa network map.
    pub fn port(&self) -> (port: u8)
        ensures
            port == destination(*self, move_iiia_routes()).port,
    {
        self.dest(&Routes::move_iiia()).port
    }

    /// The raw packet payload bytes: the message's text in UTF-8.
    pub fn payload(&self) -> (raw: Vec<u8>)
        ensures
            raw@ == vstd::utf8::encode_utf8(message_text(*self)),
    {
        let text = match self {
            Self::Available => "AVAILABLE".to_owned(),
            Self::Busy => "BUSY".to_owned(),
            Self::Booted(firmware) => {
                let mut text = "STATUS: BOOTED ".to_owned();
                text.append(firmware.as_str());
                text
            },
            Self::Error(e) => e.to_text(),
        };
        vstd::slice::slice_to_vec(text.as_str().as_bytes())
    }
}

/// What the payload does is told on board, that it booted to the computer, and
/// errors to the ground.
pub proof fn law_messages_reach_who_needs_them(firmware: String, error: Error, routes: Routes)
    ensures
        destination(Message::Available, routes) == routes.payload,
        destination(Message::Busy, routes) == routes.payload,
        destination(Message::Booted(firmware), routes) == routes.obc,
        destination(Message::Error(error), routes) == routes.uhf_ground,
{
}

/// A message that carries something says it in full behind a fixed text; an
/// error has none but its own.
pub proof fn law_messages_say_what_they_carry(firmware: String, error: Error)
    ensures
        message_text(Message::Available) == "AVAILABLE"@,
        message_text(Message::Busy) == "BUSY"@,
        message_text(Message::Booted(firmware)).len() == 15 + firmware@.len(),
        message_text(Message::Booted(firmware)).take(15) == "STATUS: BOOTED "@,
        message_text(Message::Booted(firmware)).skip(15) == firmware@,
        message_text(Message::Error(error)) == error::error_text(error),
{
    reveal_strlit("STATUS: BOOTED ");
    let line = message_text(Message::Booted(firmware));
    assert(line.take(15) =~= "STATUS: BOOTED "@);
    assert(line.skip(15) =~= firmware@);
}

} // verus!
