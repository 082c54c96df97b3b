//! The command queue of the payload link: what arrives on the mission's OTA and
//! command service ports, in the order it is to be executed.

use std::collections::VecDeque;

use vstd::prelude::*;

use super::command;
use super::command::{Command, Request};
use super::csp::CspError;
use crate::bytes;
use crate::error::{Error, Result};

verus! {

/// The port that takes firmware update packets.
pub const OTA_PORT: u8 = 10;

/// The port that takes mission commands.
pub const CMD_PORT: u8 = 11;

/// A packet on the command port asks for images if it starts with `SSTV`.
pub open spec fn is_sstv(payload: Seq<u8>) -> bool {
    payload.len() >= 4 && payload[0] == 'S' as u8 && payload[1] == 'S' as u8 && payload[2]
        == 'T' as u8 && payload[3] == 'V' as u8
}

/// The request in one packet of the command port, if it holds one.
pub open spec fn cmd_request(payload: Seq<u8>) -> Option<Request> {
    if is_sstv(payload) {
        Some(Request::Sstv)
    } else {
        None
    }
}

/// The requests in the packets of the OTA port, in order.
pub open spec fn ota_requests(payloads: Seq<Seq<u8>>) -> Seq<Request>
    decreases payloads.len(),
{
    if payloads.len() == 0 {
        seq![]
    } else {
        let before = ota_requests(payloads.drop_last());
        match command::ota_request(payloads.last()) {
            Some(request) => before.push(request),
            None => before,
        }
    }
}

/// The requests in the packets of the command port, in order.
pub open spec fn cmd_requests(payloads: Seq<Seq<u8>>) -> Seq<Request>
    decreases payloads.len(),
{
    if payloads.len() == 0 {
        seq![]
    } else {
        let before = cmd_requests(payloads.drop_last());
        match cmd_request(payloads.last()) {
            Some(request) => before.push(request),
            None => before,
        }
    }
}

/// Parse one packet from the command socket, or `None` if it is not known.
pub fn parse_cmd_packet(payload: &[u8]) -> (command: Option<Command>)
    ensures
        command is Some <==> cmd_request(payload@) is Some,
        command matches Some(c) ==> cmd_request(payload@) == Some(c@),
{
    if payload.len() >= 4 && payload[0] == 'S' as u8 && payload[1] == 'S' as u8 && payload[2]
        == 'T' as u8 && payload[3] == 'V' as u8 {
        Some(Command::Sstv)
    } else {
        None
    }
}

/// Commands already received but not yet handed out.
pub struct PayloadLink {
    commands: VecDeque<Command>,
}

impl View for PayloadLink {
    type V = Seq<Request>;

    closed spec fn view(&self) -> Seq<Request> {
        self.commands@.map_values(|c: Command| c@)
    }
}

impl PayloadLink {
    /// A link on which nothing has arrived yet.
    pub fn new() -> (link: Self)
        ensures
            link@ == Seq::<Request>::empty(),
    {
        let link = PayloadLink { commands: VecDeque::new() };
        assert(link@ =~= Seq::<Request>::empty());
        link
    }

    fn enqueue(&mut self, command: Command)
        ensures
            final(self)@ == old(self)@.push(command@),
    {
        self.commands.push_back(command);
        assert(self@ =~= old(self)@.push(command@));
    }

    /// Queue what the service sockets hold: first every packet of the OTA
    /// port, then every packet of the command port.
    pub fn collect_commands(&mut self, ota: &Vec<Vec<u8>>, cmd: &Vec<Vec<u8>>)
        ensures
            final(self)@ == old(self)@ + ota_requests(bytes::contents(ota@)) + cmd_requests(
                bytes::contents(cmd@),
            ),
    {
        let mut i: usize = 0;
        let ghost ota_all = bytes::contents(ota@);
        while i < ota.len()
            invariant
                i <= ota.len(),
                ota_all == bytes::contents(ota@),
                self@ == old(self)@ + ota_requests(ota_all.take(i as int)),
            decreases ota.len() - i,
        {
            assert(ota_all.take(i + 1).drop_last() == ota_all.take(i as int));
            assert(ota_all[i as int] == ota@[i as int]@);
            if let Some(c) = command::parse_ota_packet(ota[i].as_slice()) {
                self.enqueue(c);
            }
            i += 1;
        }
        assert(ota_all.take(i as int) == ota_all);
        let ghost queued = self@;
        let ghost cmd_all = bytes::contents(cmd@);
        let mut k: usize = 0;
        while k < cmd.len()
            invariant
                k <= cmd.len(),
                cmd_all == bytes::contents(cmd@),
                self@ == queued + cmd_requests(cmd_all.take(k as int)),
            decreases cmd.len() - k,
        {
            assert(cmd_all.take(k + 1).drop_last() == cmd_all.take(k as int));
            assert(cmd_all[k as int] == cmd@[k as int]@);
            if let Some(c) = parse_cmd_packet(cmd[k].as_slice()) {
                self.enqueue(c);
            }
            k += 1;
        }
        assert(cmd_all.take(k as int) == cmd_all);
    }

    /// Hand out the oldest queued command, if there is one.
    pub fn next_command(&mut self) -> (command: Option<Command>)
        ensures
            command is None <==> old(self)@.len() == 0,
            command is None ==> final(self)@ == old(self)@,
            command matches Some(c) ==> c@ == old(self)@[0] && final(self)@
                == old(self)@.drop_first(),
    {
        let command = self.commands.pop_front();
        assert(command is Some ==> self@ =~= old(self)@.drop_first());
        assert(command is None ==> self@ =~= old(self)@);
        command
    }
}

/// The answer to a request for the next command, as far as the queue has one.
#[derive(Debug)]
pub enum Reception {
    /// The oldest queued command.
    Command(Command),
    /// Nothing is queued: the line has to be polled first.
    Poll,
}

impl PayloadLink {
    /// Answer a request for the next command: what is queued is handed out,
    /// oldest first, before the line is polled again.
    pub fn receive(&mut self) -> (reception: Reception)
        ensures
            reception is Poll <==> old(self)@.len() == 0,
            reception is Poll ==> final(self)@ == old(self)@,
            reception matches Reception::Command(c) ==> c@ == old(self)@[0] && final(self)@
                == old(self)@.drop_first(),
    {
        match self.next_command() {
            Some(command) => Reception::Command(command),
            None => Reception::Poll,
        }
    }

    /// Answer a request for the next command once the line was polled: a failed
    /// poll is an error and leaves the queue alone; otherwise what the service
    /// sockets hold is queued and the oldest command is handed out.
    pub fn receive_polled(
        &mut self,
        polled: std::result::Result<(), CspError>,
        ota: &Vec<Vec<u8>>,
        cmd: &Vec<Vec<u8>>,
    ) -> (command: Result<Option<Command>>)
        ensures
            command is Err <==> polled is Err,
            command matches Err(e) ==> e == Error::UartReceive && final(self)@ == old(self)@,
            ({
                let queue = old(self)@ + ota_requests(bytes::contents(ota@)) + cmd_requests(
                    bytes::contents(cmd@),
                );
                &&& command matches Ok(None) ==> queue.len() == 0 && final(self)@ == queue
                &&& command matches Ok(Some(c)) ==> queue.len() > 0 && c@ == queue[0]
                    && final(self)@ == queue.drop_first()
            }),
    {
        if polled.is_err() {
            return Err(Error::UartReceive);
        }
        self.collect_commands(ota, cmd);
        Ok(self.next_command())
    }
}

/// What `n` hand-outs take off a queue, and what they leave.
pub open spec fn dequeued(queue: Seq<Request>, n: nat) -> (Seq<Request>, Seq<Request>)
    decreases n,
{
    if n == 0 {
        (seq![], queue)
    } else {
        let (out, rest) = dequeued(queue, (n - 1) as nat);
        (out.push(rest[0]), rest.drop_first())
    }
}

/// Commands leave in the order they arrived: `n` hand-outs take exactly the
/// first `n` commands off the queue, oldest first, and leave the others.
pub proof fn law_commands_leave_in_order(queue: Seq<Request>, n: nat)
    requires
        n <= queue.len(),
    ensures
        dequeued(queue, n).0 == queue.take(n as int),
        dequeued(queue, n).1 == queue.skip(n as int),
    decreases n,
{
    if n == 0 {
        assert(queue.skip(0) == queue);
        assert(queue.take(0) == Seq::<Request>::empty());
    } else {
        let before = (n - 1) as nat;
        law_commands_leave_in_order(queue, before);
        assert(queue.skip(before as int).drop_first() == queue.skip(n as int));
        assert(queue.take(before as int).push(queue[before as int]) == queue.take(n as int));
    }
}

/// The capture command is a payload that starts with four letters, whatever
/// follows them; no other payload of the command port is a command.
pub proof fn law_capture_command_starts_with_its_name(payload: Seq<u8>)
    ensures
        cmd_request(payload) == Some(Request::Sstv) <==> payload.len() >= 4 && payload.take(4)
            == seq![0x53u8, 0x53, 0x54, 0x56],
        cmd_request(payload) is Some ==> cmd_request(payload) == Some(Request::Sstv),
{
    if payload.len() >= 4 {
        let start = payload.take(4);
        assert(start[0] == payload[0] && start[1] == payload[1] && start[2] == payload[2]
            && start[3] == payload[3]);
        if payload[0] == 0x53 && payload[1] == 0x53 && payload[2] == 0x54 && payload[3] == 0x56 {
            assert(start =~= seq![0x53u8, 0x53, 0x54, 0x56]);
        }
    }
}

/// Every payload that is a command is taken up in its turn, and no other is.
pub proof fn law_payloads_are_taken_up_in_turn(payloads: Seq<Seq<u8>>, payload: Seq<u8>)
    ensures
        ota_requests(Seq::empty()).len() == 0,
        cmd_requests(Seq::empty()).len() == 0,
        command::ota_request(payload) is None ==> ota_requests(payloads.push(payload))
            == ota_requests(payloads),
        command::ota_request(payload) matches Some(request) ==> ota_requests(payloads.push(payload))
            == ota_requests(payloads).push(request),
        cmd_request(payload) is None ==> cmd_requests(payloads.push(payload)) == cmd_requests(
            payloads,
        ),
        cmd_request(payload) matches Some(request) ==> cmd_requests(payloads.push(payload))
            == cmd_requests(payloads).push(request),
{
    assert(payloads.push(payload).drop_last() == payloads);
}

} // verus!
