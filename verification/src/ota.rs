//! Firmware update driven by raw packets: a packet handler that keeps the
//! update session itself and survives every malformed or untimely packet.
//!
//! As in [`update`](crate::update), the platform performs each
//! [`Action`] and hands back its [`Event`].

use vstd::prelude::*;

use crate::bytes;
use crate::link::command::{OTA_CMD_ANNOUNCE, OTA_CMD_BEGIN, OTA_CMD_DATA, OTA_CMD_END};
use crate::update::laws;
use crate::update::writer;
use crate::update::{Action, Event, Opening, Order, Writer};

verus! {

/// Where a session stands between two packets.
#[derive(Clone, Copy, Debug, PartialEq, Eq, Structural)]
pub enum Standing {
    /// No transfer is in progress; the announced chunk size, or zero.
    Idle(u16),
    /// A transfer is in progress.
    Writing(Writer),
}

/// What a session is waiting for.
pub enum OtaStage {
    /// The next packet.
    Ready(Standing),
    /// The partition for an image of this many bytes.
    Opening(u32, Standing),
    /// The verdict on the chunk being written; the bytes still to write follow
    /// it.
    Flashing(Writer, Seq<u8>, Seq<u8>),
    /// The verdict on the complete image.
    Ending(Writer),
    /// The verdict on booting the complete image.
    Activating(Writer),
    /// The new firmware.
    Restarting,
}

/// A packet-driven session, as a plain value.
pub struct OtaProgress {
    /// What the session is waiting for.
    pub stage: OtaStage,
    /// The bytes written since a transfer last began.
    pub flashed: Seq<u8>,
}

impl OtaProgress {
    /// This session, waiting for something else.
    pub open spec fn at(self, stage: OtaStage) -> OtaProgress {
        OtaProgress { stage, ..self }
    }

    /// The byte count of the session is the number of bytes that are on flash.
    pub open spec fn wf(self) -> bool {
        match self.stage {
            OtaStage::Ready(Standing::Writing(w)) | OtaStage::Opening(_, Standing::Writing(w)) => {
                &&& w.wf()
                &&& w.received == self.flashed.len()
            },
            OtaStage::Flashing(w, chunk, rest) => {
                &&& w.wf()
                &&& w.received == self.flashed.len()
                &&& 0 < chunk.len()
                &&& w.received + chunk.len() <= u32::MAX
                &&& w.chunk_size > 0 ==> w.received + chunk.len() <= w.total
                &&& w.chunk_size == 0 ==> rest.len() == 0
            },
            OtaStage::Ending(w) | OtaStage::Activating(w) => {
                &&& w.received == w.total
                &&& w.received == self.flashed.len()
            },
            _ => true,
        }
    }

    /// A packet may be handled now. Without an announced chunk size a package
    /// is flashed whole, so its end must be a valid offset.
    pub open spec fn admits_packet(self, payload: Seq<u8>) -> bool {
        self.stage matches OtaStage::Ready(standing) && (standing matches Standing::Writing(w)
            ==> (payload.len() > 5 && payload[0] == OTA_CMD_DATA && bytes::little_endian(
            payload.skip(1).take(4),
        ) == w.received ==> w.has_room((payload.len() - 5) as nat)))
    }

    /// `event` is what the session is waiting for.
    pub open spec fn admits(self, event: Event) -> bool {
        match event {
            Event::Received(_) => false,
            Event::Opened(_) => self.stage is Opening,
            Event::Written(_) => self.stage is Flashing,
            Event::Ended(_) => self.stage is Ending,
            Event::Activated(_) => self.stage is Activating,
        }
    }

    /// The session is abandoned, along with the announced chunk size.
    pub open spec fn aborting(self) -> (OtaProgress, Order) {
        (self.at(OtaStage::Ready(Standing::Idle(0))), Order::Receive)
    }

    /// Go on with the bytes of a package that are not flashed yet.
    pub open spec fn flashing(self, w: Writer, rest: Seq<u8>) -> (OtaProgress, Order) {
        match w.cut(rest.len()) {
            writer::Cut::Done => (
                self.at(OtaStage::Ready(Standing::Writing(w))),
                Order::Receive,
            ),
            writer::Cut::Chunk(n) => (
                self.at(OtaStage::Flashing(w, rest.take(n as int), rest.skip(n as int))),
                Order::Write(rest.take(n as int)),
            ),
            writer::Cut::Short(_, _) => self.aborting(),
        }
    }

    /// A data packet, without its selector: the offset of the package, then its
    /// bytes.
    pub open spec fn taking_data(self, standing: Standing, data: Seq<u8>) -> (OtaProgress, Order) {
        match standing {
            Standing::Idle(_) => (self, Order::Receive),
            Standing::Writing(w) => if data.len() < 5 || bytes::little_endian(data.take(4))
                != w.received {
                self.aborting()
            } else {
                let raw = data.skip(4);
                self.flashing(
                    w,
                    raw.take(writer::kept(w.remaining(), w.chunk_size as nat, raw.len()) as int),
                )
            },
        }
    }

    /// The session after a packet, and what it asks for.
    pub open spec fn handling(self, payload: Seq<u8>) -> (OtaProgress, Order) {
        let standing = self.stage->Ready_0;
        let data = payload.skip(1);
        if payload.len() == 0 {
            (self, Order::Receive)
        } else if payload[0] == OTA_CMD_ANNOUNCE {
            (
                self.at(
                    OtaStage::Ready(
                        Standing::Idle(
                            if data.len() < 2 {
                                0
                            } else {
                                bytes::little_endian(data.take(2)) as u16
                            },
                        ),
                    ),
                ),
                Order::Receive,
            )
        } else if payload[0] == OTA_CMD_BEGIN && data.len() >= 4 {
            (
                self.at(OtaStage::Opening(bytes::little_endian(data.take(4)) as u32, standing)),
                Order::Open,
            )
        } else if payload[0] == OTA_CMD_DATA {
            self.taking_data(standing, data)
        } else if payload[0] == OTA_CMD_END {
            match standing {
                Standing::Idle(_) => (self, Order::Receive),
                Standing::Writing(w) => if w.received != w.total {
                    self.aborting()
                } else {
                    (self.at(OtaStage::Ending(w)), Order::End)
                },
            }
        } else {
            (self, Order::Receive)
        }
    }

    /// The session after the outcome of an action, and what it asks for next.
    pub open spec fn resuming(self, event: Event) -> (OtaProgress, Order) {
        match (self.stage, event) {
            (OtaStage::Opening(total, standing), Event::Opened(opening)) => if opening is Ready {
                (
                    OtaProgress {
                        stage: OtaStage::Ready(
                            Standing::Writing(
                                Writer {
                                    total,
                                    received: 0,
                                    chunk_size: match standing {
                                        Standing::Idle(chunk_size) => chunk_size,
                                        Standing::Writing(_) => 0,
                                    },
                                },
                            ),
                        ),
                        flashed: seq![],
                    },
                    Order::Receive,
                )
            } else {
                (self.at(OtaStage::Ready(standing)), Order::Receive)
            },
            (OtaStage::Flashing(w, chunk, rest), Event::Written(code)) => if code != 0 {
                self.aborting()
            } else {
                OtaProgress { flashed: self.flashed + chunk, ..self }.flashing(
                    w.advanced(chunk.len()),
                    rest,
                )
            },
            (OtaStage::Ending(w), Event::Ended(valid)) => if valid {
                (self.at(OtaStage::Activating(w)), Order::Activate)
            } else {
                self.aborting()
            },
            (OtaStage::Activating(w), Event::Activated(active)) => if active {
                (self.at(OtaStage::Restarting), Order::Restart)
            } else {
                self.aborting()
            },
            _ => (self, Order::Receive),
        }
    }
}

/// A packet keeps the byte count of a session the number of bytes on flash.
pub proof fn law_packet_keeps_count(session: OtaProgress, payload: Seq<u8>)
    requires
        session.wf(),
        session.admits_packet(payload),
    ensures
        session.handling(payload).0.wf(),
{
}

/// The outcome of an action keeps the byte count of a session the number of
/// bytes on flash.
pub proof fn law_outcome_keeps_count(session: OtaProgress, event: Event)
    requires
        session.wf(),
        session.admits(event),
    ensures
        session.resuming(event).0.wf(),
{
}

/// New firmware is booted only when every byte of the image is on flash.
pub proof fn law_only_a_complete_image_boots(session: OtaProgress, event: Event)
    requires
        session.wf(),
        session.admits(event),
        session.resuming(event).1 == Order::Restart,
    ensures
        session.stage matches OtaStage::Activating(w) && session.flashed.len() == w.total,
{
}

/// The packet does not contradict `image`: a transfer announces the image's
/// length, and a package that is next in line holds the image's bytes at its
/// offset. What stands behind the image's end is not said.
pub open spec fn sent_from(image: Seq<u8>, session: OtaProgress, payload: Seq<u8>) -> bool {
    let data = payload.skip(1);
    &&& payload.len() >= 5 && payload[0] == OTA_CMD_BEGIN ==> bytes::little_endian(data.take(4))
        == image.len()
    &&& payload.len() >= 6 && payload[0] == OTA_CMD_DATA ==> match session.stage {
        OtaStage::Ready(Standing::Writing(w)) => bytes::little_endian(data.take(4))
            == w.received ==> {
            let raw = data.skip(4);
            let n = writer::kept(w.remaining(), w.chunk_size as nat, raw.len());
            forall|i: int|
                #![trigger raw[i]]
                0 <= i < n && w.received + i < image.len() ==> raw[i] == image[w.received + i]
        },
        _ => true,
    }
}

/// What a transfer of `image` has on flash agrees with the image.
pub open spec fn holds_part_of(session: OtaProgress, standing: Standing, image: Seq<u8>) -> bool {
    standing matches Standing::Writing(w) ==> w.total == image.len() && laws::agree(
        session.flashed,
        image,
    )
}

/// The session is transferring `image`: what is on flash, and what is about to
/// be written behind it, agrees with the image.
pub open spec fn transfers(session: OtaProgress, image: Seq<u8>) -> bool {
    match session.stage {
        OtaStage::Ready(standing) => holds_part_of(session, standing, image),
        OtaStage::Opening(total, standing) => {
            &&& total == image.len()
            &&& holds_part_of(session, standing, image)
        },
        OtaStage::Flashing(w, chunk, rest) => {
            &&& w.total == image.len()
            &&& laws::agree(session.flashed + chunk + rest, image)
        },
        OtaStage::Ending(w) | OtaStage::Activating(w) => {
            &&& w.total == image.len()
            &&& laws::agree(session.flashed, image)
        },
        OtaStage::Restarting => true,
    }
}

/// A packet that was sent from the image keeps the transfer to it.
pub proof fn law_packet_keeps_to_the_image(session: OtaProgress, payload: Seq<u8>, image: Seq<u8>)
    requires
        session.wf(),
        session.admits_packet(payload),
        transfers(session, image),
        sent_from(image, session, payload),
    ensures
        transfers(session.handling(payload).0, image),
{
    let next = session.handling(payload).0;
    if payload.len() >= 5 {
        reveal_with_fuel(bytes::little_endian, 5);
        assert(bytes::little_endian(payload.skip(1).take(4)) <= u32::MAX);
    }
    if let OtaStage::Ready(Standing::Writing(w)) = session.stage {
        if let OtaStage::Flashing(_, chunk, rest) = next.stage {
            let raw = payload.skip(1).skip(4);
            let n = writer::kept(w.remaining(), w.chunk_size as nat, raw.len());
            let kept = raw.take(n as int);
            assert(chunk + rest == kept);
            assert(session.flashed + chunk + rest == session.flashed + kept);
            assert forall|i: int|
                0 <= i < (session.flashed + kept).len() && i < image.len() implies (
            session.flashed + kept)[i] == image[i] by {
                if i >= session.flashed.len() {
                    let k = i - session.flashed.len();
                    assert(raw[k] == image[w.received + k]);
                }
            }
        }
    }
}

/// The outcome of an action keeps the transfer to the image, and the new
/// firmware boots only if the image is on flash, whole.
pub proof fn law_only_the_sent_image_boots(session: OtaProgress, event: Event, image: Seq<u8>)
    requires
        session.wf(),
        session.admits(event),
        transfers(session, image),
    ensures
        transfers(session.resuming(event).0, image),
        session.resuming(event).1 == Order::Restart ==> session.flashed == image,
{
    let (next, order) = session.resuming(event);
    match session.stage {
        OtaStage::Flashing(w, chunk, rest) => {
            let done = session.flashed + chunk;
            assert forall|i: int| 0 <= i < done.len() && i < image.len() implies done[i]
                == image[i] by {
                assert((done + rest)[i] == done[i]);
            }
            if let OtaStage::Flashing(_, chunk2, rest2) = next.stage {
                assert(chunk2 + rest2 == rest);
                assert(done + chunk2 + rest2 == done + rest);
            }
        },
        OtaStage::Activating(w) => {
            if order == Order::Restart {
                assert(session.flashed =~= image);
            }
        },
        _ => {},
    }
}

/// What happens to a session.
pub enum Input {
    /// A packet arrived.
    Packet(Seq<u8>),
    /// An action was performed, with this outcome.
    Outcome(Event),
}

/// The session after a run of inputs.
pub open spec fn run(session: OtaProgress, inputs: Seq<Input>) -> OtaProgress
    decreases inputs.len(),
{
    if inputs.len() == 0 {
        session
    } else {
        let before = run(session, inputs.drop_last());
        match inputs.last() {
            Input::Packet(payload) => before.handling(payload).0,
            Input::Outcome(event) => before.resuming(event).0,
        }
    }
}

/// Every input of the run comes when the session is waiting for it, and no
/// packet contradicts `image`.
pub open spec fn is_transfer(image: Seq<u8>, session: OtaProgress, inputs: Seq<Input>) -> bool
    decreases inputs.len(),
{
    inputs.len() > 0 ==> {
        let before = run(session, inputs.drop_last());
        &&& is_transfer(image, session, inputs.drop_last())
        &&& match inputs.last() {
            Input::Packet(payload) => before.admits_packet(payload) && sent_from(
                image,
                before,
                payload,
            ),
            Input::Outcome(event) => before.admits(event),
        }
    }
}

/// A session with nothing announced.
pub open spec fn fresh() -> OtaProgress {
    OtaProgress { stage: OtaStage::Ready(Standing::Idle(0)), flashed: Seq::empty() }
}

proof fn lemma_transfer(image: Seq<u8>, inputs: Seq<Input>)
    requires
        is_transfer(image, fresh(), inputs),
    ensures
        run(fresh(), inputs).wf(),
        transfers(run(fresh(), inputs), image),
    decreases inputs.len(),
{
    if inputs.len() > 0 {
        lemma_transfer(image, inputs.drop_last());
        let before = run(fresh(), inputs.drop_last());
        match inputs.last() {
            Input::Packet(payload) => {
                law_packet_keeps_count(before, payload);
                law_packet_keeps_to_the_image(before, payload, image);
            },
            Input::Outcome(event) => {
                law_outcome_keeps_count(before, event);
                law_only_the_sent_image_boots(before, event, image);
            },
        }
    }
}

/// Through a whole session, however often packets are refused, repeated or
/// announced anew: when it ends in a restart, flash holds exactly the image
/// that was sent.
pub proof fn law_restart_installs_the_image(image: Seq<u8>, inputs: Seq<Input>, last: Event)
    requires
        is_transfer(image, fresh(), inputs.push(Input::Outcome(last))),
        run(fresh(), inputs).resuming(last).1 == Order::Restart,
    ensures
        run(fresh(), inputs).flashed == image,
{
    let all = inputs.push(Input::Outcome(last));
    assert(all.drop_last() == inputs);
    lemma_transfer(image, inputs);
    law_only_the_sent_image_boots(run(fresh(), inputs), last, image);
}

/// Whatever goes wrong while packages are written or the image is validated
/// leaves the session idle, with nothing announced.
pub proof fn law_failures_abort(session: OtaProgress, event: Event)
    requires
        session.admits(event),
        match event {
            Event::Written(code) => code != 0,
            Event::Ended(valid) => !valid,
            Event::Activated(active) => !active,
            _ => false,
        },
    ensures
        session.resuming(event) == (
            session.at(OtaStage::Ready(Standing::Idle(0))),
            Order::Receive,
        ),
{
}

enum Phase {
    Ready(Standing),
    Opening(u32, Standing),
    // The bytes `start..end` of `payload` are being written.
    Flashing { writer: Writer, payload: Vec<u8>, start: usize, end: usize },
    Ending(Writer),
    Activating(Writer),
    Restarting,
}

/// A packet-driven firmware update session.
pub struct OtaState {
    phase: Phase,
    flashed: Ghost<Seq<u8>>,
}

impl View for OtaState {
    type V = OtaProgress;

    closed spec fn view(&self) -> OtaProgress {
        OtaProgress {
            stage: match self.phase {
                Phase::Ready(standing) => OtaStage::Ready(standing),
                Phase::Opening(total, standing) => OtaStage::Opening(total, standing),
                Phase::Flashing { writer, payload, start, end } => OtaStage::Flashing(
                    writer,
                    payload@.subrange(start as int, end as int),
                    payload@.skip(end as int),
                ),
                Phase::Ending(writer) => OtaStage::Ending(writer),
                Phase::Activating(writer) => OtaStage::Activating(writer),
                Phase::Restarting => OtaStage::Restarting,
            },
            flashed: self.flashed@,
        }
    }
}

impl OtaState {
    closed spec fn inv(self) -> bool {
        self.phase matches Phase::Flashing { payload, start, end, .. } ==> start <= end
            <= payload@.len()
    }

    /// The session keeps count of what is on flash.
    pub closed spec fn wf(self) -> bool {
        self.inv() && self@.wf()
    }

    /// A session with nothing announced.
    pub fn new() -> (state: Self)
        ensures
            state.wf(),
            state@ == fresh(),
    {
        OtaState { phase: Phase::Ready(Standing::Idle(0)), flashed: Ghost(Seq::empty()) }
    }

    fn abort(&mut self) -> (action: Action)
        ensures
            final(self).inv(),
            (final(self)@, action@) == old(self)@.aborting(),
    {
        self.phase = Phase::Ready(Standing::Idle(0));
        Action::Receive
    }

    fn flash(&mut self, writer: Writer, payload: Vec<u8>, start: usize) -> (action: Action)
        requires
            start <= payload@.len(),
            writer.wf(),
            writer.has_room((payload@.len() - start) as nat),
        ensures
            final(self).inv(),
            (final(self)@, action@) == old(self)@.flashing(writer, payload@.skip(start as int)),
    {
        let ghost rest = payload@.skip(start as int);
        match writer.next_chunk(payload.len() - start) {
            Err(_) => self.abort(),
            Ok(None) => {
                self.phase = Phase::Ready(Standing::Writing(writer));
                Action::Receive
            },
            Ok(Some(n)) => {
                let end: usize = start + n;
                let chunk = vstd::slice::slice_to_vec(
                    vstd::slice::slice_subrange(payload.as_slice(), start, end),
                );
                assert(chunk@ == rest.take(n as int));
                assert(payload@.skip(end as int) == rest.skip(n as int));
                self.phase = Phase::Flashing { writer, payload, start, end };
                Action::Write(chunk)
            },
        }
    }

    fn cmd_announce(&mut self, data: &[u8]) -> (action: Action)
        ensures
            final(self).inv(),
            action is Receive,
            final(self)@ == old(self)@.at(
                OtaStage::Ready(
                    Standing::Idle(
                        if data@.len() < 2 {
                            0
                        } else {
                            bytes::little_endian(data@.take(2)) as u16
                        },
                    ),
                ),
            ),
    {
        let chunk_size: u16 = if data.len() >= 2 {
            assert(data@.subrange(0, 2) == data@.take(2));
            bytes::read_u16_le(data, 0)
        } else {
            0
        };
        self.phase = Phase::Ready(Standing::Idle(chunk_size));
        Action::Receive
    }

    fn cmd_begin(&mut self, standing: Standing, data: &[u8]) -> (action: Action)
        requires
            old(self)@.stage == OtaStage::Ready(standing),
        ensures
            final(self).inv(),
            data@.len() < 4 ==> action is Receive && final(self)@ == old(self)@,
            data@.len() >= 4 ==> action is Open && final(self)@ == old(self)@.at(
                OtaStage::Opening(bytes::little_endian(data@.take(4)) as u32, standing),
            ),
    {
        if data.len() < 4 {
            return Action::Receive;
        }
        assert(data@.subrange(0, 4) == data@.take(4));
        self.phase = Phase::Opening(bytes::read_u32_le(data, 0), standing);
        Action::Open
    }

    fn cmd_data(&mut self, standing: Standing, data: &[u8]) -> (action: Action)
        requires
            old(self).wf(),
            old(self)@.stage == OtaStage::Ready(standing),
            standing matches Standing::Writing(w) ==> (data@.len() >= 5 && bytes::little_endian(
                data@.take(4),
            ) == w.received ==> w.has_room((data@.len() - 4) as nat)),
        ensures
            final(self).inv(),
            (final(self)@, action@) == old(self)@.taking_data(standing, data@),
    {
        let Standing::Writing(writer) = standing else {
            return Action::Receive;
        };
        if data.len() < 5 {
            return self.abort();
        }
        assert(data@.subrange(0, 4) == data@.take(4));
        let offset = bytes::read_u32_le(data, 0);
        if offset != writer.received {
            return self.abort();
        }
        let raw = vstd::slice::slice_subrange(data, 4, data.len());
        assert(raw@ == data@.skip(4));
        let payload = vstd::slice::slice_to_vec(writer.strip_relay_overhead(raw));
        assert(payload@.skip(0) == payload@);
        self.flash(writer, payload, 0)
    }

    fn cmd_end(&mut self, standing: Standing) -> (action: Action)
        requires
            old(self)@.stage == OtaStage::Ready(standing),
        ensures
            final(self).inv(),
            (final(self)@, action@) == match standing {
                Standing::Idle(_) => (old(self)@, Order::Receive),
                Standing::Writing(w) => if w.received != w.total {
                    old(self)@.aborting()
                } else {
                    (old(self)@.at(OtaStage::Ending(w)), Order::End)
                },
            },
    {
        let Standing::Writing(writer) = standing else {
            return Action::Receive;
        };
        if writer.received != writer.total {
            return self.abort();
        }
        self.phase = Phase::Ending(writer);
        Action::End
    }

    /// Whether a packet can be handled now.
    pub fn accepts_packet(&self, payload: &[u8]) -> (accepted: bool)
        ensures
            accepted == self@.admits_packet(payload@),
    {
        match &self.phase {
            Phase::Ready(Standing::Writing(writer)) => {
                if payload.len() > 5 && payload[0] == OTA_CMD_DATA {
                    assert(payload@.skip(1).take(4) == payload@.subrange(1, 5));
                    let offset: u32 = bytes::read_u32_le(payload, 1);
                    offset != writer.received || writer.is_room_for(payload.len() - 5)
                } else {
                    true
                }
            },
            Phase::Ready(Standing::Idle(_)) => true,
            _ => false,
        }
    }

    /// Whether the session is waiting for such an outcome.
    pub fn accepts(&self, event: &Event) -> (accepted: bool)
        ensures
            accepted == self@.admits(*event),
    {
        match (&self.phase, event) {
            (Phase::Opening(_, _), Event::Opened(_)) => true,
            (Phase::Flashing { .. }, Event::Written(_)) => true,
            (Phase::Ending(_), Event::Ended(_)) => true,
            (Phase::Activating(_), Event::Activated(_)) => true,
            _ => false,
        }
    }

    /// Handle one packet. An unknown or untimely command is ignored; a broken
    /// data package, or an end before every byte arrived, aborts the transfer.
    pub fn handle(&mut self, payload: &[u8]) -> (action: Action)
        requires
            old(self).wf(),
            old(self)@.admits_packet(payload@),
        ensures
            final(self).wf(),
            (final(self)@, action@) == old(self)@.handling(payload@),
    {
        proof {
            law_packet_keeps_count(old(self)@, payload@);
        }
        let Phase::Ready(standing) = self.phase else {
            return Action::Receive;
        };
        if payload.len() == 0 {
            return Action::Receive;
        }
        let selector = payload[0];
        let data = vstd::slice::slice_subrange(payload, 1, payload.len());
        assert(data@ == payload@.skip(1));
        if selector == OTA_CMD_ANNOUNCE {
            self.cmd_announce(data)
        } else if selector == OTA_CMD_BEGIN {
            self.cmd_begin(standing, data)
        } else if selector == OTA_CMD_DATA {
            self.cmd_data(standing, data)
        } else if selector == OTA_CMD_END {
            self.cmd_end(standing)
        } else {
            Action::Receive
        }
    }

    /// Take in the outcome of the action that was asked for last.
    pub fn resume(&mut self, event: Event) -> (action: Action)
        requires
            old(self).wf(),
            old(self)@.admits(event),
        ensures
            final(self).wf(),
            (final(self)@, action@) == old(self)@.resuming(event),
    {
        proof {
            law_outcome_keeps_count(old(self)@, event);
        }
        let mut phase = Phase::Restarting;
        std::mem::swap(&mut phase, &mut self.phase);
        match (phase, event) {
            (Phase::Opening(total, standing), Event::Opened(Opening::Ready)) => {
                let chunk_size: u16 = match standing {
                    Standing::Idle(chunk_size) => chunk_size,
                    Standing::Writing(_) => 0,
                };
                self.phase = Phase::Ready(Standing::Writing(Writer::begin(total, chunk_size)));
                self.flashed = Ghost(Seq::empty());
                Action::Receive
            },
            (Phase::Opening(_, standing), Event::Opened(_)) => {
                self.phase = Phase::Ready(standing);
                Action::Receive
            },
            (Phase::Flashing { writer, payload, start, end }, Event::Written(code)) => {
                if code != 0 {
                    return self.abort();
                }
                let mut writer = writer;
                writer.advance(end - start);
                self.flashed = Ghost(
                    self.flashed@ + payload@.subrange(start as int, end as int),
                );
                self.flash(writer, payload, end)
            },
            (Phase::Ending(writer), Event::Ended(valid)) => {
                if valid {
                    self.phase = Phase::Activating(writer);
                    Action::Activate
                } else {
                    self.abort()
                }
            },
            (Phase::Activating(_), Event::Activated(active)) => {
                if active {
                    Action::Restart
                } else {
                    self.abort()
                }
            },
            _ => Action::Receive,
        }
    }
}

/// How what is left of a package is flashed: chunk by chunk, each as long as it
/// has to be, until the package or the image is at its end. A chunk that is too
/// short aborts the session.
pub open spec fn flashes_on(
    after: (OtaProgress, Order),
    session: OtaProgress,
    w: Writer,
    rest: Seq<u8>,
) -> bool {
    let missing = w.total - w.received;
    let want = if w.chunk_size == 0 {
        rest.len() as int
    } else if w.chunk_size as int <= missing {
        w.chunk_size as int
    } else {
        missing
    };
    &&& after.0.flashed == session.flashed
    &&& if rest.len() == 0 || missing <= 0 {
        after.1 == Order::Receive && after.0.stage == OtaStage::Ready(Standing::Writing(w))
    } else if rest.len() < want {
        after.1 == Order::Receive && after.0.stage == OtaStage::Ready(Standing::Idle(0))
    } else {
        &&& after.1 == Order::Write(rest.subrange(0, want))
        &&& after.0.stage == OtaStage::Flashing(
            w,
            rest.subrange(0, want),
            rest.subrange(want, rest.len() as int),
        )
    }
}

proof fn lemma_flashing(session: OtaProgress, w: Writer, rest: Seq<u8>)
    ensures
        flashes_on(session.flashing(w, rest), session, w, rest),
{
    writer::law_chunks_are_whole(w, rest.len());
    if w.cut(rest.len()) is Chunk {
        let n = w.cut(rest.len())->Chunk_0 as int;
        assert(rest.take(n) =~= rest.subrange(0, n));
        assert(rest.skip(n) =~= rest.subrange(n, rest.len() as int));
    }
}

/// A session is left as it is by a packet that is empty, unknown or starts an
/// image without its size, and by data and an end outside a transfer.
pub proof fn law_untimely_packets_are_ignored(session: OtaProgress, payload: Seq<u8>)
    requires
        session.stage is Ready,
        payload.len() > 0 ==> payload[0] > 3 || payload[0] == 1 && payload.len() < 5 || payload[0]
            >= 2 && session.stage->Ready_0 is Idle,
    ensures
        session.handling(payload) == (session, Order::Receive),
{
}

/// An announcement ends any transfer and sets the chunk size: the two bytes
/// behind the command, the least significant first, or none.
pub proof fn law_announcement_sets_the_chunk_size(session: OtaProgress, payload: Seq<u8>)
    requires
        session.stage is Ready,
        payload.len() > 0,
        payload[0] == 0,
    ensures
        session.handling(payload).1 == Order::Receive,
        session.handling(payload).0.flashed == session.flashed,
        session.handling(payload).0.stage == OtaStage::Ready(
            Standing::Idle(
                if payload.len() < 3 {
                    0
                } else {
                    (payload[1] + 256 * payload[2]) as u16
                },
            ),
        ),
{
    bytes::law_little_endian_weights(payload.skip(1), 0);
    if payload.len() >= 3 {
        assert(payload.skip(1).take(2) =~= payload.skip(1).subrange(0, 2));
    }
}

/// The start of an image opens a partition for as many bytes as the packet
/// tells. Once that is open nothing is flashed and all is missing; chunks are as
/// large as was announced, or of unknown size if a transfer was in progress. A
/// partition that does not open leaves everything as it was.
pub proof fn law_begin_starts_an_image(session: OtaProgress, payload: Seq<u8>)
    requires
        session.stage is Ready,
        payload.len() >= 5,
        payload[0] == 1,
    ensures
        ({
            let (opening, order) = session.handling(payload);
            let (ready, next_order) = opening.resuming(Event::Opened(Opening::Ready));
            let total = payload[1] + 256 * payload[2] + 65536 * payload[3] + 16777216 * payload[4];
            &&& order == Order::Open
            &&& opening.flashed == session.flashed
            &&& opening.stage == OtaStage::Opening(total as u32, session.stage->Ready_0)
            &&& next_order == Order::Receive
            &&& ready.flashed.len() == 0
            &&& ready.stage matches OtaStage::Ready(Standing::Writing(w)) && w.total == total
                && w.received == 0 && w.chunk_size == match session.stage->Ready_0 {
                Standing::Idle(chunk_size) => chunk_size,
                Standing::Writing(_) => 0,
            }
            &&& opening.resuming(Event::Opened(Opening::NoPartition)) == (session, Order::Receive)
            &&& opening.resuming(Event::Opened(Opening::Refused)) == (session, Order::Receive)
        }),
{
    bytes::law_little_endian_weights(payload.skip(1), 0);
    assert(payload.skip(1).take(4) =~= payload.skip(1).subrange(0, 4));
}

/// Data for the next place is flashed as it came, but for what was added to it
/// on the way: nothing is taken for that if the chunk size is unknown. Data for
/// another place, or none, aborts the session.
pub proof fn law_data_is_flashed_in_chunks(session: OtaProgress, payload: Seq<u8>)
    requires
        session.stage matches OtaStage::Ready(Standing::Writing(_)),
        payload.len() > 0,
        payload[0] == 2,
    ensures
        ({
            let w = session.stage->Ready_0->Writing_0;
            let after = session.handling(payload);
            let offset = payload[1] + 256 * payload[2] + 65536 * payload[3] + 16777216 * payload[4];
            if payload.len() < 6 || offset != w.received {
                &&& after.1 == Order::Receive
                &&& after.0.stage == OtaStage::Ready(Standing::Idle(0))
                &&& after.0.flashed == session.flashed
            } else {
                let data = payload.subrange(5, payload.len() as int);
                let n = writer::kept(w.remaining(), w.chunk_size as nat, data.len()) as int;
                &&& flashes_on(after, session, w, data.take(n))
                &&& w.chunk_size == 0 ==> flashes_on(after, session, w, data)
            }
        }),
{
    let w = session.stage->Ready_0->Writing_0;
    if payload.len() >= 6 {
        let data = payload.subrange(5, payload.len() as int);
        let n = writer::kept(w.remaining(), w.chunk_size as nat, data.len()) as int;
        bytes::law_little_endian_weights(payload.skip(1), 0);
        assert(payload.skip(1).take(4) =~= payload.skip(1).subrange(0, 4));
        assert(payload.skip(1).skip(4) =~= data);
        lemma_flashing(session, w, data.take(n));
        if w.chunk_size == 0 {
            assert(data.take(n) =~= data);
        }
    }
}

/// A chunk that was written is flashed, counted, and followed by the next one.
pub proof fn law_written_chunks_are_followed(session: OtaProgress)
    requires
        session.wf(),
        session.stage is Flashing,
    ensures
        session.stage matches OtaStage::Flashing(w, chunk, rest) && flashes_on(
            session.resuming(Event::Written(0)),
            (OtaProgress { stage: session.stage, flashed: session.flashed + chunk }),
            (Writer {
                total: w.total,
                received: (w.received + chunk.len()) as u32,
                chunk_size: w.chunk_size,
            }),
            rest,
        ),
{
    let w = session.stage->Flashing_0;
    let chunk = session.stage->Flashing_1;
    let flashed = OtaProgress { flashed: session.flashed + chunk, ..session };
    lemma_flashing(flashed, w.advanced(chunk.len()), session.stage->Flashing_2);
}

/// The end of an image is taken only if all of it was received, and aborts the
/// session otherwise. It is then checked, activated if it is sound, and started
/// if that succeeds.
pub proof fn law_end_checks_activates_and_restarts(session: OtaProgress, payload: Seq<u8>)
    requires
        session.stage matches OtaStage::Ready(Standing::Writing(_)),
        payload.len() > 0,
        payload[0] == 3,
    ensures
        ({
            let w = session.stage->Ready_0->Writing_0;
            let ending = session.handling(payload);
            let activating = ending.0.resuming(Event::Ended(true));
            let restarting = activating.0.resuming(Event::Activated(true));
            &&& ending.0.flashed == session.flashed
            &&& w.received != w.total ==> ending.1 == Order::Receive && ending.0.stage
                == OtaStage::Ready(Standing::Idle(0))
            &&& w.received == w.total ==> {
                &&& ending.1 == Order::End
                &&& ending.0.stage == OtaStage::Ending(w)
                &&& activating.1 == Order::Activate
                &&& activating.0.stage == OtaStage::Activating(w)
                &&& activating.0.flashed == session.flashed
                &&& restarting.1 == Order::Restart
                &&& restarting.0.stage == OtaStage::Restarting
                &&& restarting.0.flashed == session.flashed
            }
        }),
{
}

/// A session that is ready takes every packet, but for data that is too long to
/// count: that of a transfer in chunks of unknown size, with which more than 32
/// bits can tell would have been received. One that waits for an outcome takes
/// none.
pub proof fn law_ready_session_takes_packets(session: OtaProgress, payload: Seq<u8>)
    ensures
        session.admits_packet(payload) ==> session.stage is Ready,
        session.stage matches OtaStage::Ready(Standing::Idle(_)) ==> session.admits_packet(payload),
        session.stage matches OtaStage::Ready(Standing::Writing(w)) ==> {
            let offset = payload[1] + 256 * payload[2] + 65536 * payload[3] + 16777216 * payload[4];
            let too_long = payload.len() >= 6 && payload[0] == 2 && offset == w.received
                && w.chunk_size == 0 && w.received < w.total && w.received + payload.len() - 5
                > 0xFFFF_FFFF;
            session.admits_packet(payload) <==> !too_long
        },
{
    if payload.len() >= 6 {
        bytes::law_little_endian_weights(payload.skip(1), 0);
        assert(payload.skip(1).take(4) =~= payload.skip(1).subrange(0, 4));
    }
}

/// An outcome is taken exactly if it is the one that is awaited.
pub proof fn law_awaited_outcomes_are_taken(session: OtaProgress, event: Event)
    ensures
        session.admits(event) <==> {
            ||| event is Opened && session.stage is Opening
            ||| event is Written && session.stage is Flashing
            ||| event is Ended && session.stage is Ending
            ||| event is Activated && session.stage is Activating
        },
{
}

} // verus!
