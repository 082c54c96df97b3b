//! Firmware update: receives the announced image chunk by chunk via the
//! payload link, writes it to the next update partition and reboots into it.
//!
//! The session is a state machine. [`update`] takes what happened last (an
//! [`Event`]) and says what to do next (an [`Action`]); the platform performs
//! the action and hands back its outcome.

pub mod laws;
pub mod writer;

use vstd::prelude::*;

use crate::error::{Error, Result};
use crate::link::command::{Command, Request};
pub use writer::Writer;

verus! {

/// Where an update session stands between two commands.
#[derive(Clone, Copy, Debug, PartialEq, Eq, Structural)]
pub enum UpdateState {
    /// Announced, but no transfer has begun.
    Announced,
    /// A transfer is in progress.
    InProgress(Writer),
    /// The session is over: it failed, or the new firmware is about to boot.
    Done,
}

/// How opening the next update partition went.
#[derive(Clone, Copy, Debug, PartialEq, Eq, Structural)]
pub enum Opening {
    /// The partition is open for writing from its start.
    Ready,
    /// There is no update partition.
    NoPartition,
    /// The partition could not be opened for writing.
    Refused,
}

/// The outcome of an [`Action`].
#[derive(Debug)]
pub enum Event {
    /// The link was polled for a command.
    Received(Result<Option<Command>>),
    /// The update partition was opened.
    Opened(Opening),
    /// A chunk was written, with this platform error code; zero is success.
    Written(i32),
    /// The written image was validated.
    Ended(bool),
    /// The written image was made the one to boot.
    Activated(bool),
}

/// What the platform is to do next.
#[derive(Debug)]
pub enum Action {
    /// Poll the link for a command.
    Receive,
    /// Open the next update partition for sequential writing.
    Open,
    /// Append these bytes to what was written since the partition was opened.
    Write(Vec<u8>),
    /// Close the partition and validate the image on it.
    End,
    /// Make the written image the one to boot.
    Activate,
    /// Boot the new image.
    Restart,
    /// Give up the session with this error.
    Fail(Error),
}

/// What an action asks for, as a plain value.
pub enum Order {
    /// See [`Action::Receive`].
    Receive,
    /// See [`Action::Open`].
    Open,
    /// See [`Action::Write`].
    Write(Seq<u8>),
    /// See [`Action::End`].
    End,
    /// See [`Action::Activate`].
    Activate,
    /// See [`Action::Restart`].
    Restart,
    /// See [`Action::Fail`].
    Fail(Error),
}

impl View for Action {
    type V = Order;

    open spec fn view(&self) -> Order {
        match *self {
            Action::Receive => Order::Receive,
            Action::Open => Order::Open,
            Action::Write(chunk) => Order::Write(chunk@),
            Action::End => Order::End,
            Action::Activate => Order::Activate,
            Action::Restart => Order::Restart,
            Action::Fail(e) => Order::Fail(e),
        }
    }
}

/// What a session is waiting for.
pub enum Stage {
    /// The next command.
    Listening(UpdateState),
    /// The partition for an image of this many bytes.
    Opening(u32),
    /// The verdict on the chunk being written; the bytes still to write follow
    /// it.
    Flashing(Writer, Seq<u8>, Seq<u8>),
    /// The verdict on the complete image.
    Ending(Writer),
    /// The verdict on booting the complete image.
    Activating(Writer),
}

/// A session, as a plain value.
pub struct Progress {
    /// The announced chunk size.
    pub chunk_size: u16,
    /// What the session is waiting for.
    pub stage: Stage,
    /// The bytes written since the partition was last opened.
    pub flashed: Seq<u8>,
}

impl Progress {
    /// A session that was just announced.
    pub open spec fn announced(chunk_size: u16) -> Progress {
        Progress {
            chunk_size,
            stage: Stage::Listening(UpdateState::Announced),
            flashed: seq![],
        }
    }

    /// This session, waiting for something else.
    pub open spec fn at(self, stage: Stage) -> Progress {
        Progress { stage, ..self }
    }

    /// The session is over.
    pub open spec fn is_over(self) -> bool {
        self.stage == Stage::Listening(UpdateState::Done)
    }

    /// The byte count of the session is the number of bytes that are on flash.
    pub open spec fn wf(self) -> bool {
        match self.stage {
            Stage::Listening(UpdateState::InProgress(w)) => {
                &&& w.wf()
                &&& w.received == self.flashed.len()
            },
            Stage::Flashing(w, chunk, rest) => {
                &&& w.wf()
                &&& w.received == self.flashed.len()
                &&& 0 < chunk.len()
                &&& w.received + chunk.len() <= u32::MAX
                &&& w.chunk_size > 0 ==> w.received + chunk.len() <= w.total
                &&& w.chunk_size == 0 ==> rest.len() == 0
            },
            Stage::Ending(w) | Stage::Activating(w) => {
                &&& w.received == w.total
                &&& w.received == self.flashed.len()
            },
            _ => true,
        }
    }

    /// `event` is what the session is waiting for. Without an announced chunk
    /// size a package is flashed whole, so its end must be a valid offset.
    pub open spec fn admits(self, event: Event) -> bool {
        match event {
            Event::Received(received) => match self.stage {
                Stage::Listening(UpdateState::InProgress(w)) => received matches Ok(
                    Some(Command::UpdateData { offset, data }),
                ) ==> (offset == w.received ==> w.has_room(data@.len())),
                Stage::Listening(state) => state !is Done,
                _ => false,
            },
            Event::Opened(_) => self.stage is Opening,
            Event::Written(_) => self.stage is Flashing,
            Event::Ended(_) => self.stage is Ending,
            Event::Activated(_) => self.stage is Activating,
        }
    }

    /// The session ends in failure.
    pub open spec fn failing(self, error: Error) -> (Progress, Order) {
        (self.at(Stage::Listening(UpdateState::Done)), Order::Fail(error))
    }

    /// Go on with the bytes of a package that are not flashed yet.
    pub open spec fn flashing(self, w: Writer, rest: Seq<u8>) -> (Progress, Order) {
        match w.cut(rest.len()) {
            writer::Cut::Done => (
                self.at(Stage::Listening(UpdateState::InProgress(w))),
                Order::Receive,
            ),
            writer::Cut::Chunk(n) => (
                self.at(Stage::Flashing(w, rest.take(n as int), rest.skip(n as int))),
                Order::Write(rest.take(n as int)),
            ),
            writer::Cut::Short(got, expected) => self.failing(
                Error::UpdateChunkIncomplete(w.received, got as u32, expected as u32),
            ),
        }
    }

    /// Execute one command. A new announcement abandons the transfer in
    /// progress; requests for images are ignored.
    pub open spec fn obeying(self, state: UpdateState, request: Request) -> (Progress, Order) {
        match request {
            Request::Sstv => (self, Order::Receive),
            Request::UpdateAnnounced(chunk_size) => (
                Progress { chunk_size, ..self.at(Stage::Listening(UpdateState::Announced)) },
                Order::Receive,
            ),
            Request::UpdateBegin(total) => (self.at(Stage::Opening(total)), Order::Open),
            Request::UpdateData(offset, data) => match state {
                UpdateState::InProgress(w) => if offset != w.received {
                    self.failing(Error::UpdatePackageOffset(w.received, offset))
                } else {
                    self.flashing(
                        w,
                        data.take(
                            writer::kept(w.remaining(), w.chunk_size as nat, data.len()) as int,
                        ),
                    )
                },
                _ => self.failing(Error::UpdateNotInProgress),
            },
            Request::UpdateEnd => match state {
                UpdateState::InProgress(w) => if w.received != w.total {
                    self.failing(Error::UpdateIncomplete(w.received, w.total))
                } else {
                    (self.at(Stage::Ending(w)), Order::End)
                },
                _ => self.failing(Error::UpdateNotInProgress),
            },
        }
    }

    /// The session after an event, and what it asks for next.
    pub open spec fn step(self, event: Event) -> (Progress, Order) {
        match (self.stage, event) {
            (Stage::Listening(state), Event::Received(received)) => match received {
                Err(e) => self.failing(e),
                Ok(None) => (self, Order::Receive),
                Ok(Some(command)) => self.obeying(state, command@),
            },
            (Stage::Opening(total), Event::Opened(opening)) => match opening {
                Opening::NoPartition => self.failing(Error::UpdatePartition),
                Opening::Refused => self.failing(Error::UpdateBegin),
                Opening::Ready => (
                    Progress {
                        flashed: seq![],
                        ..self.at(
                            Stage::Listening(
                                UpdateState::InProgress(
                                    Writer { total, received: 0, chunk_size: self.chunk_size },
                                ),
                            ),
                        )
                    },
                    Order::Receive,
                ),
            },
            (Stage::Flashing(w, chunk, rest), Event::Written(code)) => if code != 0 {
                self.failing(Error::UpdateWrite(w.received, code))
            } else {
                Progress { flashed: self.flashed + chunk, ..self }.flashing(
                    w.advanced(chunk.len()),
                    rest,
                )
            },
            (Stage::Ending(w), Event::Ended(valid)) => if valid {
                (self.at(Stage::Activating(w)), Order::Activate)
            } else {
                self.failing(Error::UpdateCorrupt)
            },
            (Stage::Activating(w), Event::Activated(active)) => if active {
                (self.at(Stage::Listening(UpdateState::Done)), Order::Restart)
            } else {
                self.failing(Error::UpdateCorrupt)
            },
            _ => (self, Order::Receive),
        }
    }
}

enum Phase {
    Listening(UpdateState),
    Opening(u32),
    // The bytes `start..end` of `payload` are being written.
    Flashing { writer: Writer, payload: Vec<u8>, start: usize, end: usize },
    Ending(Writer),
    Activating(Writer),
}

/// A firmware update session.
pub struct Session {
    chunk_size: u16,
    phase: Phase,
    flashed: Ghost<Seq<u8>>,
}

impl View for Session {
    type V = Progress;

    closed spec fn view(&self) -> Progress {
        Progress {
            chunk_size: self.chunk_size,
            stage: match self.phase {
                Phase::Listening(state) => Stage::Listening(state),
                Phase::Opening(total) => Stage::Opening(total),
                Phase::Flashing { writer, payload, start, end } => Stage::Flashing(
                    writer,
                    payload@.subrange(start as int, end as int),
                    payload@.skip(end as int),
                ),
                Phase::Ending(writer) => Stage::Ending(writer),
                Phase::Activating(writer) => Stage::Activating(writer),
            },
            flashed: self.flashed@,
        }
    }
}

impl Session {
    closed spec fn inv(self) -> bool {
        self.phase matches Phase::Flashing { payload, start, end, .. } ==> start <= end
            <= payload@.len()
    }

    /// The session keeps count of what is on flash.
    pub closed spec fn wf(self) -> bool {
        self.inv() && self@.wf()
    }

    /// The byte count of a session is the number of bytes that are on flash.
    pub proof fn law_count_is_what_is_flashed(self)
        requires
            self.wf(),
        ensures
            self@.wf(),
    {
    }

    /// A session announced with the given chunk size, waiting for a command.
    pub fn announced(chunk_size: u16) -> (session: Self)
        ensures
            session.wf(),
            session@ == Progress::announced(chunk_size),
    {
        Session {
            chunk_size,
            phase: Phase::Listening(UpdateState::Announced),
            flashed: Ghost(Seq::empty()),
        }
    }

    /// Whether the session is waiting for such an event, and can take it in.
    pub fn accepts(&self, event: &Event) -> (accepted: bool)
        ensures
            accepted == self@.admits(*event),
    {
        match (&self.phase, event) {
            (
                Phase::Listening(UpdateState::InProgress(writer)),
                Event::Received(Ok(Some(Command::UpdateData { offset, data }))),
            ) => *offset != writer.received || writer.is_room_for(data.len()),
            (Phase::Listening(UpdateState::InProgress(_)), Event::Received(_)) => true,
            (Phase::Listening(UpdateState::Announced), Event::Received(_)) => true,
            (Phase::Opening(_), Event::Opened(_)) => true,
            (Phase::Flashing { .. }, Event::Written(_)) => true,
            (Phase::Ending(_), Event::Ended(_)) => true,
            (Phase::Activating(_), Event::Activated(_)) => true,
            _ => false,
        }
    }

    fn fail(&mut self, error: Error) -> (action: Action)
        ensures
            final(self).inv(),
            (final(self)@, action@) == old(self)@.failing(error),
    {
        self.phase = Phase::Listening(UpdateState::Done);
        Action::Fail(error)
    }

    fn flash(&mut self, writer: Writer, payload: Vec<u8>, start: usize) -> (action: Action)
        requires
            start <= payload@.len(),
            writer.wf(),
            writer.has_room((payload@.len() - start) as nat),
        ensures
            final(self).inv(),
            (final(self)@, action@) == old(self)@.flashing(writer, payload@.skip(start as int)),
    {
        let ghost rest = payload@.skip(start as int);
        match writer.next_chunk(payload.len() - start) {
            Err(e) => self.fail(e),
            Ok(None) => {
                self.phase = Phase::Listening(UpdateState::InProgress(writer));
                Action::Receive
            },
            Ok(Some(n)) => {
                let end: usize = start + n;
                let chunk = vstd::slice::slice_to_vec(
                    vstd::slice::slice_subrange(payload.as_slice(), start, end),
                );
                assert(chunk@ == rest.take(n as int));
                assert(payload@.skip(end as int) == rest.skip(n as int));
                self.phase = Phase::Flashing { writer, payload, start, end };
                Action::Write(chunk)
            },
        }
    }

    fn obey(&mut self, state: UpdateState, command: Command) -> (action: Action)
        requires
            old(self).wf(),
            old(self)@.stage == Stage::Listening(state),
            old(self)@.admits(Event::Received(Ok(Some(command)))),
        ensures
            final(self).inv(),
            (final(self)@, action@) == old(self)@.obeying(state, command@),
    {
        match command {
            Command::Sstv => Action::Receive,
            Command::UpdateAnnounced(chunk_size) => {
                self.chunk_size = chunk_size;
                self.phase = Phase::Listening(UpdateState::Announced);
                Action::Receive
            },
            Command::UpdateBegin(total) => {
                self.phase = Phase::Opening(total);
                Action::Open
            },
            Command::UpdateData { offset, data } => {
                let UpdateState::InProgress(writer) = state else {
                    return self.fail(Error::UpdateNotInProgress);
                };
                if offset != writer.received {
                    return self.fail(Error::UpdatePackageOffset(writer.received, offset));
                }
                let payload = vstd::slice::slice_to_vec(
                    writer.strip_relay_overhead(data.as_slice()),
                );
                assert(payload@.skip(0) == payload@);
                self.flash(writer, payload, 0)
            },
            Command::UpdateEnd => {
                let UpdateState::InProgress(writer) = state else {
                    return self.fail(Error::UpdateNotInProgress);
                };
                if writer.received != writer.total {
                    return self.fail(Error::UpdateIncomplete(writer.received, writer.total));
                }
                self.phase = Phase::Ending(writer);
                Action::End
            },
        }
    }
}

/// Run one step of a firmware update session: take in what happened, say what
/// to do next. The session goes on until the transfer completes (which reboots
/// into the new firmware) or fails.
pub fn update(session: &mut Session, event: Event) -> (action: Action)
    requires
        old(session).wf(),
        old(session)@.admits(event),
    ensures
        final(session).wf(),
        (final(session)@, action@) == old(session)@.step(event),
{
    proof {
        laws::law_step_keeps_count(old(session)@, event);
    }
    let mut phase = Phase::Listening(UpdateState::Done);
    std::mem::swap(&mut phase, &mut session.phase);
    match (phase, event) {
        (Phase::Listening(state), Event::Received(received)) => {
            session.phase = Phase::Listening(state);
            match received {
                Err(e) => session.fail(e),
                Ok(None) => Action::Receive,
                Ok(Some(command)) => session.obey(state, command),
            }
        },
        (Phase::Opening(total), Event::Opened(opening)) => match opening {
            Opening::NoPartition => session.fail(Error::UpdatePartition),
            Opening::Refused => session.fail(Error::UpdateBegin),
            Opening::Ready => {
                let writer = Writer::begin(total, session.chunk_size);
                session.phase = Phase::Listening(UpdateState::InProgress(writer));
                session.flashed = Ghost(Seq::empty());
                Action::Receive
            },
        },
        (Phase::Flashing { writer, payload, start, end }, Event::Written(code)) => {
            if code != 0 {
                return session.fail(Error::UpdateWrite(writer.received, code));
            }
            let mut writer = writer;
            writer.advance(end - start);
            session.flashed = Ghost(
                session.flashed@ + payload@.subrange(start as int, end as int),
            );
            session.flash(writer, payload, end)
        },
        (Phase::Ending(writer), Event::Ended(valid)) => {
            if valid {
                session.phase = Phase::Activating(writer);
                Action::Activate
            } else {
                session.fail(Error::UpdateCorrupt)
            }
        },
        (Phase::Activating(_), Event::Activated(active)) => {
            if active {
                Action::Restart
            } else {
                session.fail(Error::UpdateCorrupt)
            }
        },
        _ => Action::Receive,
    }
}

} // verus!
