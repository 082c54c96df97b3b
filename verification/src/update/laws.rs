//! What an update session promises as a whole: only a complete image is ever
//! booted, and it is the image that was sent.

use vstd::prelude::*;

use super::writer;
use super::{Event, Opening, Order, Progress, Stage, UpdateState, Writer};
use crate::error::Error;
use crate::link::command::{Command, Request};

verus! {

/// Whatever happens, the byte count of a session stays the number of bytes on
/// flash.
pub proof fn law_step_keeps_count(session: Progress, event: Event)
    requires
        session.wf(),
        session.admits(event),
    ensures
        session.step(event).0.wf(),
{
}

/// A request for images leaves a session as it was.
pub proof fn law_sstv_is_ignored(session: Progress)
    requires
        session.stage is Listening,
        !session.is_over(),
    ensures
        session.step(Event::Received(Ok(Some(Command::Sstv)))) == (session, Order::Receive),
{
}

/// A new announcement abandons the transfer in progress: the session waits for
/// a transfer to begin, with the new chunk size.
pub proof fn law_announcement_starts_over(session: Progress, chunk_size: u16)
    requires
        session.stage is Listening,
        !session.is_over(),
    ensures
        ({
            let (next, order) = session.step(
                Event::Received(Ok(Some(Command::UpdateAnnounced(chunk_size)))),
            );
            &&& order == Order::Receive
            &&& next.stage == Progress::announced(chunk_size).stage
            &&& next.chunk_size == chunk_size
        }),
{
}

/// Where two byte strings overlap, they agree.
pub open spec fn agree(flashed: Seq<u8>, image: Seq<u8>) -> bool {
    forall|i: int| 0 <= i < flashed.len() && i < image.len() ==> flashed[i] == image[i]
}

/// The event does not contradict `image`: a transfer announces the image's
/// length, and a package that is next in line holds the image's bytes at its
/// offset. What stands behind the image's end is not said.
pub open spec fn sent_from(image: Seq<u8>, session: Progress, event: Event) -> bool {
    event matches Event::Received(Ok(Some(command))) ==> match command@ {
        Request::UpdateBegin(total) => total == image.len(),
        Request::UpdateData(offset, data) => match session.stage {
            Stage::Listening(UpdateState::InProgress(w)) => offset == w.received ==> {
                let n = writer::kept(w.remaining(), w.chunk_size as nat, data.len());
                forall|i: int|
                    #![trigger data[i]]
                    0 <= i < n && offset + i < image.len() ==> data[i] == image[offset + i]
            },
            _ => true,
        },
        _ => true,
    }
}

/// The session is transferring `image`: what is on flash, and what is about to
/// be written behind it, agrees with the image.
pub open spec fn transfers(session: Progress, image: Seq<u8>) -> bool {
    match session.stage {
        Stage::Listening(UpdateState::InProgress(w)) => {
            &&& w.total == image.len()
            &&& agree(session.flashed, image)
        },
        Stage::Opening(total) => total == image.len(),
        Stage::Flashing(w, chunk, rest) => {
            &&& w.total == image.len()
            &&& agree(session.flashed + chunk + rest, image)
        },
        Stage::Ending(w) | Stage::Activating(w) => {
            &&& w.total == image.len()
            &&& agree(session.flashed, image)
        },
        _ => true,
    }
}

/// One step of a transfer keeps to the image, and the new firmware boots only
/// if the image is on flash, whole.
pub proof fn law_only_the_sent_image_boots(session: Progress, event: Event, image: Seq<u8>)
    requires
        session.wf(),
        session.admits(event),
        transfers(session, image),
        sent_from(image, session, event),
    ensures
        transfers(session.step(event).0, image),
        session.step(event).1 == Order::Restart ==> session.flashed == image,
{
    let (next, order) = session.step(event);
    match session.stage {
        Stage::Listening(UpdateState::InProgress(w)) => {
            if let Event::Received(Ok(Some(command))) = event {
                if let Request::UpdateData(offset, data) = command@ {
                    let n = writer::kept(w.remaining(), w.chunk_size as nat, data.len());
                    let payload = data.take(n as int);
                    if let Stage::Flashing(_, chunk, rest) = next.stage {
                        assert(chunk + rest == payload);
                        assert(session.flashed + chunk + rest == session.flashed + payload);
                        assert forall|i: int|
                            0 <= i < (session.flashed + payload).len() && i
                                < image.len() implies (session.flashed + payload)[i]
                            == image[i] by {
                            if i >= session.flashed.len() {
                                let k = i - session.flashed.len();
                                assert(data[k] == image[offset + k]);
                            }
                        }
                    }
                }
            }
        },
        Stage::Flashing(w, chunk, rest) => {
            let done = session.flashed + chunk;
            assert forall|i: int| 0 <= i < done.len() && i < image.len() implies done[i]
                == image[i] by {
                assert((done + rest)[i] == done[i]);
            }
            if let Stage::Flashing(_, chunk2, rest2) = next.stage {
                assert(chunk2 + rest2 == rest);
                assert(done + chunk2 + rest2 == done + rest);
            }
        },
        Stage::Activating(w) => {
            assert(session.flashed.len() == image.len());
            if order == Order::Restart {
                assert(session.flashed =~= image);
            }
        },
        _ => {},
    }
}

/// The session after a run of events.
pub open spec fn run(session: Progress, events: Seq<Event>) -> Progress
    decreases events.len(),
{
    if events.len() == 0 {
        session
    } else {
        run(session, events.drop_last()).step(events.last()).0
    }
}

/// Every event of the run comes when the session is waiting for it, and none
/// contradicts `image`.
pub open spec fn is_transfer(image: Seq<u8>, session: Progress, events: Seq<Event>) -> bool
    decreases events.len(),
{
    events.len() > 0 ==> {
        let before = run(session, events.drop_last());
        &&& is_transfer(image, session, events.drop_last())
        &&& before.admits(events.last())
        &&& sent_from(image, before, events.last())
    }
}

proof fn lemma_transfer(chunk_size: u16, image: Seq<u8>, events: Seq<Event>)
    requires
        is_transfer(image, Progress::announced(chunk_size), events),
    ensures
        run(Progress::announced(chunk_size), events).wf(),
        transfers(run(Progress::announced(chunk_size), events), image),
    decreases events.len(),
{
    if events.len() > 0 {
        lemma_transfer(chunk_size, image, events.drop_last());
        let before = run(Progress::announced(chunk_size), events.drop_last());
        law_step_keeps_count(before, events.last());
        law_only_the_sent_image_boots(before, events.last(), image);
    }
}

/// Through a whole session, however often packages are refused, repeated or
/// announced anew: when it ends in a restart, flash holds exactly the image
/// that was sent.
pub proof fn law_restart_installs_the_image(
    chunk_size: u16,
    image: Seq<u8>,
    events: Seq<Event>,
    last: Event,
)
    requires
        is_transfer(image, Progress::announced(chunk_size), events.push(last)),
        run(Progress::announced(chunk_size), events).step(last).1 == Order::Restart,
    ensures
        run(Progress::announced(chunk_size), events).flashed == image,
{
    let all = events.push(last);
    assert(all.drop_last() == events);
    lemma_transfer(chunk_size, image, events);
    law_only_the_sent_image_boots(run(Progress::announced(chunk_size), events), last, image);
}

/// A package that holds the next chunk of the image, with or without relay
/// overhead behind it, is flashed: the session asks to write exactly the chunk
/// and, once it is written, counts it and waits for the next command.
pub proof fn law_next_chunk_is_flashed(
    session: Progress,
    command: Command,
    chunk: Seq<u8>,
    overhead: Seq<u8>,
)
    requires
        session.wf(),
        session.stage matches Stage::Listening(UpdateState::InProgress(w)) && {
            &&& 0 < w.chunk_size
            &&& w.received < w.total
            &&& chunk.len() == writer::least(w.remaining(), w.chunk_size as nat)
            &&& overhead.len() < w.chunk_size
            &&& command@ == Request::UpdateData(w.received, chunk + overhead)
        },
    ensures
        ({
            let (writing, order) = session.step(Event::Received(Ok(Some(command))));
            let (next, then_order) = writing.step(Event::Written(0));
            let w = session.stage->Listening_0->InProgress_0;
            &&& session.admits(Event::Received(Ok(Some(command))))
            &&& order == Order::Write(chunk)
            &&& writing.admits(Event::Written(0))
            &&& then_order == Order::Receive
            &&& next.flashed == session.flashed + chunk
            &&& next.stage == Stage::Listening(UpdateState::InProgress(w.advanced(chunk.len())))
        }),
{
    let w = session.stage->Listening_0->InProgress_0;
    let data = chunk + overhead;
    let n = writer::kept(w.remaining(), w.chunk_size as nat, data.len());
    if w.remaining() <= w.chunk_size {
        writer::law_final_overhead_is_stripped(
            w.remaining(),
            w.chunk_size as nat,
            overhead.len(),
        );
    } else {
        writer::law_overhead_is_stripped(
            w.remaining(),
            w.chunk_size as nat,
            1,
            overhead.len(),
        );
    }
    assert(n == chunk.len());
    assert(data.take(n as int) == chunk);
    assert(chunk.take(n as int) == chunk);
}

/// A session goes on as it is, but for its stage.
pub open spec fn goes_on(next: Progress, session: Progress, stage: Stage) -> bool {
    &&& next.stage == stage
    &&& next.chunk_size == session.chunk_size
    &&& next.flashed == session.flashed
}

/// A session ends with an error, and no more than was is flashed.
pub open spec fn ends(after: (Progress, Order), session: Progress, error: Error) -> bool {
    &&& after.1 == Order::Fail(error)
    &&& goes_on(after.0, session, Stage::Listening(UpdateState::Done))
}

/// A session that listens is ended by a link that fails, and not touched by one
/// that is silent.
pub proof fn law_silence_is_borne(session: Progress, error: Error)
    requires
        session.stage is Listening,
    ensures
        ends(session.step(Event::Received(Err(error))), session, error),
        session.step(Event::Received(Ok(None))) == (session, Order::Receive),
{
}

/// The start of an image opens a partition for it, at any time. Once that is
/// open nothing of the image is flashed, all of it is missing, and its chunks
/// are as large as was announced. Each way in which it can fail is an error of
/// its own.
pub proof fn law_begin_starts_an_image(session: Progress, total: u32)
    requires
        session.stage is Listening,
    ensures
        ({
            let (opening, order) = session.step(
                Event::Received(Ok(Some(Command::UpdateBegin(total)))),
            );
            let (ready, next_order) = opening.step(Event::Opened(Opening::Ready));
            &&& order == Order::Open
            &&& goes_on(opening, session, Stage::Opening(total))
            &&& next_order == Order::Receive
            &&& ready.flashed.len() == 0
            &&& ready.chunk_size == session.chunk_size
            &&& ready.stage matches Stage::Listening(UpdateState::InProgress(w)) && w.total == total
                && w.received == 0 && w.chunk_size == session.chunk_size
            &&& ends(
                opening.step(Event::Opened(Opening::NoPartition)),
                session,
                Error::UpdatePartition,
            )
            &&& ends(opening.step(Event::Opened(Opening::Refused)), session, Error::UpdateBegin)
        }),
{
}

/// Data and the end of an image are errors while none is being received.
pub proof fn law_nothing_to_go_on_with(session: Progress, command: Command)
    requires
        session.stage matches Stage::Listening(state) && !(state is InProgress),
        command is UpdateData || command is UpdateEnd,
    ensures
        ends(
            session.step(Event::Received(Ok(Some(command)))),
            session,
            Error::UpdateNotInProgress,
        ),
{
}

/// Data for another place than the next one is an error that tells both.
pub proof fn law_gaps_are_errors(session: Progress, offset: u32, command: Command)
    requires
        session.stage matches Stage::Listening(UpdateState::InProgress(w)) && w.received != offset,
        command@ matches Request::UpdateData(o, _) && o == offset,
    ensures
        ends(
            session.step(Event::Received(Ok(Some(command)))),
            session,
            Error::UpdatePackageOffset(
                session.stage->Listening_0->InProgress_0.received,
                offset,
            ),
        ),
{
}

/// How what is left of a package is flashed: chunk by chunk, each as long as it
/// has to be, until the package or the image is at its end. A chunk that is too
/// short is an error that tells where it was, how long and how long it had to
/// be.
pub open spec fn flashes_on(
    after: (Progress, Order),
    session: Progress,
    w: Writer,
    rest: Seq<u8>,
) -> bool {
    let missing = w.total - w.received;
    let want = if w.chunk_size == 0 {
        rest.len() as int
    } else if w.chunk_size as int <= missing {
        w.chunk_size as int
    } else {
        missing
    };
    if rest.len() == 0 || missing <= 0 {
        after.1 == Order::Receive && goes_on(
            after.0,
            session,
            Stage::Listening(UpdateState::InProgress(w)),
        )
    } else if rest.len() < want {
        ends(
            after,
            session,
            Error::UpdateChunkIncomplete(w.received, rest.len() as u32, want as u32),
        )
    } else {
        &&& after.1 == Order::Write(rest.subrange(0, want))
        &&& goes_on(
            after.0,
            session,
            Stage::Flashing(
                w,
                rest.subrange(0, want),
                rest.subrange(want, rest.len() as int),
            ),
        )
    }
}

/// Data for the next place is flashed as it came, but for what was added to it
/// on the way: nothing is taken for that if the chunk size is unknown.
pub proof fn law_data_is_flashed_in_chunks(session: Progress, command: Command, data: Seq<u8>)
    requires
        session.wf(),
        session.stage matches Stage::Listening(UpdateState::InProgress(w)) && command@
            == Request::UpdateData(w.received, data),
    ensures
        ({
            let w = session.stage->Listening_0->InProgress_0;
            let n = writer::kept(w.remaining(), w.chunk_size as nat, data.len()) as int;
            let after = session.step(Event::Received(Ok(Some(command))));
            &&& flashes_on(after, session, w, data.take(n))
            &&& w.chunk_size == 0 ==> flashes_on(after, session, w, data)
        }),
{
    let w = session.stage->Listening_0->InProgress_0;
    let n = writer::kept(w.remaining(), w.chunk_size as nat, data.len()) as int;
    lemma_flashing(session, w, data.take(n));
    if w.chunk_size == 0 {
        assert(data.take(n) =~= data);
    }
}

proof fn lemma_flashing(session: Progress, w: Writer, rest: Seq<u8>)
    ensures
        flashes_on(session.flashing(w, rest), session, w, rest),
{
    writer::law_chunks_are_whole(w, rest.len());
    if w.cut(rest.len()) is Chunk {
        let n = w.cut(rest.len())->Chunk_0 as int;
        assert(rest.take(n) =~= rest.subrange(0, n));
        assert(rest.skip(n) =~= rest.subrange(n, rest.len() as int));
    }
}

/// A chunk that was written is flashed, counted, and followed by the next one.
/// One that could not be written is an error that tells where it was and why.
pub proof fn law_written_chunks_are_followed(session: Progress, code: i32)
    requires
        session.wf(),
        session.stage is Flashing,
    ensures
        session.stage matches Stage::Flashing(w, chunk, rest) && {
            let after = session.step(Event::Written(code));
            &&& code != 0 ==> ends(after, session, Error::UpdateWrite(w.received, code))
            &&& code == 0 ==> flashes_on(
                after,
                Progress {
                    chunk_size: session.chunk_size,
                    stage: session.stage,
                    flashed: session.flashed + chunk,
                },
                Writer {
                    total: w.total,
                    received: (w.received + chunk.len()) as u32,
                    chunk_size: w.chunk_size,
                },
                rest,
            )
        },
{
    let w = session.stage->Flashing_0;
    let chunk = session.stage->Flashing_1;
    let flashed = Progress { flashed: session.flashed + chunk, ..session };
    lemma_flashing(flashed, w.advanced(chunk.len()), session.stage->Flashing_2);
}

/// The end of an image is taken only if all of it was received. It is then
/// checked, and activated if it is sound; the new firmware is started if that
/// succeeds. Each failure is an error, and no failure starts anything.
pub proof fn law_end_checks_activates_and_restarts(session: Progress)
    requires
        session.stage matches Stage::Listening(UpdateState::InProgress(_)),
    ensures
        ({
            let w = session.stage->Listening_0->InProgress_0;
            let ending = session.step(Event::Received(Ok(Some(Command::UpdateEnd))));
            let activating = ending.0.step(Event::Ended(true));
            let restarting = activating.0.step(Event::Activated(true));
            &&& w.received != w.total ==> ends(
                ending,
                session,
                Error::UpdateIncomplete(w.received, w.total),
            )
            &&& w.received == w.total ==> {
                &&& ending.1 == Order::End
                &&& goes_on(ending.0, session, Stage::Ending(w))
                &&& ends(ending.0.step(Event::Ended(false)), session, Error::UpdateCorrupt)
                &&& activating.1 == Order::Activate
                &&& goes_on(activating.0, session, Stage::Activating(w))
                &&& ends(activating.0.step(Event::Activated(false)), session, Error::UpdateCorrupt)
                &&& restarting.1 == Order::Restart
                &&& goes_on(restarting.0, session, Stage::Listening(UpdateState::Done))
            }
        }),
{
}

/// A new session waits for an image in chunks of the announced size, and nothing
/// is flashed.
pub proof fn law_announced_session_is_empty(chunk_size: u16)
    ensures
        Progress::announced(chunk_size).chunk_size == chunk_size,
        Progress::announced(chunk_size).flashed.len() == 0,
        Progress::announced(chunk_size).stage == Stage::Listening(UpdateState::Announced),
{
}

/// A session that listens takes whatever comes over the link, but for data that
/// is too long to count: that of an image in chunks of unknown size, with which
/// more than 32 bits can tell would have been received. One that is over takes
/// nothing.
pub proof fn law_listening_session_takes_commands(
    session: Progress,
    received: crate::error::Result<Option<Command>>,
)
    ensures
        session.admits(Event::Received(received)) ==> session.stage is Listening,
        session.stage == Stage::Listening(UpdateState::Done) ==> !session.admits(
            Event::Received(received),
        ),
        session.stage == Stage::Listening(UpdateState::Announced) ==> session.admits(
            Event::Received(received),
        ),
        session.stage matches Stage::Listening(UpdateState::InProgress(w)) ==> {
            let too_long = received matches Ok(Some(Command::UpdateData { offset, data }))
                && offset == w.received && w.chunk_size == 0 && w.received < w.total && w.received
                + data@.len() > 0xFFFF_FFFF;
            session.admits(Event::Received(received)) <==> !too_long
        },
{
}

/// An outcome is taken exactly if it is the one that is awaited.
pub proof fn law_awaited_outcomes_are_taken(session: Progress, event: Event)
    requires
        !(event is Received),
    ensures
        session.admits(event) <==> {
            ||| event is Opened && session.stage is Opening
            ||| event is Written && session.stage is Flashing
            ||| event is Ended && session.stage is Ending
            ||| event is Activated && session.stage is Activating
        },
{
}

} // verus!
