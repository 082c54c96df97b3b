//! The beacon's main loop: wait for commands on the payload link and service
//! them (capture-and-transmit SSTV on request, and apply firmware updates).
//!
//! [`next_task`] polls the link once; the loop around it, and the update
//! session, belong to the platform.

use vstd::prelude::*;

use crate::audio::{AudioCall, AudioChannel};
use crate::camera::{Camera, Picture};
use crate::error;
use crate::error::{ReportIfErr, Result};
use crate::link::{Command, CommandLink, LinkCall, Message};
use crate::pacing::Sleeper;
use crate::timeline::{Step, Timeline};
use crate::transmit_sstv;

verus! {

/// What the main loop has to do next.
#[derive(Clone, Copy, Debug, PartialEq, Eq, Structural)]
pub enum Task {
    /// Nothing: no command, one that means nothing while idle, or a link error
    /// that was reported.
    Nothing,
    /// Capture and transmit one image per camera.
    Transmit,
    /// Run a firmware update session with this chunk size.
    Update(u16),
}

/// The task that the outcome of a poll calls for.
pub open spec fn task_for(received: Result<Option<Command>>) -> Task {
    match received {
        Ok(Some(Command::Sstv)) => Task::Transmit,
        Ok(Some(Command::UpdateAnnounced(chunk_size))) => Task::Update(chunk_size),
        _ => Task::Nothing,
    }
}

/// Poll the link once. A link error is downlinked rather than propagated.
pub fn next_task<L: CommandLink>(link: &mut L) -> (task: Task)
    ensures
        final(link).calls().len() > old(link).calls().len(),
        final(link).calls()[old(link).calls().len() as int] matches LinkCall::Received(received) && {
            &&& final(link).calls() == old(link).calls().push(LinkCall::Received(received))
                + error::report(received)
            &&& task == task_for(received)
        },
{
    match link.receive().report_if_err(link) {
        Ok(Some(Command::Sstv)) => Task::Transmit,
        Ok(Some(Command::UpdateAnnounced(chunk_size))) => Task::Update(chunk_size),
        _ => Task::Nothing,
    }
}

/// What reporting a result adds to a timeline: the error, if it is one.
pub open spec fn report_steps(result: Result<()>) -> Seq<Step> {
    match result {
        Ok(_) => seq![],
        Err(e) => seq![Step::Sent(Message::Error(e))],
    }
}

/// Service an image request: capture and transmit an SSTV image per camera,
/// bracketed by [`Busy`](Message::Busy) / [`Available`](Message::Available)
/// status messages. A failure is downlinked between the two.
pub fn serve_sstv<L: CommandLink, A: AudioChannel, S: Sleeper>(
    link: &mut L,
    cameras: &mut [Option<Box<dyn Camera>>],
    audio: &mut A,
    timeline: &mut Timeline<S>,
) -> (result: Result<()>)
    requires
        old(audio).ready(),
    ensures
        final(link).calls() == old(link).calls().push(LinkCall::Sent(Message::Busy))
            + error::report(result).push(LinkCall::Sent(Message::Available)),
        final(audio).rate() == old(audio).rate(),
        result is Ok ==> final(audio).ready(),
        exists|pictures: Seq<Picture>, steps: Seq<Step>, calls: Seq<AudioCall>, sleeps: Seq<u32>|
            {
                &&& #[trigger] transmit_sstv::captured(old(cameras)@, final(cameras)@, pictures)
                &&& final(timeline).steps() == old(timeline).steps().push(
                    Step::Sent(Message::Busy),
                ) + transmit_sstv::capture_steps(pictures) + steps + report_steps(result).push(
                    Step::Sent(Message::Available),
                )
                &&& final(audio).calls() == old(audio).calls() + calls
                &&& final(timeline).sleeps() == old(timeline).sleeps() + sleeps
                &&& #[trigger] transmit_sstv::is_downlink(
                    steps,
                    calls,
                    sleeps,
                    pictures,
                    old(audio).rate(),
                    result,
                )
            },
{
    timeline.send(link, Message::Busy);
    let result = transmit_sstv::transmit_sstv(cameras, audio, timeline);
    let ghost sent = timeline.steps();
    if let Err(e) = result {
        timeline.send(link, Message::Error(e));
    }
    timeline.send(link, Message::Available);
    assert(link.calls() == old(link).calls().push(LinkCall::Sent(Message::Busy)) + error::report(
        result,
    ).push(LinkCall::Sent(Message::Available)));
    assert(timeline.steps() == sent + report_steps(result).push(Step::Sent(Message::Available)));
    result
}

/// Only two commands are for an idle payload: one to transmit, and one that
/// announces an update, with its chunk size. Everything else, a failure
/// included, leaves it idle.
pub proof fn law_idle_payload_serves_two_commands(received: Result<Option<Command>>)
    ensures
        task_for(received) is Transmit <==> received == Ok::<Option<Command>, error::Error>(
            Some(Command::Sstv),
        ),
        task_for(received) is Update <==> (received matches Ok(Some(command))
            && command is UpdateAnnounced),
        received matches Ok(Some(Command::UpdateAnnounced(size))) ==> task_for(received)
            == Task::Update(size),
        received is Err ==> task_for(received) is Nothing,
        received matches Ok(None) ==> task_for(received) is Nothing,
{
}

/// A failure is sent once, as it is; a success sends nothing.
pub proof fn law_only_failures_are_sent(error: error::Error)
    ensures
        report_steps(Ok(())).len() == 0,
        report_steps(Err(error)) == seq![Step::Sent(Message::Error(error))],
{
}

} // verus!
