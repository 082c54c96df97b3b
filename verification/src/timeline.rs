//! What the beacon does to its hardware, in the order in which it does it.
//!
//! Cameras, audio channel, link and clock each know how they were used
//! themselves. Work that uses several of them does so through one
//! [`Timeline`], which keeps the order across them.

use vstd::prelude::*;

use crate::audio::{AudioCall, AudioChannel, AudioError};
use crate::camera;
use crate::camera::{Camera, Image, Picture};
use crate::link::{CommandLink, LinkCall, Message};
use crate::pacing::Sleeper;

verus! {

/// One use of the hardware.
pub enum Step {
    /// A camera took this picture, from turned off to turned off again.
    Capture(Picture),
    /// The audio channel was used.
    Audio(AudioCall),
    /// A message was handed to the link.
    Sent(Message),
    /// The task slept for so many milliseconds.
    Sleep(u32),
}

/// Uses of the audio channel, and of nothing else in between.
pub open spec fn audio_steps(calls: Seq<AudioCall>) -> Seq<Step> {
    calls.map_values(|call: AudioCall| Step::Audio(call))
}

/// The order in which the hardware is used. Every method makes the call that
/// its step stands for; there is no other way to add a step.
pub struct Timeline<S> {
    sleeper: S,
    steps: Ghost<Seq<Step>>,
}

impl<S: Sleeper> Timeline<S> {
    /// Every step so far, oldest first.
    pub closed spec fn steps(&self) -> Seq<Step> {
        self.steps@
    }

    /// What the timeline sleeps with.
    pub closed spec fn task(&self) -> S {
        self.sleeper
    }

    /// Every sleep so far in milliseconds, oldest first.
    pub open spec fn sleeps(&self) -> Seq<u32> {
        self.task().sleeps()
    }

    /// A timeline without steps.
    pub fn new(sleeper: S) -> (timeline: Self)
        ensures
            timeline.steps() == Seq::<Step>::empty(),
            timeline.task() == sleeper,
    {
        Timeline { sleeper, steps: Ghost(Seq::empty()) }
    }

    /// What the timeline sleeps with.
    pub fn sleeper(&self) -> (sleeper: &S)
        ensures
            *sleeper == self.task(),
    {
        &self.sleeper
    }

    /// Capture a frame with a camera, from turned off state, and turn it back
    /// off.
    pub fn capture(&mut self, camera: &mut Box<dyn Camera>) -> (image: Image)
        ensures
            final(camera).calls() == old(camera).calls() + camera::capture_calls(image@),
            final(self).steps() == old(self).steps().push(Step::Capture(image@)),
            final(self).task() == old(self).task(),
    {
        let image = camera.capture();
        self.steps = Ghost(self.steps@.push(Step::Capture(image@)));
        image
    }

    /// Queue one sample for output.
    pub fn transmit<A: AudioChannel>(&mut self, audio: &mut A, sample: i16) -> (outcome: Result<
        (),
        AudioError,
    >)
        requires
            old(audio).ready(),
        ensures
            final(audio).calls() == old(audio).calls().push(AudioCall::Transmit(sample, outcome)),
            final(audio).rate() == old(audio).rate(),
            outcome is Ok ==> final(audio).ready(),
            final(self).steps() == old(self).steps().push(
                Step::Audio(AudioCall::Transmit(sample, outcome)),
            ),
            final(self).task() == old(self).task(),
    {
        let outcome = audio.transmit(sample);
        self.steps = Ghost(
            self.steps@.push(Step::Audio(AudioCall::Transmit(sample, outcome))),
        );
        outcome
    }

    /// Push any buffered samples to hardware.
    pub fn flush<A: AudioChannel>(&mut self, audio: &mut A) -> (outcome: Result<(), AudioError>)
        ensures
            final(audio).calls() == old(audio).calls().push(AudioCall::Flush(outcome)),
            final(audio).rate() == old(audio).rate(),
            old(audio).ready() && outcome is Ok ==> final(audio).ready(),
            final(self).steps() == old(self).steps().push(Step::Audio(AudioCall::Flush(outcome))),
            final(self).task() == old(self).task(),
    {
        let outcome = audio.flush();
        self.steps = Ghost(self.steps@.push(Step::Audio(AudioCall::Flush(outcome))));
        outcome
    }

    /// Transmit a message via the link.
    pub fn send<L: CommandLink>(&mut self, link: &mut L, message: Message)
        ensures
            final(link).calls() == old(link).calls().push(LinkCall::Sent(message)),
            final(self).steps() == old(self).steps().push(Step::Sent(message)),
            final(self).task() == old(self).task(),
    {
        self.steps = Ghost(self.steps@.push(Step::Sent(message)));
        link.send(message);
    }

    /// Block the current task.
    pub fn sleep_ms(&mut self, millis: u32)
        ensures
            final(self).steps() == old(self).steps().push(Step::Sleep(millis)),
            final(self).sleeps() == old(self).sleeps().push(millis),
    {
        self.sleeper.sleep_ms(millis);
        self.steps = Ghost(self.steps@.push(Step::Sleep(millis)));
    }
}

/// Every call of the audio channel is one step, in its turn.
pub proof fn law_audio_calls_are_steps(calls: Seq<AudioCall>, call: AudioCall)
    ensures
        audio_steps(Seq::empty()).len() == 0,
        audio_steps(calls.push(call)) == audio_steps(calls).push(Step::Audio(call)),
{
    assert(audio_steps(calls.push(call)) =~= audio_steps(calls).push(Step::Audio(call)));
}

} // verus!
