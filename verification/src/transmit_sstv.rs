//! SSTV downlink: capture each camera's current frame, encode it as Robot36
//! SSTV and play it out over an [`AudioChannel`].

use std::collections::VecDeque;

use sstv::Error as SstvError;
use vstd::prelude::*;

use crate::audio::{AudioCall, AudioChannel, AudioError};
use crate::camera;
use crate::camera::{Camera, Image, Picture, RgbPixel};
use crate::error;
use crate::error::{Error, Result};
use crate::pacing;
use crate::pacing::Sleeper;
use crate::timeline;
use crate::timeline::{Step, Timeline};

verus! {

/// The pause between two transmissions, in seconds.
pub const SPACING_SECONDS: u32 = 5;

/// The pause between two transmissions, in milliseconds.
pub const SPACING_MS: u32 = SPACING_SECONDS * 1_000;

/// The pixels of the first pair of lines, without which there is no Robot36
/// transmission.
pub const FIRST_LINES: usize = 640;

/// The error of the `sstv` crate.
#[verifier::external_type_specification]
#[verifier::external_body]
pub struct ExSstvError(SstvError);

/// The samples of the Robot36 transmission of some pixels, given row by row, at
/// a sample rate.
pub uninterp spec fn robot36_audio(pixels: Seq<RgbPixel>, sample_rate: u32) -> Seq<i16>;

/// `sstv::Encoder::new` takes the pixels of an image for Robot36, and fails
/// exactly if there are too few for the first pair of lines;
/// `sstv::Synthesizer::new` turns the encoder's tones into samples at a sample
/// rate. The samples depend on the pixels and the sample rate alone: both work
/// in integers, on a constant sine table.
#[verifier::external_body]
fn robot36(pixels: &Vec<RgbPixel>, sample_rate: u32) -> (samples: core::result::Result<
    Vec<i16>,
    SstvError,
>)
    ensures
        samples is Ok <==> pixels@.len() >= FIRST_LINES,
        samples matches Ok(s) ==> s@ == robot36_audio(pixels@, sample_rate),
{
    let pixels: Vec<sstv::RgbPixel> = pixels
        .iter()
        .map(|p| sstv::RgbPixel::new(p.red, p.green, p.blue))
        .collect();
    let encoder = sstv::Encoder::new(sstv::modes::ROBOT_36, pixels.into_iter())?;
    Ok(sstv::Synthesizer::new(encoder, sample_rate).collect())
}

/// The first `n` samples, each queued.
pub open spec fn queued(samples: Seq<i16>, n: int) -> Seq<AudioCall> {
    Seq::new(n as nat, |i: int| AudioCall::Transmit(samples[i], Ok(())))
}

/// A complete transmission: every sample is queued, then the channel is flushed
/// once.
pub open spec fn full_play(samples: Seq<i16>) -> Seq<AudioCall> {
    queued(samples, samples.len() as int).push(AudioCall::Flush(Ok(())))
}

/// A transmission that failed: a sample was refused, and nothing more was tried;
/// or the flush after the last sample failed.
pub open spec fn is_failed_play(calls: Seq<AudioCall>, samples: Seq<i16>, e: AudioError) -> bool {
    let n = calls.len() - 1;
    &&& 0 <= n <= samples.len()
    &&& calls.drop_last() == queued(samples, n)
    &&& calls.last() == if n < samples.len() {
        AudioCall::Transmit(samples[n], Err(e))
    } else {
        AudioCall::Flush(Err(e))
    }
}

/// Stream samples through the audio channel, then flush it. Stops at the first
/// failure.
pub fn play<A: AudioChannel, S: Sleeper>(
    samples: &Vec<i16>,
    audio: &mut A,
    timeline: &mut Timeline<S>,
) -> (result: Result<()>)
    requires
        old(audio).ready(),
    ensures
        final(audio).rate() == old(audio).rate(),
        final(timeline).sleeps() == old(timeline).sleeps(),
        result is Ok ==> {
            &&& final(audio).ready()
            &&& final(audio).calls() == old(audio).calls() + full_play(samples@)
            &&& final(timeline).steps() == old(timeline).steps() + timeline::audio_steps(
                full_play(samples@),
            )
        },
        result matches Err(e) ==> exists|calls: Seq<AudioCall>, ae: AudioError|
            {
                &&& final(audio).calls() == old(audio).calls() + calls
                &&& final(timeline).steps() == old(timeline).steps() + timeline::audio_steps(calls)
                &&& #[trigger] is_failed_play(calls, samples@, ae)
                &&& e == error::audio_failure(ae)
            },
{
    let ghost before = audio.calls();
    let ghost steps = timeline.steps();
    let mut i: usize = 0;
    assert(before + queued(samples@, 0) == before);
    assert(steps + timeline::audio_steps(queued(samples@, 0)) == steps);
    while i < samples.len()
        invariant
            i <= samples@.len(),
            before == old(audio).calls(),
            steps == old(timeline).steps(),
            audio.ready(),
            audio.rate() == old(audio).rate(),
            audio.calls() == before + queued(samples@, i as int),
            timeline.steps() == steps + timeline::audio_steps(queued(samples@, i as int)),
            timeline.sleeps() == old(timeline).sleeps(),
        decreases samples@.len() - i,
    {
        match timeline.transmit(audio, samples[i]) {
            Ok(done) => {
                assert(done == ());
                proof {
                    let call = AudioCall::Transmit(samples@[i as int], Ok(()));
                    assert(queued(samples@, i + 1) == queued(samples@, i as int).push(call));
                    lemma_next_audio_step(steps, queued(samples@, i as int), call);
                }
            },
            Err(ae) => {
                proof {
                    let call = AudioCall::Transmit(samples@[i as int], Err(ae));
                    let calls = queued(samples@, i as int).push(call);
                    assert(calls.drop_last() == queued(samples@, i as int));
                    assert(is_failed_play(calls, samples@, ae));
                    assert(audio.calls() == before + calls);
                    lemma_next_audio_step(steps, queued(samples@, i as int), call);
                }
                return Err(Error::from(ae));
            },
        }
        i += 1;
    }
    let ghost queue = queued(samples@, i as int);
    match timeline.flush(audio) {
        Ok(done) => {
            assert(done == ());
            assert(audio.calls() == before + full_play(samples@));
            proof {
                lemma_next_audio_step(steps, queue, AudioCall::Flush(Ok(())));
            }
            Ok(())
        },
        Err(ae) => {
            proof {
                let calls = queue.push(AudioCall::Flush(Err(ae)));
                assert(calls.drop_last() == queue);
                assert(is_failed_play(calls, samples@, ae));
                assert(audio.calls() == before + calls);
                lemma_next_audio_step(steps, queue, AudioCall::Flush(Err(ae)));
            }
            Err(Error::from(ae))
        },
    }
}

/// Another use of the audio channel adds its step.
proof fn lemma_next_audio_step(steps: Seq<Step>, calls: Seq<AudioCall>, call: AudioCall)
    ensures
        (steps + timeline::audio_steps(calls)).push(Step::Audio(call)) == steps
            + timeline::audio_steps(calls.push(call)),
{
    assert(timeline::audio_steps(calls.push(call)) == timeline::audio_steps(calls).push(
        Step::Audio(call),
    ));
}

/// Transmitting a picture failed: it was too small, and the channel was not
/// used; or the channel failed.
pub open spec fn is_failed_transmission(
    calls: Seq<AudioCall>,
    picture: Picture,
    rate: u32,
    e: Error,
) -> bool {
    if picture.upcoming().len() < FIRST_LINES {
        calls.len() == 0 && e == Error::EmptyImage
    } else {
        exists|ae: AudioError|
            #[trigger] is_failed_play(calls, robot36_audio(picture.upcoming(), rate), ae) && e
                == error::audio_failure(ae)
    }
}

/// Robot36-encode one image and stream its samples through the audio channel.
pub fn transmit_image<A: AudioChannel, S: Sleeper>(
    image: Image,
    audio: &mut A,
    timeline: &mut Timeline<S>,
) -> (result: Result<()>)
    requires
        old(audio).ready(),
    ensures
        final(audio).rate() == old(audio).rate(),
        final(timeline).sleeps() == old(timeline).sleeps(),
        result is Ok ==> {
            let calls = full_play(robot36_audio(image@.upcoming(), old(audio).rate()));
            &&& final(audio).ready()
            &&& image@.upcoming().len() >= FIRST_LINES
            &&& final(audio).calls() == old(audio).calls() + calls
            &&& final(timeline).steps() == old(timeline).steps() + timeline::audio_steps(calls)
        },
        result matches Err(e) ==> exists|calls: Seq<AudioCall>|
            {
                &&& final(audio).calls() == old(audio).calls() + calls
                &&& final(timeline).steps() == old(timeline).steps() + timeline::audio_steps(calls)
                &&& #[trigger] is_failed_transmission(calls, image@, old(audio).rate(), e)
            },
{
    let pixels = image.into_upcoming();
    match robot36(&pixels, audio.sample_rate()) {
        Ok(samples) => {
            let result = play(&samples, audio, timeline);
            proof {
                if let Err(e) = result {
                    let (calls, ae) = choose|calls: Seq<AudioCall>, ae: AudioError|
                        {
                            &&& audio.calls() == old(audio).calls() + calls
                            &&& timeline.steps() == old(timeline).steps() + timeline::audio_steps(
                                calls,
                            )
                            &&& #[trigger] is_failed_play(calls, samples@, ae)
                            &&& e == error::audio_failure(ae)
                        };
                    assert(is_failed_transmission(calls, image@, old(audio).rate(), e));
                }
            }
            result
        },
        Err(_) => {
            proof {
                let calls = Seq::<AudioCall>::empty();
                assert(audio.calls() == old(audio).calls() + calls);
                assert(timeline.steps() == old(timeline).steps() + timeline::audio_steps(calls));
                assert(is_failed_transmission(
                    calls,
                    image@,
                    old(audio).rate(),
                    Error::EmptyImage,
                ));
            }
            Err(Error::EmptyImage)
        },
    }
}

/// Every present camera took one picture; the pictures are in the cameras'
/// order, and empty slots stay empty.
pub open spec fn captured(
    before: Seq<Option<Box<dyn Camera>>>,
    after: Seq<Option<Box<dyn Camera>>>,
    pictures: Seq<Picture>,
) -> bool
    decreases before.len(),
{
    &&& before.len() == after.len()
    &&& if before.len() == 0 {
        pictures.len() == 0
    } else {
        match (before.last(), after.last()) {
            (None, None) => captured(before.drop_last(), after.drop_last(), pictures),
            (Some(was), Some(is)) => {
                &&& pictures.len() > 0
                &&& is.calls() == was.calls() + camera::capture_calls(pictures.last())
                &&& captured(before.drop_last(), after.drop_last(), pictures.drop_last())
            },
            _ => false,
        }
    }
}

/// The contents of some images.
pub open spec fn pictures_of(images: Seq<Image>) -> Seq<Picture> {
    images.map_values(|image: Image| image@)
}

/// Pictures are taken, and nothing happens in between.
pub open spec fn capture_steps(pictures: Seq<Picture>) -> Seq<Step> {
    pictures.map_values(|picture: Picture| Step::Capture(picture))
}

/// Capture the current frame from every present camera, dropping empty slots.
pub fn capture_images<S: Sleeper>(
    cameras: &mut [Option<Box<dyn Camera>>],
    timeline: &mut Timeline<S>,
) -> (images: Vec<Image>)
    ensures
        captured(old(cameras)@, final(cameras)@, pictures_of(images@)),
        final(timeline).steps() == old(timeline).steps() + capture_steps(pictures_of(images@)),
        final(timeline).sleeps() == old(timeline).sleeps(),
{
    let mut images: Vec<Image> = Vec::new();
    let mut i: usize = 0;
    let ghost before = cameras@;
    let ghost steps = timeline.steps();
    assert(steps + capture_steps(pictures_of(images@)) == steps);
    while i < cameras.len()
        invariant
            i <= cameras@.len(),
            before == old(cameras)@,
            steps == old(timeline).steps(),
            cameras@.len() == before.len(),
            cameras@.skip(i as int) == before.skip(i as int),
            captured(before.take(i as int), cameras@.take(i as int), pictures_of(images@)),
            timeline.steps() == steps + capture_steps(pictures_of(images@)),
            timeline.sleeps() == old(timeline).sleeps(),
        decreases cameras@.len() - i,
    {
        let ghost slots = cameras@;
        let ghost taken = images@;
        assert(slots[i as int] == slots.skip(i as int)[0]);
        assert(before[i as int] == before.skip(i as int)[0]);
        match &mut cameras[i] {
            Some(cam) => {
                let image = timeline.capture(cam);
                proof {
                    let pictures = pictures_of(taken);
                    assert(pictures_of(taken.push(image)) == pictures.push(image@));
                    assert(pictures.push(image@).drop_last() == pictures);
                    assert(capture_steps(pictures.push(image@)) == capture_steps(pictures).push(
                        Step::Capture(image@),
                    ));
                    assert(timeline.steps() == steps + capture_steps(pictures.push(image@)));
                }
                images.push(image);
            },
            None => {},
        }
        proof {
            assert(before.take(i + 1).drop_last() == before.take(i as int));
            assert(cameras@.take(i + 1).drop_last() == slots.take(i as int));
            assert(cameras@.skip(i + 1) == slots.skip(i as int).skip(1));
            assert(before.skip(i + 1) == before.skip(i as int).skip(1));
        }
        i += 1;
    }
    assert(before.take(i as int) == before);
    assert(cameras@.take(i as int) == cameras@);
    images
}

/// The complete transmissions of some pictures, one after the other.
pub open spec fn full_plays(pictures: Seq<Picture>, rate: u32) -> Seq<AudioCall>
    decreases pictures.len(),
{
    if pictures.len() == 0 {
        seq![]
    } else {
        full_plays(pictures.drop_last(), rate) + full_play(
            robot36_audio(pictures.last().upcoming(), rate),
        )
    }
}

/// The pause ahead of the `k`-th transmission: the first has none.
pub open spec fn spacing(k: int) -> Seq<Step> {
    if k > 0 {
        seq![Step::Sleep(SPACING_MS)]
    } else {
        seq![]
    }
}

/// The complete transmissions of some pictures, spaced apart.
pub open spec fn spaced_plays(pictures: Seq<Picture>, rate: u32) -> Seq<Step>
    decreases pictures.len(),
{
    if pictures.len() == 0 {
        seq![]
    } else {
        spaced_plays(pictures.drop_last(), rate) + spacing(pictures.len() - 1)
            + timeline::audio_steps(full_play(robot36_audio(pictures.last().upcoming(), rate)))
    }
}

/// How many pauses lie between so many transmissions.
pub open spec fn pauses_between(n: nat) -> nat {
    if n == 0 {
        0
    } else {
        (n - 1) as nat
    }
}

/// The transmission of some pictures. If it succeeds, every picture is
/// transmitted completely and in order, spaced apart, with no pause after the
/// last; otherwise those ahead of the first that fails are, and nothing follows
/// it.
pub open spec fn is_downlink(
    steps: Seq<Step>,
    calls: Seq<AudioCall>,
    sleeps: Seq<u32>,
    pictures: Seq<Picture>,
    rate: u32,
    result: Result<()>,
) -> bool {
    match result {
        Ok(_) => {
            &&& steps == spaced_plays(pictures, rate)
            &&& calls == full_plays(pictures, rate)
            &&& sleeps == pacing::sleeps_of(pauses_between(pictures.len()), SPACING_MS)
            &&& forall|i: int|
                0 <= i < pictures.len() ==> (#[trigger] pictures[i]).upcoming().len()
                    >= FIRST_LINES
        },
        Err(e) => exists|k: int, failed: Seq<AudioCall>|
            {
                &&& 0 <= k < pictures.len()
                &&& steps == spaced_plays(pictures.take(k), rate) + spacing(k)
                    + timeline::audio_steps(failed)
                &&& calls == full_plays(pictures.take(k), rate) + failed
                &&& sleeps == pacing::sleeps_of(k as nat, SPACING_MS)
                &&& #[trigger] is_failed_transmission(failed, pictures[k], rate, e)
            },
    }
}

/// A downlink pauses directly ahead of every picture but the first, and ends
/// with the last picture.
pub proof fn law_pictures_are_spaced(pictures: Seq<Picture>, rate: u32)
    requires
        pictures.len() > 0,
    ensures
        forall|k: int|
            #![trigger pictures[k]]
            0 < k < pictures.len() ==> (spaced_plays(pictures.take(k), rate).push(
                Step::Sleep(SPACING_MS),
            ) + timeline::audio_steps(
                full_play(robot36_audio(pictures[k].upcoming(), rate)),
            )).is_prefix_of(spaced_plays(pictures, rate)),
        spaced_plays(pictures, rate).last() == Step::Audio(AudioCall::Flush(Ok(()))),
    decreases pictures.len(),
{
    let before = pictures.drop_last();
    let head = spaced_plays(before, rate);
    let last = timeline::audio_steps(
        full_play(robot36_audio(pictures.last().upcoming(), rate)),
    );
    let all = spaced_plays(pictures, rate);
    assert(all.last() == last.last());
    if before.len() > 0 {
        law_pictures_are_spaced(before, rate);
    }
    assert forall|k: int| #![trigger pictures[k]] 0 < k < pictures.len() implies (spaced_plays(
        pictures.take(k),
        rate,
    ).push(Step::Sleep(SPACING_MS)) + timeline::audio_steps(
        full_play(robot36_audio(pictures[k].upcoming(), rate)),
    )).is_prefix_of(all) by {
        if k < before.len() {
            assert(before[k] == pictures[k]);
            assert(before.take(k) == pictures.take(k));
            let part = spaced_plays(before.take(k), rate).push(Step::Sleep(SPACING_MS))
                + timeline::audio_steps(full_play(robot36_audio(before[k].upcoming(), rate)));
            assert(part.is_prefix_of(head));
            assert(head.is_prefix_of(all));
            assert(all.subrange(0, part.len() as int) == head.subrange(0, part.len() as int));
        } else {
            assert(pictures.take(k) == before);
            assert(head.push(Step::Sleep(SPACING_MS)) + last == all);
        }
    }
}

/// Transmit captured images in order, spaced apart, with no pause after the
/// last. Ends at the first that fails.
pub fn transmit_images<A: AudioChannel, S: Sleeper>(
    images: Vec<Image>,
    audio: &mut A,
    timeline: &mut Timeline<S>,
) -> (result: Result<()>)
    requires
        old(audio).ready(),
    ensures
        final(audio).rate() == old(audio).rate(),
        result is Ok ==> final(audio).ready(),
        exists|steps: Seq<Step>, calls: Seq<AudioCall>, sleeps: Seq<u32>|
            {
                &&& final(timeline).steps() == old(timeline).steps() + steps
                &&& final(audio).calls() == old(audio).calls() + calls
                &&& final(timeline).sleeps() == old(timeline).sleeps() + sleeps
                &&& #[trigger] is_downlink(
                    steps,
                    calls,
                    sleeps,
                    pictures_of(images@),
                    old(audio).rate(),
                    result,
                )
            },
{
    let ghost all = images@;
    let ghost pictures = pictures_of(images@);
    let ghost rate = audio.rate();
    let ghost steps = timeline.steps();
    let ghost calls = audio.calls();
    let ghost sleeps = timeline.sleeps();
    let count: usize = images.len();
    let mut queue = queue_of(images);
    let mut sent: usize = 0;
    proof {
        assert(pictures.take(0) == Seq::<Picture>::empty());
        assert(steps + spaced_plays(pictures.take(0), rate) == steps);
        assert(calls + full_plays(pictures.take(0), rate) == calls);
        assert(sleeps + pacing::sleeps_of(0, SPACING_MS) == sleeps);
        assert(all.skip(0) == all);
    }
    while sent < count
        invariant
            all == images@,
            count == all.len(),
            pictures == pictures_of(all),
            rate == old(audio).rate(),
            steps == old(timeline).steps(),
            calls == old(audio).calls(),
            sleeps == old(timeline).sleeps(),
            audio.rate() == rate,
            audio.ready(),
            sent <= count,
            queue@ == all.skip(sent as int),
            timeline.steps() == steps + spaced_plays(pictures.take(sent as int), rate),
            audio.calls() == calls + full_plays(pictures.take(sent as int), rate),
            timeline.sleeps() == sleeps + pacing::sleeps_of(
                pauses_between(sent as nat),
                SPACING_MS,
            ),
            forall|i: int|
                0 <= i < sent ==> (#[trigger] pictures[i]).upcoming().len() >= FIRST_LINES,
        decreases count - sent,
    {
        let ghost k = sent as int;
        let ghost ahead = spaced_plays(pictures.take(k), rate);
        let ghost heard = full_plays(pictures.take(k), rate);
        if sent > 0 {
            timeline.sleep_ms(SPACING_MS);
        }
        proof {
            assert(timeline.steps() == steps + (ahead + spacing(k)));
            assert(timeline.sleeps() == sleeps + pacing::sleeps_of(k as nat, SPACING_MS)) by {
                if k > 0 {
                    assert(pacing::sleeps_of(k as nat, SPACING_MS) == pacing::sleeps_of(
                        (k - 1) as nat,
                        SPACING_MS,
                    ).push(SPACING_MS));
                }
            }
        }
        if let Some(image) = queue.pop_front() {
            assert(image == all[k]);
            assert(queue@ == all.skip(k + 1));
            if let Err(e) = transmit_image(image, audio, timeline) {
                proof {
                    let failed = choose|more: Seq<AudioCall>|
                        {
                            &&& audio.calls() == calls + heard + more
                            &&& timeline.steps() == steps + (ahead + spacing(k))
                                + timeline::audio_steps(more)
                            &&& #[trigger] is_failed_transmission(more, image@, rate, e)
                        };
                    let more_steps = ahead + spacing(k) + timeline::audio_steps(failed);
                    assert(timeline.steps() == steps + more_steps);
                    assert(audio.calls() == calls + (heard + failed));
                    assert(is_failed_transmission(failed, pictures[k], rate, e));
                    assert(is_downlink(
                        more_steps,
                        heard + failed,
                        pacing::sleeps_of(k as nat, SPACING_MS),
                        pictures,
                        rate,
                        Err(e),
                    ));
                }
                return Err(e);
            }
            proof {
                let next = pictures.take(k + 1);
                assert(next.drop_last() == pictures.take(k));
                assert(next.last() == image@);
                assert(timeline.steps() == steps + spaced_plays(next, rate));
                assert(audio.calls() == calls + full_plays(next, rate));
            }
            sent += 1;
        }
    }
    proof {
        assert(pictures.take(sent as int) == pictures);
        assert(is_downlink(
            spaced_plays(pictures, rate),
            full_plays(pictures, rate),
            pacing::sleeps_of(pauses_between(pictures.len()), SPACING_MS),
            pictures,
            rate,
            Ok(()),
        ));
    }
    Ok(())
}

/// The images, first one in front.
fn queue_of(images: Vec<Image>) -> (queue: VecDeque<Image>)
    ensures
        queue@ == images@,
{
    let mut images = images;
    let ghost all = images@;
    let mut queue: VecDeque<Image> = VecDeque::new();
    while images.len() > 0
        invariant
            images@.len() <= all.len(),
            images@ == all.take(images@.len() as int),
            queue@ == all.skip(images@.len() as int),
        decreases images@.len(),
    {
        let ghost n = images@.len() as int;
        if let Some(image) = images.pop() {
            queue.push_front(image);
            assert(queue@ == all.skip(n - 1));
            assert(images@ == all.take(n - 1));
        }
    }
    assert(all.skip(0) == all);
    queue
}

/// Capture and transmit one SSTV image for each working camera.
///
/// Every camera is captured up front, before the first (multi-second)
/// transmission begins, so all frames show the same moment. Empty slots (a
/// camera that failed to initialize) are skipped. The captured images are then
/// encoded and played out in order, spaced apart, with no pause after the last.
///
/// Returns the first transmission error, if any; captures themselves never fail
/// (an unavailable camera is simply absent from the output).
pub fn transmit_sstv<A: AudioChannel, S: Sleeper>(
    cameras: &mut [Option<Box<dyn Camera>>],
    audio: &mut A,
    timeline: &mut Timeline<S>,
) -> (result: Result<()>)
    requires
        old(audio).ready(),
    ensures
        final(audio).rate() == old(audio).rate(),
        result is Ok ==> final(audio).ready(),
        exists|pictures: Seq<Picture>, steps: Seq<Step>, calls: Seq<AudioCall>, sleeps: Seq<u32>|
            {
                &&& #[trigger] captured(old(cameras)@, final(cameras)@, pictures)
                &&& final(timeline).steps() == old(timeline).steps() + capture_steps(pictures)
                    + steps
                &&& final(audio).calls() == old(audio).calls() + calls
                &&& final(timeline).sleeps() == old(timeline).sleeps() + sleeps
                &&& #[trigger] is_downlink(
                    steps,
                    calls,
                    sleeps,
                    pictures,
                    old(audio).rate(),
                    result,
                )
            },
{
    let images = capture_images(cameras, timeline);
    transmit_images(images, audio, timeline)
}

/// How many transmissions were completed: every one ends with exactly one
/// successful flush.
pub open spec fn completed(calls: Seq<AudioCall>) -> nat
    decreases calls.len(),
{
    if calls.len() == 0 {
        0
    } else {
        completed(calls.drop_last()) + match calls.last() {
            AudioCall::Flush(Ok(_)) => 1nat,
            _ => 0nat,
        }
    }
}

proof fn lemma_completed_concat(first: Seq<AudioCall>, second: Seq<AudioCall>)
    ensures
        completed(first + second) == completed(first) + completed(second),
    decreases second.len(),
{
    if second.len() == 0 {
        assert(first + second == first);
    } else {
        lemma_completed_concat(first, second.drop_last());
        assert((first + second).drop_last() == first + second.drop_last());
    }
}

proof fn lemma_queued_completes_nothing(samples: Seq<i16>, n: nat)
    ensures
        completed(queued(samples, n as int)) == 0,
    decreases n,
{
    if n > 0 {
        lemma_queued_completes_nothing(samples, (n - 1) as nat);
        assert(queued(samples, n as int).drop_last() == queued(samples, n - 1));
    }
}

proof fn lemma_full_plays_complete(pictures: Seq<Picture>, rate: u32)
    ensures
        completed(full_plays(pictures, rate)) == pictures.len(),
    decreases pictures.len(),
{
    if pictures.len() > 0 {
        lemma_full_plays_complete(pictures.drop_last(), rate);
        let samples = robot36_audio(pictures.last().upcoming(), rate);
        lemma_queued_completes_nothing(samples, samples.len());
        assert(full_play(samples).drop_last() == queued(samples, samples.len() as int));
        lemma_completed_concat(full_plays(pictures.drop_last(), rate), full_play(samples));
    }
}

/// A downlink that succeeds completes one transmission per picture. One that
/// fails completes fewer: a transmission that fails is not completed, and
/// neither is any after it.
pub proof fn law_completed_transmissions(
    steps: Seq<Step>,
    calls: Seq<AudioCall>,
    sleeps: Seq<u32>,
    pictures: Seq<Picture>,
    rate: u32,
    result: Result<()>,
)
    requires
        is_downlink(steps, calls, sleeps, pictures, rate, result),
    ensures
        result is Ok ==> completed(calls) == pictures.len(),
        result is Err ==> completed(calls) < pictures.len(),
{
    match result {
        Ok(_) => {
            lemma_full_plays_complete(pictures, rate);
        },
        Err(e) => {
            let (k, failed) = choose|k: int, failed: Seq<AudioCall>|
                {
                    &&& 0 <= k < pictures.len()
                    &&& calls == full_plays(pictures.take(k), rate) + failed
                    &&& #[trigger] is_failed_transmission(failed, pictures[k], rate, e)
                };
            lemma_full_plays_complete(pictures.take(k), rate);
            lemma_completed_concat(full_plays(pictures.take(k), rate), failed);
            if failed.len() > 0 {
                let samples = robot36_audio(pictures[k].upcoming(), rate);
                lemma_queued_completes_nothing(samples, (failed.len() - 1) as nat);
            }
        },
    }
}

/// The pictures of a capture are as many as there are cameras.
pub open spec fn present(cameras: Seq<Option<Box<dyn Camera>>>) -> nat
    decreases cameras.len(),
{
    if cameras.len() == 0 {
        0
    } else {
        present(cameras.drop_last()) + if cameras.last() is Some {
            1nat
        } else {
            0nat
        }
    }
}

/// Every present camera gives one picture, and an empty slot gives none.
pub proof fn law_one_picture_per_camera(
    before: Seq<Option<Box<dyn Camera>>>,
    after: Seq<Option<Box<dyn Camera>>>,
    pictures: Seq<Picture>,
)
    requires
        captured(before, after, pictures),
    ensures
        pictures.len() == present(before),
        present(after) == present(before),
    decreases before.len(),
{
    if before.len() > 0 {
        match (before.last(), after.last()) {
            (None, None) => {
                law_one_picture_per_camera(before.drop_last(), after.drop_last(), pictures);
            },
            _ => {
                law_one_picture_per_camera(
                    before.drop_last(),
                    after.drop_last(),
                    pictures.drop_last(),
                );
            },
        }
    }
}

/// Playing queues every sample once, in order, and flushes behind the last.
pub proof fn law_every_sample_is_queued(samples: Seq<i16>)
    ensures
        full_play(samples).len() == samples.len() + 1,
        forall|i: int|
            0 <= i < samples.len() ==> #[trigger] full_play(samples)[i] == AudioCall::Transmit(
                samples[i],
                Ok(()),
            ),
        full_play(samples).last() == AudioCall::Flush(Ok(())),
{
}

/// Playing stops with the first call that fails: that of a sample behind those
/// that were queued, or the flush behind all of them.
pub proof fn law_failed_play_stops_at_once(
    calls: Seq<AudioCall>,
    samples: Seq<i16>,
    e: AudioError,
)
    requires
        is_failed_play(calls, samples, e),
    ensures
        1 <= calls.len() <= samples.len() + 1,
        forall|i: int|
            0 <= i < calls.len() - 1 ==> #[trigger] calls[i] == AudioCall::Transmit(
                samples[i],
                Ok(()),
            ),
        calls.len() <= samples.len() ==> calls.last() == AudioCall::Transmit(
            samples[calls.len() - 1],
            Err(e),
        ),
        calls.len() == samples.len() + 1 ==> calls.last() == AudioCall::Flush(Err(e)),
{
    let n = calls.len() - 1;
    assert forall|i: int| 0 <= i < n implies #[trigger] calls[i] == AudioCall::Transmit(
        samples[i],
        Ok(()),
    ) by {
        assert(calls[i] == calls.drop_last()[i]);
    }
}

/// A picture with less than two lines of pixels is an error ahead of any sound;
/// any other fails only where the audio channel does.
pub proof fn law_failed_transmission_tells_why(
    calls: Seq<AudioCall>,
    picture: Picture,
    rate: u32,
    e: Error,
)
    requires
        is_failed_transmission(calls, picture, rate, e),
    ensures
        picture.upcoming().len() < 640 <==> e == Error::EmptyImage,
        picture.upcoming().len() < 640 ==> calls.len() == 0,
        picture.upcoming().len() >= 640 ==> {
            &&& calls.len() > 0
            &&& e == Error::AudioInit || e == Error::AudioTransmission
            &&& calls.last() matches AudioCall::Transmit(_, Err(ae)) ==> e == error::audio_failure(
                ae,
            )
            &&& calls.last() matches AudioCall::Flush(Err(ae)) ==> e == error::audio_failure(ae)
            &&& !(calls.last() matches AudioCall::Transmit(_, Ok(_)))
            &&& !(calls.last() matches AudioCall::Flush(Ok(_)))
        },
{
}

/// One picture more is played behind the others, after five seconds if there
/// are any.
pub proof fn law_one_more_picture(pictures: Seq<Picture>, picture: Picture, rate: u32)
    ensures
        full_plays(Seq::empty(), rate).len() == 0,
        spaced_plays(Seq::empty(), rate).len() == 0,
        full_plays(pictures.push(picture), rate) == full_plays(pictures, rate) + full_play(
            robot36_audio(picture.upcoming(), rate),
        ),
        pictures.len() == 0 ==> spaced_plays(pictures.push(picture), rate) == timeline::audio_steps(
            full_play(robot36_audio(picture.upcoming(), rate)),
        ),
        pictures.len() > 0 ==> spaced_plays(pictures.push(picture), rate) == spaced_plays(
            pictures,
            rate,
        ).push(Step::Sleep(5000)) + timeline::audio_steps(
            full_play(robot36_audio(picture.upcoming(), rate)),
        ),
{
    assert(pictures.push(picture).drop_last() == pictures);
    let steps = timeline::audio_steps(full_play(robot36_audio(picture.upcoming(), rate)));
    if pictures.len() == 0 {
        assert(spaced_plays(pictures, rate) + spacing(0) + steps =~= steps);
    } else {
        assert(spaced_plays(pictures, rate) + spacing(pictures.len() as int) =~= spaced_plays(
            pictures,
            rate,
        ).push(Step::Sleep(5000)));
    }
}

/// There are five seconds between two pictures, and no other pause. All pictures
/// are played, or those ahead of the one that fails.
pub proof fn law_pauses_fall_between_pictures(
    steps: Seq<Step>,
    calls: Seq<AudioCall>,
    sleeps: Seq<u32>,
    pictures: Seq<Picture>,
    rate: u32,
    result: Result<()>,
)
    requires
        is_downlink(steps, calls, sleeps, pictures, rate, result),
    ensures
        forall|i: int| 0 <= i < sleeps.len() ==> #[trigger] sleeps[i] == 5000,
        result is Ok ==> {
            &&& pictures.len() > 0 ==> sleeps.len() == pictures.len() - 1
            &&& pictures.len() == 0 ==> sleeps.len() == 0
            &&& calls == full_plays(pictures, rate)
            &&& steps == spaced_plays(pictures, rate)
            &&& forall|i: int|
                0 <= i < pictures.len() ==> (#[trigger] pictures[i]).upcoming().len() >= 640
        },
        result matches Err(e) ==> {
            let k = sleeps.len() as int;
            &&& k < pictures.len()
            &&& full_plays(pictures.take(k), rate).is_prefix_of(calls)
            &&& is_failed_transmission(
                calls.skip(full_plays(pictures.take(k), rate).len() as int),
                pictures[k],
                rate,
                e,
            )
        },
{
    if let Err(e) = result {
        let (k, failed) = choose|k: int, failed: Seq<AudioCall>|
            {
                &&& 0 <= k < pictures.len()
                &&& steps == spaced_plays(pictures.take(k), rate) + spacing(k)
                    + timeline::audio_steps(failed)
                &&& calls == full_plays(pictures.take(k), rate) + failed
                &&& sleeps == pacing::sleeps_of(k as nat, SPACING_MS)
                &&& #[trigger] is_failed_transmission(failed, pictures[k], rate, e)
            };
        let played = full_plays(pictures.take(k), rate);
        assert(sleeps.len() == k);
        assert(calls.skip(played.len() as int) =~= failed);
        assert(calls.take(played.len() as int) =~= played);
    }
}

/// A camera that is missing stays so. One that is there takes one picture, which
/// comes behind those of the cameras ahead of it, and is used for nothing else.
pub proof fn law_cameras_take_turns(
    before: Seq<Option<Box<dyn Camera>>>,
    after: Seq<Option<Box<dyn Camera>>>,
    pictures: Seq<Picture>,
    i: int,
)
    requires
        captured(before, after, pictures),
        0 <= i < before.len(),
    ensures
        after.len() == before.len(),
        before[i] is None <==> after[i] is None,
        before[i] is Some ==> {
            let k = present(before.take(i)) as int;
            &&& k < pictures.len()
            &&& after[i]->0.calls() == before[i]->0.calls() + camera::capture_calls(pictures[k])
        },
    decreases before.len(),
{
    let last = before.len() - 1;
    let (fewer, fewer_after) = (before.drop_last(), after.drop_last());
    let earlier = if before.last() is None {
        pictures
    } else {
        pictures.drop_last()
    };
    law_one_picture_per_camera(fewer, fewer_after, earlier);
    if i < last {
        law_cameras_take_turns(fewer, fewer_after, earlier, i);
        assert(fewer.take(i) =~= before.take(i));
    } else {
        assert(before.take(i) =~= fewer);
    }
}

/// Every captured picture is one step of the capture, in its turn.
pub proof fn law_captures_are_steps(pictures: Seq<Picture>, picture: Picture)
    ensures
        capture_steps(Seq::empty()).len() == 0,
        capture_steps(pictures.push(picture)) == capture_steps(pictures).push(
            Step::Capture(picture),
        ),
{
    assert(capture_steps(pictures.push(picture)) =~= capture_steps(pictures).push(
        Step::Capture(picture),
    ));
}

/// The pictures of some images are what they hold, in their order.
pub proof fn law_pictures_are_what_images_hold(images: Seq<Image>, i: int)
    requires
        0 <= i < images.len(),
    ensures
        pictures_of(images).len() == images.len(),
        pictures_of(images)[i] == images[i]@,
{
}

} // verus!
