//! The PCM5102A DAC driver: packs the mono sample stream and drives it over an
//! [`AudioInterface`].

use vstd::prelude::*;

use super::encoder::AudioEncoder;
use super::interface::AudioInterface;
use super::{AudioCall, AudioChannel, AudioError};
use crate::bytes;

verus! {

/// Serial format of the PCM5102A: Philips I2S standard, 16-bit, stereo, most
/// significant bit first, audio on the right channel.
pub open spec fn pcm5102a_encoder() -> AudioEncoder {
    AudioEncoder {
        width_16bit: true,
        stereo: true,
        bit_shift: true,
        left_channel: false,
        big_endian: false,
        least_significant_bit_first: false,
        left_align_data: false,
    }
}

/// Serial format of the PCM5102A. Build the platform transport from this so its
/// slot configuration matches the packing of the driver.
pub fn encoder() -> (encoder: AudioEncoder)
    ensures
        encoder == pcm5102a_encoder(),
{
    AudioEncoder {
        width_16bit: true,
        stereo: true,
        bit_shift: true,
        left_channel: false,
        big_endian: false,
        least_significant_bit_first: false,
        left_align_data: false,
    }
}

/// The 16 bits of a sample, as a number.
pub open spec fn sample_bits(sample: i16) -> nat {
    if sample < 0 {
        (sample + 0x1_0000) as nat
    } else {
        sample as nat
    }
}

/// The stereo frame of a sample: least significant byte first on the audio
/// channel, silence on the other.
pub open spec fn stereo_frame(sample: i16, left_channel: bool) -> Seq<u8> {
    let audio = bytes::little_endian_digits(sample_bits(sample), 2);
    if left_channel {
        audio + seq![0u8, 0u8]
    } else {
        seq![0u8, 0u8] + audio
    }
}

/// The state of the driver, as a plain value.
pub struct Dac {
    /// Bytes batched per write.
    pub capacity: nat,
    /// The channel that carries the audio.
    pub left_channel: bool,
    /// Bytes not written yet.
    pub pending: Seq<u8>,
    /// Every write so far, and what came of it.
    pub writes: Seq<(Seq<u8>, Result<(), AudioError>)>,
}

impl Dac {
    /// Pushing out what is pending: it is written, and stays pending if the
    /// write fails.
    pub open spec fn flushed(self, outcome: Result<(), AudioError>) -> Dac {
        Dac {
            writes: self.writes.push((self.pending, outcome)),
            pending: if outcome is Ok {
                seq![]
            } else {
                self.pending
            },
            ..self
        }
    }

    /// The stereo frame of a sample is pending.
    pub open spec fn queued(self, sample: i16) -> Dac {
        Dac { pending: self.pending + stereo_frame(sample, self.left_channel), ..self }
    }

    /// Queueing a sample: its stereo frame is pending, and pushed out with the
    /// rest once the batch is full.
    pub open spec fn transmitted(self, sample: i16, outcome: Result<(), AudioError>) -> Dac {
        if self.queued(sample).pending.len() == self.capacity {
            self.queued(sample).flushed(outcome)
        } else {
            self.queued(sample)
        }
    }

    /// There is room for another frame.
    pub open spec fn has_room(self) -> bool {
        &&& self.capacity % 4 == 0
        &&& self.pending.len() % 4 == 0
        &&& self.pending.len() < self.capacity
    }
}

/// The bytes the hardware accepted, in order.
pub open spec fn accepted(writes: Seq<(Seq<u8>, Result<(), AudioError>)>) -> Seq<u8>
    decreases writes.len(),
{
    if writes.len() == 0 {
        seq![]
    } else if writes.last().1 is Ok {
        accepted(writes.drop_last()) + writes.last().0
    } else {
        accepted(writes.drop_last())
    }
}

/// What the hardware accepted, and what still waits for it.
pub open spec fn stream(dac: Dac) -> Seq<u8> {
    accepted(dac.writes) + dac.pending
}

/// No sample is lost, repeated or reordered, whether or not the hardware
/// accepts the batch it completes: queueing a sample appends exactly its stereo
/// frame to the stream.
pub proof fn law_transmit_appends_the_frame(
    dac: Dac,
    sample: i16,
    outcome: Result<(), AudioError>,
)
    ensures
        stream(dac.transmitted(sample, outcome)) == stream(dac) + stereo_frame(
            sample,
            dac.left_channel,
        ),
{
    let queued = dac.queued(sample);
    assert(stream(queued) == stream(dac) + stereo_frame(sample, dac.left_channel));
    law_flush_keeps_the_stream(queued, outcome);
}

/// Pushing out the batch, whether or not the hardware accepts it, keeps the
/// stream.
pub proof fn law_flush_keeps_the_stream(dac: Dac, outcome: Result<(), AudioError>)
    ensures
        stream(dac.flushed(outcome)) == stream(dac),
{
    let after = dac.flushed(outcome);
    assert(after.writes.drop_last() == dac.writes);
    assert(stream(after) =~= stream(dac));
}

/// The PCM5102A 16-bit stereo DAC, driven over an [`AudioInterface`].
///
/// Packs the mono `i16` stream into the DAC's stereo I2S frame (audio on the
/// configured channel, silence on the other) and batches frames into DMA-sized
/// writes.
pub struct Pcm5102a<I: AudioInterface> {
    interface: I,
    sample_rate: u32,
    left_channel: bool,
    buf: Vec<u8>,
    capacity: usize,
    log: Ghost<Seq<AudioCall>>,
}

impl<I: AudioInterface> View for Pcm5102a<I> {
    type V = Dac;

    closed spec fn view(&self) -> Dac {
        Dac {
            capacity: self.capacity as nat,
            left_channel: self.left_channel,
            pending: self.buf@,
            writes: self.interface.writes(),
        }
    }
}

impl<I: AudioInterface> Pcm5102a<I> {
    /// Wrap a transport as a PCM5102A output, with audio on the channel of the
    /// DAC's own serial format. See [`with_encoder`](Self::with_encoder).
    pub fn new(interface: I, sample_rate: u32, chunk_size: usize) -> (dac: Self)
        requires
            chunk_size * 4 <= usize::MAX,
        ensures
            dac@ == (Dac {
                capacity: (chunk_size * 4) as nat,
                left_channel: pcm5102a_encoder().left_channel,
                pending: Seq::empty(),
                writes: interface.writes(),
            }),
            dac.rate() == sample_rate,
            dac.calls() == Seq::<AudioCall>::empty(),
            dac.ready() <==> chunk_size > 0,
    {
        Self::with_encoder(interface, &encoder(), sample_rate, chunk_size)
    }

    /// Wrap a transport that was built from `encoder`, which says which channel
    /// carries the audio. `sample_rate` must match the rate the interface is
    /// clocked at; `chunk_size` is the number of samples batched per write.
    pub fn with_encoder(
        interface: I,
        encoder: &AudioEncoder,
        sample_rate: u32,
        chunk_size: usize,
    ) -> (dac: Self)
        requires
            chunk_size * 4 <= usize::MAX,
        ensures
            dac@ == (Dac {
                capacity: (chunk_size * 4) as nat,
                left_channel: encoder.left_channel,
                pending: Seq::empty(),
                writes: interface.writes(),
            }),
            dac.rate() == sample_rate,
            dac.calls() == Seq::<AudioCall>::empty(),
            dac.ready() <==> chunk_size > 0,
    {
        let dac = Pcm5102a {
            interface,
            sample_rate,
            left_channel: encoder.left_channel,
            buf: Vec::new(),
            capacity: chunk_size * 4,
            log: Ghost(Seq::empty()),
        };
        assert(dac@.pending =~= Seq::<u8>::empty());
        dac
    }

    /// Whether there is room for another sample. After a failed write there is
    /// none until a flush succeeds.
    pub fn is_ready(&self) -> (ready: bool)
        ensures
            ready == self.ready(),
    {
        self.capacity % 4 == 0 && self.buf.len() % 4 == 0 && self.buf.len() < self.capacity
    }
}

impl<I: AudioInterface> AudioChannel for Pcm5102a<I> {
    closed spec fn calls(&self) -> Seq<AudioCall> {
        self.log@
    }

    closed spec fn rate(&self) -> u32 {
        self.sample_rate
    }

    open spec fn ready(&self) -> bool {
        self@.has_room()
    }

    fn sample_rate(&self) -> (rate: u32) {
        self.sample_rate
    }

    /// Packs a mono 16-bit sample into the stereo I2S frame and writes to the
    /// interface when the batch is full.
    fn transmit(&mut self, sample: i16) -> (outcome: Result<(), AudioError>)
        ensures
            final(self)@ == old(self)@.transmitted(sample, outcome),
            old(self)@.queued(sample).pending.len() < old(self)@.capacity ==> outcome is Ok,
    {
        proof {
            reveal_with_fuel(bytes::little_endian_digits, 3);
        }
        let bits: u16 = if sample < 0 {
            (sample as i32 + 0x1_0000) as u16
        } else {
            sample as u16
        };
        let (lo, hi) = ((bits % 256) as u8, (bits / 256) as u8);
        if self.left_channel {
            self.buf.push(lo);
            self.buf.push(hi);
            self.buf.push(0);
            self.buf.push(0);
        } else {
            self.buf.push(0);
            self.buf.push(0);
            self.buf.push(lo);
            self.buf.push(hi);
        }
        assert(self.buf@ == old(self)@.queued(sample).pending);
        let outcome = if self.buf.len() == self.capacity {
            self.interface.write(self.buf.as_slice())
        } else {
            Ok(())
        };
        if self.buf.len() == self.capacity && outcome.is_ok() {
            self.buf.clear();
        }
        self.log = Ghost(self.log@.push(AudioCall::Transmit(sample, outcome)));
        assert(self@.pending == old(self)@.transmitted(sample, outcome).pending);
        outcome
    }

    fn flush(&mut self) -> (outcome: Result<(), AudioError>)
        ensures
            final(self)@ == old(self)@.flushed(outcome),
    {
        let outcome = self.interface.write(self.buf.as_slice());
        if outcome.is_ok() {
            self.buf.clear();
        }
        self.log = Ghost(self.log@.push(AudioCall::Flush(outcome)));
        assert(self@.pending == old(self)@.flushed(outcome).pending);
        outcome
    }
}

/// The stereo frame carries the sample, whatever it is: the two bytes of the
/// audio channel are its 16 bits in two's complement, least significant byte
/// first, and the other channel is silent.
pub proof fn law_frame_carries_the_sample(sample: i16, left_channel: bool)
    ensures
        ({
            let frame = stereo_frame(sample, left_channel);
            let (audio, silent) = if left_channel {
                (0int, 2int)
            } else {
                (2int, 0int)
            };
            let bits = frame[audio] + 256 * frame[audio + 1];
            &&& frame.len() == 4
            &&& bits < 0x8000 ==> sample == bits
            &&& bits >= 0x8000 ==> sample == bits - 0x1_0000
            &&& frame[silent] == 0
            &&& frame[silent + 1] == 0
        }),
{
    reveal_with_fuel(bytes::little_endian_digits, 3);
}

/// Different samples have different frames.
pub proof fn law_frames_tell_samples_apart(one: i16, other: i16, left_channel: bool)
    requires
        stereo_frame(one, left_channel) == stereo_frame(other, left_channel),
    ensures
        one == other,
{
    law_frame_carries_the_sample(one, left_channel);
    law_frame_carries_the_sample(other, left_channel);
}

/// The hardware is written a batch when its last sample completes it, and only
/// then: a write holds exactly as many bytes as a batch does. If the hardware
/// accepts it nothing is pending; if not, the whole batch still is.
pub proof fn law_batches_are_written_full(dac: Dac, sample: i16, outcome: Result<(), AudioError>)
    requires
        dac.has_room(),
    ensures
        ({
            let after = dac.transmitted(sample, outcome);
            &&& after.capacity == dac.capacity
            &&& after.left_channel == dac.left_channel
            &&& dac.pending.len() + 4 < dac.capacity ==> after.writes == dac.writes
                && after.pending == dac.pending + stereo_frame(sample, dac.left_channel)
            &&& dac.pending.len() + 4 == dac.capacity ==> {
                &&& after.writes.len() == dac.writes.len() + 1
                &&& after.writes.take(dac.writes.len() as int) == dac.writes
                &&& after.writes.last().0 == dac.pending + stereo_frame(sample, dac.left_channel)
                &&& after.writes.last().0.len() == dac.capacity
                &&& after.writes.last().1 == outcome
                &&& outcome is Ok ==> after.pending.len() == 0
                &&& outcome is Err ==> after.pending == after.writes.last().0
            }
            &&& dac.pending.len() + 4 <= dac.capacity
        }),
{
    law_frame_carries_the_sample(sample, dac.left_channel);
    assert(dac.transmitted(sample, outcome).writes.take(dac.writes.len() as int) =~= dac.writes);
}

/// There is room for a sample whenever less than a batch of whole frames is
/// pending.
pub proof fn law_room_is_for_whole_frames(dac: Dac)
    ensures
        dac.has_room() <==> dac.pending.len() < dac.capacity && dac.pending.len() % 4 == 0
            && dac.capacity % 4 == 0,
        dac.has_room() ==> dac.pending.len() + 4 <= dac.capacity,
{
}

} // verus!
