//! A CSP node speaking KISS over a full-duplex serial link.
//!
//! [`KissSerialInterface`] is the TX side: outgoing packets are KISS-encoded
//! and written to the serial port. [`CspLink`] is the RX side: it reads the
//! line, decodes complete packets for routing and keeps the error policy.

use vstd::prelude::*;

use super::kiss;
use super::kiss_laws;
use super::kiss::{Decoding, KissDecoder, Packet, PacketId};
use crate::bytes;

verus! {

/// CSP's standard ping/echo service port.
pub const PING_PORT: u8 = 1;

/// Consecutive RX read failures tolerated before [`CspLink::poll`] reports an
/// [`CspError::Rx`]. With the retry pacing of [`RETRY_DELAY_MS`] this means one
/// report per second of persistent failure.
pub const MAX_RX_ERRORS: u32 = 10;

/// The pause after a failed read, in milliseconds.
pub const RETRY_DELAY_MS: u32 = 100;

/// The most bytes taken off the line in one poll.
pub const RX_CHUNK: usize = 512;

/// Error raised by the CSP node.
#[derive(Clone, Copy, Debug, PartialEq, Eq, Structural)]
pub enum CspError {
    /// Bringing up the node, interface, or a socket failed.
    Init,
    /// The RX transport read failed persistently (past [`MAX_RX_ERRORS`]).
    Rx,
}

/// A blocking serial transmitter: writes the whole buffer and drains the
/// hardware FIFO before returning.
pub trait SerialWrite {
    /// Everything written so far.
    open spec fn written(&self) -> Seq<u8> {
        arbitrary()
    }

    /// Write all of `data`.
    fn write_all(&mut self, data: &[u8])
        ensures
            final(self).written() == old(self).written() + data@,
    ;
}

/// A serial receiver: reads whatever bytes are available into `buf`, waiting up
/// to the transport's read timeout. Returns the count read, or `Err` when the
/// read itself fails (distinct from a timeout with no bytes, which is `Ok(0)`).
pub trait SerialRead {
    /// The outcome of every read so far, oldest first: the bytes that were
    /// read, or nothing where the read failed.
    open spec fn reads(&self) -> Seq<Option<Seq<u8>>> {
        arbitrary()
    }

    /// Read into the front of `buf`.
    fn read(&mut self, buf: &mut [u8]) -> (count: Result<usize, ()>)
        ensures
            final(buf)@.len() == old(buf)@.len(),
            count matches Ok(n) ==> n <= old(buf)@.len(),
            final(self).reads() == old(self).reads().push(
                match count {
                    Ok(n) => Some(final(buf)@.take(n as int)),
                    Err(_) => None,
                },
            ),
    ;
}

/// The CSP interface that owns the serial TX half.
pub struct KissSerialInterface<W> {
    tx: W,
}

impl<W: SerialWrite> KissSerialInterface<W> {
    /// Everything written to the serial port so far.
    pub closed spec fn written(&self) -> Seq<u8> {
        self.tx.written()
    }

    /// An interface that writes to `tx`.
    pub fn new(tx: W) -> (iface: Self)
        ensures
            iface.written() == tx.written(),
    {
        KissSerialInterface { tx }
    }

    /// Transmit `packet` as one KISS frame if this node sends it; packets
    /// passing through are dropped.
    pub fn nexthop(&mut self, packet: &Packet, from_me: bool)
        ensures
            final(self).written() == if from_me {
                old(self).written() + kiss::kiss_frame(
                    kiss::packet_bytes(packet.id, packet.data@),
                )
            } else {
                old(self).written()
            },
    {
        if !from_me {
            return;
        }
        let raw = kiss::encode_packet(packet);
        let frame = kiss::kiss_encode(raw.as_slice());
        self.tx.write_all(frame.as_slice());
    }

    /// The interface's name.
    pub fn name(&self) -> (name: &'static str)
        ensures
            name@ == "KISS"@,
    {
        "KISS"
    }
}

/// The identity of a CSP node.
#[derive(Clone, Copy, Debug)]
pub struct CspLinkConfig {
    /// This node's CSP address, stamped on all outgoing packets.
    pub address: u16,
    /// The host name it reports.
    pub hostname: &'static str,
    /// The model it reports.
    pub model: &'static str,
}

/// The packets in a list of frames, in order; a frame too short for a header
/// holds none.
pub open spec fn packets_in(frames: Seq<Seq<u8>>) -> Seq<(PacketId, Seq<u8>)>
    decreases frames.len(),
{
    if frames.len() == 0 {
        seq![]
    } else {
        let before = packets_in(frames.drop_last());
        let frame = frames.last();
        if frame.len() < 4 {
            before
        } else {
            before.push((kiss::frame_id(frame), kiss::frame_data(frame)))
        }
    }
}

/// The contents of a list of packets.
pub open spec fn packet_contents(packets: Seq<Packet>) -> Seq<(PacketId, Seq<u8>)> {
    packets.map_values(|p: Packet| (p.id, p.data@))
}

/// What one poll of the line came to.
#[derive(Debug)]
pub enum Polled {
    /// Packets to route, in the order they arrived; often none.
    Packets(Vec<Packet>),
    /// The read failed: pause for [`RETRY_DELAY_MS`], then go on, or report
    /// the error if there is one.
    Pause(Result<(), CspError>),
}

/// One more failed read after `errors` in a row: the new count, and whether the
/// failure is reported.
pub open spec fn after_failure(errors: nat) -> (nat, bool) {
    if errors + 1 >= MAX_RX_ERRORS {
        (0, true)
    } else {
        (errors + 1, false)
    }
}

/// The RX half of a CSP node: owns the RX transport `R` and pumps it in
/// [`poll`](Self::poll).
pub struct CspLink<R> {
    rx: R,
    decoder: KissDecoder,
    // Consecutive RX read failures, reset by every successful read.
    rx_errors: u32,
}

impl<R: SerialRead> CspLink<R> {
    /// The outcome of every read so far.
    pub closed spec fn reads(&self) -> Seq<Option<Seq<u8>>> {
        self.rx.reads()
    }

    /// What the decoder knows about the bytes so far.
    pub closed spec fn decoding(&self) -> Decoding {
        self.decoder@
    }

    /// Read failures since the last success or report.
    pub closed spec fn errors(&self) -> nat {
        self.rx_errors as nat
    }

    /// The failure count stays below the reporting threshold.
    pub open spec fn wf(&self) -> bool {
        self.errors() < MAX_RX_ERRORS
    }

    /// The RX half over the given transport.
    pub fn new(rx: R) -> (link: Self)
        ensures
            link.wf(),
            link.reads() == rx.reads(),
            link.decoding() == Decoding::Idle,
            link.errors() == 0,
    {
        CspLink { rx, decoder: KissDecoder::new(), rx_errors: 0 }
    }

    /// Pump the RX line once: read available bytes and decode every complete
    /// packet. Blocks up to the transport's read timeout, so it is meant to be
    /// called in a loop. Fails with [`CspError::Rx`] only after
    /// [`MAX_RX_ERRORS`] consecutive read failures; a timeout with no bytes is
    /// a successful empty poll.
    pub fn poll(&mut self) -> (polled: Polled)
        requires
            old(self).wf(),
        ensures
            final(self).wf(),
            final(self).reads().len() == old(self).reads().len() + 1,
            final(self).reads().drop_last() == old(self).reads(),
            match final(self).reads().last() {
                None => {
                    let (errors, reported) = after_failure(old(self).errors());
                    &&& final(self).errors() == errors
                    &&& final(self).decoding() == old(self).decoding()
                    &&& polled == Polled::Pause(
                        if reported {
                            Err(CspError::Rx)
                        } else {
                            Ok(())
                        },
                    )
                },
                Some(received) => {
                    let (decoding, frames) = kiss::decode_run(old(self).decoding(), received);
                    &&& final(self).errors() == 0
                    &&& final(self).decoding() == decoding
                    &&& polled matches Polled::Packets(packets) && packet_contents(packets@)
                        == packets_in(frames)
                },
            },
    {
        let mut buf: [u8; RX_CHUNK] = [0; RX_CHUNK];
        let count = self.rx.read(&mut buf);
        let Ok(n) = count else {
            self.rx_errors = self.rx_errors + 1;
            if self.rx_errors >= MAX_RX_ERRORS {
                self.rx_errors = 0;
                return Polled::Pause(Err(CspError::Rx));
            }
            return Polled::Pause(Ok(()));
        };
        self.rx_errors = 0;
        let received = vstd::slice::slice_subrange(buf.as_slice(), 0, n);
        let frames = self.decoder.push_all(received);
        Polled::Packets(decode_packets(&frames))
    }
}

/// Decode the frames that hold a packet.
fn decode_packets(frames: &Vec<Vec<u8>>) -> (packets: Vec<Packet>)
    ensures
        packet_contents(packets@) == packets_in(bytes::contents(frames@)),
{
    let mut packets: Vec<Packet> = Vec::new();
    let mut i: usize = 0;
    let ghost all = bytes::contents(frames@);
    while i < frames.len()
        invariant
            i <= frames.len(),
            all == bytes::contents(frames@),
            packet_contents(packets@) == packets_in(all.take(i as int)),
        decreases frames.len() - i,
    {
        assert(all.take(i + 1).drop_last() == all.take(i as int));
        assert(all[i as int] == frames@[i as int]@);
        if let Some(packet) = kiss::frame_to_packet(frames[i].as_slice()) {
            assert(packet_contents(packets@.push(packet)) == packet_contents(packets@).push(
                (packet.id, packet.data@),
            ));
            packets.push(packet);
        }
        i += 1;
    }
    assert(all.take(i as int) == all);
    packets
}

/// The failure count after `n` failed reads in a row, starting from none.
pub open spec fn errors_after(n: nat) -> nat
    decreases n,
{
    if n == 0 {
        0
    } else {
        after_failure(errors_after((n - 1) as nat)).0
    }
}

/// Of an unbroken run of failed reads, every tenth one is reported and no
/// other.
pub proof fn law_every_tenth_failure_is_reported(n: nat)
    requires
        n > 0,
    ensures
        errors_after(n) == n % 10,
        after_failure(errors_after((n - 1) as nat)).1 <==> n % 10 == 0,
    decreases n,
{
    if n > 1 {
        law_every_tenth_failure_is_reported((n - 1) as nat);
    } else {
        assert(errors_after(0) == 0);
    }
}

/// What an interface writes for a list of packets it sends.
pub open spec fn wire(packets: Seq<(PacketId, Seq<u8>)>) -> Seq<u8>
    decreases packets.len(),
{
    if packets.len() == 0 {
        seq![]
    } else {
        let (id, data) = packets.last();
        wire(packets.drop_last()) + kiss::kiss_frame(kiss::packet_bytes(id, data))
    }
}

/// Packets that one node sends are the packets another node reads off the
/// line, in order. Their headers must fit the wire, and none may announce a
/// checksum, which the reader would take off the data.
pub proof fn law_packets_cross_the_line(packets: Seq<(PacketId, Seq<u8>)>)
    requires
        forall|i: int|
            0 <= i < packets.len() ==> (#[trigger] packets[i]).0.fits() && !packets[i].0.has_crc(),
    ensures
        packets_in(kiss::decode_run(Decoding::Idle, wire(packets)).1) == packets,
{
    lemma_line(packets);
}

proof fn lemma_line(packets: Seq<(PacketId, Seq<u8>)>)
    requires
        forall|i: int|
            0 <= i < packets.len() ==> (#[trigger] packets[i]).0.fits() && !packets[i].0.has_crc(),
    ensures
        packets_in(kiss::decode_run(Decoding::Idle, wire(packets)).1) == packets,
        kiss::decode_run(Decoding::Idle, wire(packets)).0 is Idle || kiss::decode_run(
            Decoding::Idle,
            wire(packets),
        ).0 is Command,
    decreases packets.len(),
{
    if packets.len() > 0 {
        let before = packets.drop_last();
        let (id, data) = packets.last();
        let raw = kiss::packet_bytes(id, data);
        assert(packets[packets.len() - 1].0.fits());
        assert forall|i: int| 0 <= i < before.len() implies (#[trigger] before[i]).0.fits()
            && !before[i].0.has_crc() by {
            assert(before[i] == packets[i]);
        }
        lemma_line(before);
        let (reached, frames) = kiss::decode_run(Decoding::Idle, wire(before));
        kiss_laws::law_decoding_is_incremental(Decoding::Idle, wire(before), kiss::kiss_frame(raw));
        kiss_laws::law_sent_packet_arrives(reached, id, data);
        assert(frames + seq![raw] == frames.push(raw));
        assert(frames.push(raw).drop_last() == frames);
        assert(before.push((id, data)) == packets);
    }
}

/// Every frame with a header is a packet, and comes in its turn; shorter ones
/// are passed over.
pub proof fn law_frames_with_a_header_are_packets(frames: Seq<Seq<u8>>, frame: Seq<u8>)
    ensures
        packets_in(Seq::empty()).len() == 0,
        frame.len() >= 4 ==> packets_in(frames.push(frame)) == packets_in(frames).push(
            (kiss::frame_id(frame), kiss::frame_data(frame)),
        ),
        frame.len() < 4 ==> packets_in(frames.push(frame)) == packets_in(frames),
{
    assert(frames.push(frame).drop_last() == frames);
}

/// The contents of a packet are its header and its data.
pub proof fn law_packet_contents_are_what_packets_hold(packets: Seq<Packet>, i: int)
    requires
        0 <= i < packets.len(),
    ensures
        packet_contents(packets).len() == packets.len(),
        packet_contents(packets)[i].0 == packets[i].id,
        packet_contents(packets)[i].1 == packets[i].data@,
{
}

/// Nine failures in a row are borne, each counted; the tenth is reported, and
/// the count starts anew.
pub proof fn law_tenth_failure_starts_anew(errors: nat)
    ensures
        errors < 9 ==> after_failure(errors) == (errors + 1, false),
        errors >= 9 ==> after_failure(errors) == (0nat, true),
{
}

} // verus!
