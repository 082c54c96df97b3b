//! KISS framing of CSP packets for a serial line.
//!
//! A KISS frame is a frame-end byte, a zero command byte, the payload with its
//! two special bytes escaped, and a closing frame-end byte. The payload of a
//! frame is one CSP packet: a big-endian header word followed by its data.

use vstd::prelude::*;

use crate::bytes;
use crate::text;

verus! {

/// Frame end: opens and closes every frame.
pub const FEND: u8 = 0xC0;

/// Escape: announces an escaped byte.
pub const FESC: u8 = 0xDB;

/// Stands for an escaped [`FEND`].
pub const TFEND: u8 = 0xDC;

/// Stands for an escaped [`FESC`].
pub const TFESC: u8 = 0xDD;

/// The wire form of one payload byte.
pub open spec fn escaped(b: u8) -> Seq<u8> {
    if b == FEND {
        seq![FESC, TFEND]
    } else if b == FESC {
        seq![FESC, TFESC]
    } else {
        seq![b]
    }
}

/// The wire form of a whole payload.
pub open spec fn escaped_all(data: Seq<u8>) -> Seq<u8>
    decreases data.len(),
{
    if data.len() == 0 {
        seq![]
    } else {
        escaped_all(data.drop_last()) + escaped(data.last())
    }
}

/// The KISS frame that carries `data`.
pub open spec fn kiss_frame(data: Seq<u8>) -> Seq<u8> {
    seq![FEND, 0u8] + escaped_all(data) + seq![FEND]
}

/// Encode `data` as one KISS frame.
pub fn kiss_encode(data: &[u8]) -> (out: Vec<u8>)
    ensures
        out@ == kiss_frame(data@),
{
    let mut out: Vec<u8> = Vec::new();
    out.push(FEND);
    out.push(0x00);
    let mut i: usize = 0;
    while i < data.len()
        invariant
            i <= data.len(),
            out@ == seq![FEND, 0u8] + escaped_all(data@.take(i as int)),
        decreases data.len() - i,
    {
        let b = data[i];
        if b == FEND {
            out.push(FESC);
            out.push(TFEND);
        } else if b == FESC {
            out.push(FESC);
            out.push(TFESC);
        } else {
            out.push(b);
        }
        assert(data@.take(i + 1).drop_last() == data@.take(i as int));
        i += 1;
    }
    assert(data@.take(i as int) == data@);
    out.push(FEND);
    out
}

/// What a decoder knows about the byte stream so far.
pub enum Decoding {
    /// Waiting for a frame end.
    Idle,
    /// A frame end was seen; the command byte comes next.
    Command,
    /// Inside a frame, with the payload received so far.
    Data(Seq<u8>),
    /// As [`Decoding::Data`], right after an escape byte.
    Escape(Seq<u8>),
}

/// One received byte: the next state, and the frame it completes.
pub open spec fn decode_step(state: Decoding, b: u8) -> (Decoding, Option<Seq<u8>>) {
    match state {
        Decoding::Idle => (if b == FEND { Decoding::Command } else { Decoding::Idle }, None),
        Decoding::Command => (
            if b == FEND {
                Decoding::Command
            } else if b == 0 {
                Decoding::Data(seq![])
            } else {
                Decoding::Idle
            },
            None,
        ),
        Decoding::Data(payload) => if b == FEND && payload.len() == 0 {
            (state, None)
        } else if b == FEND {
            (Decoding::Command, Some(payload))
        } else if b == FESC {
            (Decoding::Escape(payload), None)
        } else {
            (Decoding::Data(payload.push(b)), None)
        },
        Decoding::Escape(payload) => (
            if b == TFEND {
                Decoding::Data(payload.push(FEND))
            } else if b == TFESC {
                Decoding::Data(payload.push(FESC))
            } else {
                Decoding::Idle
            },
            None,
        ),
    }
}

/// The state after a run of bytes, and the frames completed on the way.
pub open spec fn decode_run(state: Decoding, run: Seq<u8>) -> (Decoding, Seq<Seq<u8>>)
    decreases run.len(),
{
    if run.len() == 0 {
        (state, seq![])
    } else {
        let (before, frames) = decode_run(state, run.drop_last());
        let (after, frame) = decode_step(before, run.last());
        match frame {
            Some(payload) => (after, frames.push(payload)),
            None => (after, frames),
        }
    }
}

enum KissState {
    Idle,
    Command,
    Data,
    Escape,
}

/// Incremental KISS decoder: bytes in, payloads of complete frames out.
pub struct KissDecoder {
    state: KissState,
    buf: Vec<u8>,
}

impl View for KissDecoder {
    type V = Decoding;

    closed spec fn view(&self) -> Decoding {
        match self.state {
            KissState::Idle => Decoding::Idle,
            KissState::Command => Decoding::Command,
            KissState::Data => Decoding::Data(self.buf@),
            KissState::Escape => Decoding::Escape(self.buf@),
        }
    }
}

impl KissDecoder {
    /// A decoder that has seen nothing yet.
    pub fn new() -> (decoder: Self)
        ensures
            decoder@ == Decoding::Idle,
    {
        Self { state: KissState::Idle, buf: Vec::new() }
    }

    /// Take in one byte; returns the payload of the frame it completes, if any.
    pub fn push(&mut self, b: u8) -> (frame: Option<Vec<u8>>)
        ensures
            final(self)@ == decode_step(old(self)@, b).0,
            frame is Some <==> decode_step(old(self)@, b).1 is Some,
            frame matches Some(payload) ==> decode_step(old(self)@, b).1 == Some(payload@),
    {
        match self.state {
            KissState::Idle => {
                if b == FEND {
                    self.state = KissState::Command;
                }
                None
            },
            KissState::Command => {
                if b == FEND {
                } else if b == 0x00 {
                    self.buf.clear();
                    self.state = KissState::Data;
                } else {
                    self.state = KissState::Idle;
                }
                None
            },
            KissState::Data => {
                if b == FEND {
                    if self.buf.is_empty() {
                        return None;
                    }
                    let mut frame: Vec<u8> = Vec::new();
                    std::mem::swap(&mut frame, &mut self.buf);
                    self.state = KissState::Command;
                    Some(frame)
                } else if b == FESC {
                    self.state = KissState::Escape;
                    None
                } else {
                    self.buf.push(b);
                    None
                }
            },
            KissState::Escape => {
                if b == TFEND {
                    self.buf.push(FEND);
                    self.state = KissState::Data;
                } else if b == TFESC {
                    self.buf.push(FESC);
                    self.state = KissState::Data;
                } else {
                    self.state = KissState::Idle;
                }
                None
            },
        }
    }

    /// Take in a run of bytes; returns the payloads of the frames it completes,
    /// in order.
    pub fn push_all(&mut self, run: &[u8]) -> (frames: Vec<Vec<u8>>)
        ensures
            final(self)@ == decode_run(old(self)@, run@).0,
            bytes::contents(frames@) == decode_run(old(self)@, run@).1,
    {
        let mut frames: Vec<Vec<u8>> = Vec::new();
        let mut i: usize = 0;
        while i < run.len()
            invariant
                i <= run.len(),
                self@ == decode_run(old(self)@, run@.take(i as int)).0,
                bytes::contents(frames@) == decode_run(old(self)@, run@.take(i as int)).1,
            decreases run.len() - i,
        {
            assert(run@.take(i + 1).drop_last() == run@.take(i as int));
            if let Some(frame) = self.push(run[i]) {
                proof {
                    bytes::lemma_contents_push(frames@, frame);
                }
                frames.push(frame);
            }
            i += 1;
        }
        assert(run@.take(i as int) == run@);
        frames
    }
}

/// Set in the flags of a packet whose data ends in a four-byte checksum.
pub const CSP_FLAG_CRC32: u8 = 0x10;

/// The header of a CSP packet.
#[derive(Clone, Copy, Debug, PartialEq, Eq, Structural)]
pub struct PacketId {
    /// Priority, two bits on the wire.
    pub pri: u8,
    /// Option flags, eight bits on the wire.
    pub flags: u8,
    /// Source node, five bits on the wire.
    pub src: u16,
    /// Destination node, five bits on the wire.
    pub dst: u16,
    /// Destination port, six bits on the wire.
    pub dport: u8,
    /// Source port, six bits on the wire.
    pub sport: u8,
}

impl PacketId {
    /// Every field fits the bits it has on the wire.
    pub open spec fn fits(self) -> bool {
        &&& self.pri < 4
        &&& self.src < 32
        &&& self.dst < 32
        &&& self.dport < 64
        &&& self.sport < 64
    }

    /// The data is followed by a checksum.
    pub open spec fn has_crc(self) -> bool {
        self.flags & CSP_FLAG_CRC32 != 0
    }
}

/// The header word of a packet. A field too wide for its bits spills into its
/// neighbour.
pub open spec fn header_word(id: PacketId) -> u32 {
    ((id.pri as u32) << 30u32) | ((id.src as u32) << 25u32) | ((id.dst as u32) << 20u32) | ((
    id.dport as u32) << 14u32) | ((id.sport as u32) << 8u32) | (id.flags as u32)
}

/// The header that a header word stands for.
pub open spec fn header_of(word: u32) -> PacketId {
    PacketId {
        pri: ((word >> 30u32) & 0x3) as u8,
        flags: (word & 0xFF) as u8,
        src: ((word >> 25u32) & 0x1F) as u16,
        dst: ((word >> 20u32) & 0x1F) as u16,
        dport: ((word >> 14u32) & 0x3F) as u8,
        sport: ((word >> 8u32) & 0x3F) as u8,
    }
}

/// A CSP packet: its header and its data.
#[derive(Debug)]
pub struct Packet {
    /// The header.
    pub id: PacketId,
    /// The data behind the header.
    pub data: Vec<u8>,
}

/// The bytes of a packet: the header word, most significant byte first, then
/// the data.
pub open spec fn packet_bytes(id: PacketId, data: Seq<u8>) -> Seq<u8> {
    bytes::big_endian_digits(header_word(id) as nat, 4) + data
}

/// The header of the packet in `frame`.
pub open spec fn frame_id(frame: Seq<u8>) -> PacketId {
    header_of(bytes::big_endian(frame.take(4)) as u32)
}

/// The data of the packet in `frame`: what follows the header word, less the
/// checksum where the header announces one and there is room for it.
pub open spec fn frame_data(frame: Seq<u8>) -> Seq<u8> {
    let rest = frame.skip(4);
    if frame_id(frame).has_crc() && rest.len() >= 4 {
        rest.take(rest.len() - 4)
    } else {
        rest
    }
}

/// The bytes of `packet`, ready for KISS framing.
pub fn encode_packet(packet: &Packet) -> (raw: Vec<u8>)
    ensures
        raw@ == packet_bytes(packet.id, packet.data@),
{
    let id = packet.id;
    let word: u32 = ((id.pri as u32) << 30u32) | ((id.src as u32) << 25u32) | ((id.dst as u32)
        << 20u32) | ((id.dport as u32) << 14u32) | ((id.sport as u32) << 8u32) | (id.flags as u32);
    let mut raw: Vec<u8> = Vec::new();
    bytes::push_u32_be(&mut raw, word);
    raw.extend_from_slice(packet.data.as_slice());
    raw
}

/// Decode the payload of a KISS frame into a packet, or `None` if it is too
/// short to hold a header.
pub fn frame_to_packet(frame: &[u8]) -> (packet: Option<Packet>)
    ensures
        packet is Some <==> frame.len() >= 4,
        packet matches Some(p) ==> p.id == frame_id(frame@) && p.data@ == frame_data(frame@),
{
    if frame.len() < 4 {
        return None;
    }
    let word = bytes::read_u32_be(frame, 0);
    assert(frame@.subrange(0, 4) == frame@.take(4));
    let id = PacketId {
        pri: ((word >> 30u32) & 0x3) as u8,
        flags: (word & 0xFF) as u8,
        src: ((word >> 25u32) & 0x1F) as u16,
        dst: ((word >> 20u32) & 0x1F) as u16,
        dport: ((word >> 14u32) & 0x3F) as u8,
        sport: ((word >> 8u32) & 0x3F) as u8,
    };
    let end: usize = if id.flags & CSP_FLAG_CRC32 != 0 && frame.len() >= 8 {
        frame.len() - 4
    } else {
        frame.len()
    };
    let data = vstd::slice::slice_to_vec(vstd::slice::slice_subrange(frame, 4, end));
    assert(data@ == frame_data(frame@));
    Some(Packet { id, data })
}

/// Render packet data for a log line: a placeholder when there is none, the
/// size when there are more than 32 bytes, the bytes in hexadecimal otherwise.
pub open spec fn payload_text(data: Seq<u8>) -> Seq<char> {
    if data.len() == 0 {
        "(empty)"@
    } else if data.len() > 32 {
        seq!['('] + text::decimal(data.len()) + " bytes)"@
    } else {
        text::hex_list(data)
    }
}

/// Render packet data for a log line.
pub fn fmt_payload(data: &[u8]) -> (line: String)
    ensures
        line@ == payload_text(data@),
{
    if data.len() == 0 {
        return "(empty)".to_owned();
    }
    let mut line = String::new();
    if data.len() > 32 {
        line.push('(');
        text::push_decimal(&mut line, data.len() as u64);
        line.append(" bytes)");
    } else {
        text::push_hex_list(&mut line, data);
    }
    line
}

/// A CSP interface that queues the packets this node sends as KISS frames
/// until the serial port takes them.
pub struct UartKissIface {
    tx: Vec<u8>,
}

impl View for UartKissIface {
    type V = Seq<u8>;

    closed spec fn view(&self) -> Seq<u8> {
        self.tx@
    }
}

impl UartKissIface {
    /// An interface with nothing queued.
    pub fn new() -> (iface: Self)
        ensures
            iface@ == Seq::<u8>::empty(),
    {
        Self { tx: Vec::new() }
    }

    /// Queue `packet` if this node sends it; packets passing through are
    /// dropped.
    pub fn nexthop(&mut self, packet: &Packet, from_me: bool)
        ensures
            final(self)@ == if from_me {
                old(self)@ + kiss_frame(packet_bytes(packet.id, packet.data@))
            } else {
                old(self)@
            },
    {
        if !from_me {
            return;
        }
        let raw = encode_packet(packet);
        let frame = kiss_encode(raw.as_slice());
        self.tx.extend_from_slice(frame.as_slice());
    }

    /// The interface's name.
    pub fn name(&self) -> (name: &'static str)
        ensures
            name@ == "KISS"@,
    {
        "KISS"
    }
}

/// Drain the bytes queued for transmission.
pub fn take_tx(iface: &mut UartKissIface) -> (queued: Vec<u8>)
    ensures
        queued@ == old(iface)@,
        final(iface)@ == Seq::<u8>::empty(),
{
    let mut queued: Vec<u8> = Vec::new();
    std::mem::swap(&mut queued, &mut iface.tx);
    queued
}

} // verus!
