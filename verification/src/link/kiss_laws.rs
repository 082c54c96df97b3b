//! What the KISS/CSP codec promises as a whole: whatever is framed comes back
//! out of the decoder, and frames cannot run into each other.

use vstd::prelude::*;

use super::kiss;
use super::kiss::{Decoding, PacketId};
use crate::bytes;
use crate::text;

verus! {

/// Decoding a run in two parts gives what decoding it at once gives.
pub proof fn law_decoding_is_incremental(state: Decoding, first: Seq<u8>, second: Seq<u8>)
    ensures
        kiss::decode_run(state, first + second).0 == kiss::decode_run(
            kiss::decode_run(state, first).0,
            second,
        ).0,
        kiss::decode_run(state, first + second).1 == kiss::decode_run(state, first).1
            + kiss::decode_run(kiss::decode_run(state, first).0, second).1,
    decreases second.len(),
{
    if second.len() == 0 {
        assert(first + second == first);
    } else {
        law_decoding_is_incremental(state, first, second.drop_last());
        assert((first + second).drop_last() == first + second.drop_last());
    }
}

/// One byte decodes in one step.
proof fn lemma_run_of_one(state: Decoding, b: u8)
    ensures
        kiss::decode_run(state, seq![b]).0 == kiss::decode_step(state, b).0,
        kiss::decode_run(state, seq![b]).1 == match kiss::decode_step(state, b).1 {
            Some(payload) => seq![payload],
            None => seq![],
        },
{
    reveal_with_fuel(kiss::decode_run, 2);
    assert(seq![b].drop_last() == Seq::<u8>::empty());
}

/// Inside a frame, an escaped payload decodes to the payload itself.
proof fn lemma_escaped_decodes(payload: Seq<u8>, data: Seq<u8>)
    ensures
        kiss::decode_run(Decoding::Data(payload), kiss::escaped_all(data)).0 == Decoding::Data(
            payload + data,
        ),
        kiss::decode_run(Decoding::Data(payload), kiss::escaped_all(data)).1.len() == 0,
    decreases data.len(),
{
    let start = Decoding::Data(payload);
    if data.len() == 0 {
        assert(payload + data == payload);
    } else {
        let body = data.drop_last();
        let b = data.last();
        lemma_escaped_decodes(payload, body);
        law_decoding_is_incremental(start, kiss::escaped_all(body), kiss::escaped(b));
        let middle = Decoding::Data(payload + body);
        assert((payload + body).push(b) == payload + data);
        if b == kiss::FEND || b == kiss::FESC {
            let second = if b == kiss::FEND {
                kiss::TFEND
            } else {
                kiss::TFESC
            };
            assert(kiss::escaped(b) == seq![kiss::FESC] + seq![second]);
            law_decoding_is_incremental(middle, seq![kiss::FESC], seq![second]);
            lemma_run_of_one(middle, kiss::FESC);
            lemma_run_of_one(Decoding::Escape(payload + body), second);
        } else {
            lemma_run_of_one(middle, b);
        }
    }
}

/// A decoder that is between frames, or inside a frame whose payload has
/// begun, recovers exactly the payload of the next frame it sees, and is
/// between frames again. A payload that was cut off comes out ahead of it.
pub proof fn law_frame_round_trip(state: Decoding, data: Seq<u8>)
    requires
        data.len() > 0,
        state is Idle || state is Command || (state matches Decoding::Data(cut) && cut.len() > 0),
    ensures
        kiss::decode_run(state, kiss::kiss_frame(data)).0 == Decoding::Command,
        kiss::decode_run(state, kiss::kiss_frame(data)).1 == match state {
            Decoding::Data(cut) => seq![cut, data],
            _ => seq![data],
        },
{
    let open = seq![kiss::FEND, 0u8];
    let body = kiss::escaped_all(data);
    let close = seq![kiss::FEND];
    assert(open == seq![kiss::FEND] + seq![0u8]);
    law_decoding_is_incremental(state, seq![kiss::FEND], seq![0u8]);
    lemma_run_of_one(state, kiss::FEND);
    lemma_run_of_one(Decoding::Command, 0u8);
    law_decoding_is_incremental(state, open, body);
    lemma_escaped_decodes(seq![], data);
    assert(Seq::<u8>::empty() + data == data);
    law_decoding_is_incremental(state, open + body, close);
    lemma_run_of_one(Decoding::Data(data), kiss::FEND);
}

/// The frames of `payloads`, one after the other.
pub open spec fn stream(payloads: Seq<Seq<u8>>) -> Seq<u8>
    decreases payloads.len(),
{
    if payloads.len() == 0 {
        seq![]
    } else {
        stream(payloads.drop_last()) + kiss::kiss_frame(payloads.last())
    }
}

/// A stream of frames decodes to exactly the payloads that went in, in order.
pub proof fn law_stream_round_trip(payloads: Seq<Seq<u8>>)
    requires
        forall|i: int| 0 <= i < payloads.len() ==> (#[trigger] payloads[i]).len() > 0,
    ensures
        kiss::decode_run(Decoding::Idle, stream(payloads)).1 == payloads,
        kiss::decode_run(Decoding::Idle, stream(payloads)).0 == if payloads.len() == 0 {
            Decoding::Idle
        } else {
            Decoding::Command
        },
    decreases payloads.len(),
{
    if payloads.len() > 0 {
        let before = payloads.drop_last();
        law_stream_round_trip(before);
        law_decoding_is_incremental(
            Decoding::Idle,
            stream(before),
            kiss::kiss_frame(payloads.last()),
        );
        let reached = kiss::decode_run(Decoding::Idle, stream(before)).0;
        assert(payloads[payloads.len() - 1].len() > 0);
        law_frame_round_trip(reached, payloads.last());
        assert(before + seq![payloads.last()] == payloads);
    }
}

/// Frame ends only ever mark the start and the end of a frame.
pub proof fn law_frame_end_only_at_the_ends(data: Seq<u8>)
    ensures
        ({
            let frame = kiss::kiss_frame(data);
            forall|i: int|
                0 <= i < frame.len() ==> (frame[i] == kiss::FEND <==> i == 0 || i == frame.len()
                    - 1)
        }),
{
    lemma_escaped_has_no_frame_end(data);
}

proof fn lemma_escaped_has_no_frame_end(data: Seq<u8>)
    ensures
        forall|i: int|
            0 <= i < kiss::escaped_all(data).len() ==> kiss::escaped_all(data)[i] != kiss::FEND,
    decreases data.len(),
{
    if data.len() > 0 {
        let body = kiss::escaped_all(data.drop_last());
        let tail = kiss::escaped(data.last());
        lemma_escaped_has_no_frame_end(data.drop_last());
        assert(kiss::escaped_all(data) == body + tail);
        assert forall|i: int| 0 <= i < tail.len() implies tail[i] != kiss::FEND by {}
        assert forall|i: int| 0 <= i < (body + tail).len() implies (body + tail)[i]
            != kiss::FEND by {
            if i < body.len() {
                assert((body + tail)[i] == body[i]);
            } else {
                assert((body + tail)[i] == tail[i - body.len()]);
            }
        }
    }
}

/// A header whose fields fit the wire survives packing and unpacking.
pub proof fn law_header_round_trip(id: PacketId)
    requires
        id.fits(),
    ensures
        kiss::header_of(kiss::header_word(id)) == id,
{
    let (pri, flags, src, dst, dport, sport) = (
        id.pri,
        id.flags,
        id.src,
        id.dst,
        id.dport,
        id.sport,
    );
    assert(({
        let word: u32 = ((pri as u32) << 30u32) | ((src as u32) << 25u32) | ((dst as u32) << 20u32)
            | ((dport as u32) << 14u32) | ((sport as u32) << 8u32) | (flags as u32);
        &&& ((word >> 30u32) & 0x3) as u8 == pri
        &&& (word & 0xFF) as u8 == flags
        &&& ((word >> 25u32) & 0x1F) as u16 == src
        &&& ((word >> 20u32) & 0x1F) as u16 == dst
        &&& ((word >> 14u32) & 0x3F) as u8 == dport
        &&& ((word >> 8u32) & 0x3F) as u8 == sport
    })) by (bit_vector)
        requires
            pri < 4,
            src < 32,
            dst < 32,
            dport < 64,
            sport < 64,
    ;
}

/// The header of an encoded packet is read back as it was, and so are the
/// bytes behind it.
proof fn lemma_packet_parts(id: PacketId, data: Seq<u8>)
    requires
        id.fits(),
    ensures
        kiss::packet_bytes(id, data).len() == 4 + data.len(),
        kiss::frame_id(kiss::packet_bytes(id, data)) == id,
        kiss::packet_bytes(id, data).skip(4) == data,
{
    let word = kiss::header_word(id);
    let header = bytes::big_endian_digits(word as nat, 4);
    assert(vstd::arithmetic::power::pow(256, 4) == 0x1_0000_0000) by {
        reveal_with_fuel(vstd::arithmetic::power::pow, 5);
    }
    bytes::law_big_endian_round_trip(word as nat, 4);
    assert(kiss::packet_bytes(id, data).take(4) == header);
    assert(kiss::packet_bytes(id, data).skip(4) == data);
    law_header_round_trip(id);
}

/// A packet without a checksum is decoded to itself.
pub proof fn law_packet_round_trip(id: PacketId, data: Seq<u8>)
    requires
        id.fits(),
        !id.has_crc(),
    ensures
        kiss::frame_id(kiss::packet_bytes(id, data)) == id,
        kiss::frame_data(kiss::packet_bytes(id, data)) == data,
{
    lemma_packet_parts(id, data);
}

/// A packet that announces a checksum is decoded to its data without it.
pub proof fn law_checksum_is_stripped(id: PacketId, data: Seq<u8>, checksum: Seq<u8>)
    requires
        id.fits(),
        id.has_crc(),
        checksum.len() == 4,
    ensures
        kiss::frame_id(kiss::packet_bytes(id, data + checksum)) == id,
        kiss::frame_data(kiss::packet_bytes(id, data + checksum)) == data,
{
    lemma_packet_parts(id, data + checksum);
    assert((data + checksum).take(data.len() as int) == data);
}

/// A packet that this node sends arrives at a decoder between frames as one
/// frame, and that frame holds the packet.
pub proof fn law_sent_packet_arrives(state: Decoding, id: PacketId, data: Seq<u8>)
    requires
        state is Idle || state is Command,
        id.fits(),
        !id.has_crc(),
    ensures
        ({
            let raw = kiss::packet_bytes(id, data);
            &&& kiss::decode_run(state, kiss::kiss_frame(raw)) == (Decoding::Command, seq![raw])
            &&& raw.len() >= 4
            &&& kiss::frame_id(raw) == id
            &&& kiss::frame_data(raw) == data
        }),
{
    lemma_packet_parts(id, data);
    law_frame_round_trip(state, kiss::packet_bytes(id, data));
}

/// Escaping goes byte by byte: the two bytes with a meaning of their own are
/// sent as two others, and every other byte as it is.
pub proof fn law_escaping_goes_byte_by_byte(data: Seq<u8>, b: u8)
    ensures
        kiss::escaped_all(Seq::empty()) == Seq::<u8>::empty(),
        b == 0xC0 ==> kiss::escaped_all(data.push(b)) == kiss::escaped_all(data) + seq![
            0xDBu8,
            0xDC,
        ],
        b == 0xDB ==> kiss::escaped_all(data.push(b)) == kiss::escaped_all(data) + seq![
            0xDBu8,
            0xDD,
        ],
        b != 0xC0 && b != 0xDB ==> kiss::escaped_all(data.push(b)) == kiss::escaped_all(data).push(
            b,
        ),
{
    assert(data.push(b).drop_last() == data);
    assert(kiss::escaped_all(data) + seq![b] =~= kiss::escaped_all(data).push(b));
}

/// A frame is its escaped bytes between an end mark with a zero behind it and
/// another end mark.
pub proof fn law_frame_bytes(data: Seq<u8>)
    ensures
        ({
            let frame = kiss::kiss_frame(data);
            let n = frame.len() as int;
            &&& n == kiss::escaped_all(data).len() + 3
            &&& frame[0] == 0xC0
            &&& frame[1] == 0
            &&& frame.subrange(2, n - 1) == kiss::escaped_all(data)
            &&& frame[n - 1] == 0xC0
        }),
{
    let frame = kiss::kiss_frame(data);
    assert(frame.subrange(2, frame.len() - 1) =~= kiss::escaped_all(data));
}

/// Outside a frame every byte but an end mark is passed over. Behind an end mark
/// a zero opens a frame, further end marks change nothing, and any other byte
/// means that this is no frame.
pub proof fn law_frames_open_with_a_zero(b: u8)
    ensures
        kiss::decode_step(Decoding::Idle, b).1 is None,
        kiss::decode_step(Decoding::Idle, b).0 is Command <==> b == 0xC0,
        kiss::decode_step(Decoding::Idle, b).0 is Idle <==> b != 0xC0,
        kiss::decode_step(Decoding::Command, b).1 is None,
        kiss::decode_step(Decoding::Command, b).0 is Command <==> b == 0xC0,
        kiss::decode_step(Decoding::Command, b).0 == Decoding::Data(Seq::empty()) <==> b == 0,
        kiss::decode_step(Decoding::Command, b).0 is Idle <==> b != 0xC0 && b != 0,
{
}

/// Within a frame an end mark hands out what was collected, unless that is
/// nothing; the escape mark is held back; every other byte is collected.
pub proof fn law_frames_collect_their_bytes(payload: Seq<u8>, b: u8)
    ensures
        b == 0xC0 && payload.len() == 0 ==> kiss::decode_step(Decoding::Data(payload), b) == (
            Decoding::Data(payload),
            None::<Seq<u8>>,
        ),
        b == 0xC0 && payload.len() > 0 ==> kiss::decode_step(Decoding::Data(payload), b) == (
            Decoding::Command,
            Some(payload),
        ),
        b == 0xDB ==> kiss::decode_step(Decoding::Data(payload), b) == (
            Decoding::Escape(payload),
            None::<Seq<u8>>,
        ),
        b != 0xC0 && b != 0xDB ==> kiss::decode_step(Decoding::Data(payload), b) == (
            Decoding::Data(payload.push(b)),
            None::<Seq<u8>>,
        ),
{
}

/// Behind an escape mark only two bytes stand for something: the end mark and
/// the escape mark. Any other ends the frame, and nothing of it is handed out.
pub proof fn law_escapes_stand_for_marks(payload: Seq<u8>, b: u8)
    ensures
        kiss::decode_step(Decoding::Escape(payload), b).1 is None,
        b == 0xDC ==> kiss::decode_step(Decoding::Escape(payload), b).0 == Decoding::Data(
            payload.push(0xC0),
        ),
        b == 0xDD ==> kiss::decode_step(Decoding::Escape(payload), b).0 == Decoding::Data(
            payload.push(0xDB),
        ),
        b != 0xDC && b != 0xDD ==> kiss::decode_step(Decoding::Escape(payload), b).0 is Idle,
{
}

/// A run of bytes is decoded byte by byte, and the frames come in the order in
/// which they end.
pub proof fn law_runs_are_decoded_byte_by_byte(state: Decoding, run: Seq<u8>, b: u8)
    ensures
        kiss::decode_run(state, Seq::empty()) == (state, Seq::<Seq<u8>>::empty()),
        ({
            let (before, frames) = kiss::decode_run(state, run);
            let (after, frame) = kiss::decode_step(before, b);
            kiss::decode_run(state, run.push(b)) == (
                after,
                match frame {
                    Some(payload) => frames.push(payload),
                    None => frames,
                },
            )
        }),
{
    assert(run.push(b).drop_last() == run);
}

/// Where the fields of a header stand in its four bytes.
pub proof fn law_header_fields(frame: Seq<u8>)
    requires
        frame.len() >= 4,
    ensures
        ({
            let id = kiss::frame_id(frame);
            &&& id.pri == frame[0] / 64
            &&& id.src == frame[0] / 2 % 32
            &&& id.dst == frame[0] % 2 * 16 + frame[1] / 16
            &&& id.dport == frame[1] % 16 * 4 + frame[2] / 64
            &&& id.sport == frame[2] % 64
            &&& id.flags == frame[3]
        }),
{
    let (a, b, c, d) = (frame[0], frame[1], frame[2], frame[3]);
    assert(frame.take(4) == frame.subrange(0, 4));
    bytes::law_big_endian_weights(frame, 0);
    let word = (16777216 * a + 65536 * b + 256 * c + d) as u32;
    assert(word == 16777216 * a + 65536 * b + 256 * c + d);
    assert(((word >> 30u32) & 0x3) as u8 == a / 64 && ((word >> 25u32) & 0x1F) as u16 == a / 2 % 32
        && ((word >> 20u32) & 0x1F) as u16 == a % 2 * 16 + b / 16 && ((word >> 14u32) & 0x3F) as u8
        == b % 16 * 4 + c / 64 && ((word >> 8u32) & 0x3F) as u8 == c % 64 && (word & 0xFF) as u8
        == d) by (bit_vector)
        requires
            word == 16777216 * a + 65536 * b + 256 * c + d,
    ;
}

/// A packet is its header of four bytes and its data; fields that fit stand side
/// by side in the header.
pub proof fn law_packet_fields(id: PacketId, data: Seq<u8>)
    requires
        id.fits(),
    ensures
        ({
            let raw = kiss::packet_bytes(id, data);
            &&& raw.len() == 4 + data.len()
            &&& raw.skip(4) == data
            &&& raw[0] == 64 * id.pri + 2 * id.src + id.dst / 16
            &&& raw[1] == id.dst % 16 * 16 + id.dport / 4
            &&& raw[2] == id.dport % 4 * 64 + id.sport
            &&& raw[3] == id.flags
        }),
{
    let word = kiss::header_word(id);
    let (pri, src, dst) = (id.pri, id.src, id.dst);
    let (dport, sport, flags) = (id.dport, id.sport, id.flags);
    bytes::law_digits_add_up(0, word);
    assert(kiss::packet_bytes(id, data).skip(4) =~= data);
    assert((((pri as u32) << 30u32) | ((src as u32) << 25u32) | ((dst as u32) << 20u32) | ((
    dport as u32) << 14u32) | ((sport as u32) << 8u32) | (flags as u32)) == 0x4000_0000 * pri
        + 0x200_0000 * src + 0x10_0000 * dst + 0x4000 * dport + 0x100 * sport + flags)
        by (bit_vector)
        requires
            pri < 4,
            src < 32,
            dst < 32,
            dport < 64,
            sport < 64,
    ;
}

/// A field that does not fit spills into the bits above it, and is cut off at
/// the end of the word.
pub proof fn law_wide_fields_spill(id: PacketId)
    ensures
        ({
            let none = PacketId { pri: 0, flags: 0, src: 0, dst: 0, dport: 0, sport: 0 };
            let pri = kiss::header_word(PacketId { pri: id.pri, ..none });
            let src = kiss::header_word(PacketId { src: id.src, ..none });
            let dst = kiss::header_word(PacketId { dst: id.dst, ..none });
            let dport = kiss::header_word(PacketId { dport: id.dport, ..none });
            let sport = kiss::header_word(PacketId { sport: id.sport, ..none });
            let flags = kiss::header_word(PacketId { flags: id.flags, ..none });
            &&& pri == id.pri * 0x4000_0000 % 0x1_0000_0000
            &&& src == id.src * 0x200_0000 % 0x1_0000_0000
            &&& dst == id.dst * 0x10_0000 % 0x1_0000_0000
            &&& dport == id.dport * 0x4000
            &&& sport == id.sport * 0x100
            &&& flags == id.flags
            &&& kiss::header_word(id) == pri | src | dst | dport | sport | flags
        }),
{
    let (pri, src, dst) = (id.pri as u32, id.src as u32, id.dst as u32);
    let (dport, sport, flags) = (id.dport as u32, id.sport as u32, id.flags as u32);
    let zero: u32 = 0;
    assert(zero << 30u32 == 0 && zero << 25u32 == 0 && zero << 20u32 == 0 && zero << 14u32 == 0
        && zero << 8u32 == 0 && zero | zero == 0) by (bit_vector)
        requires
            zero == 0,
    ;
    assert(pri << 30u32 == pri * 0x4000_0000 % 0x1_0000_0000 && src << 25u32 == src * 0x200_0000
        % 0x1_0000_0000 && dst << 20u32 == dst * 0x10_0000 % 0x1_0000_0000 && dport << 14u32
        == dport * 0x4000 && sport << 8u32 == sport * 0x100) by (bit_vector)
        requires
            dport < 256,
            sport < 256,
    ;
    let (p, s, d, a, b) = (pri << 30u32, src << 25u32, dst << 20u32, dport << 14u32, sport << 8u32);
    assert(p | 0u32 == p && 0u32 | s == s && 0u32 | d == d && 0u32 | a == a && 0u32 | b == b && 0u32
        | flags == flags && s | 0u32 == s && d | 0u32 == d && a | 0u32 == a && b | 0u32 == b)
        by (bit_vector);
}

/// The data of a frame is all behind its header, but for the last four bytes
/// where the header's flag of weight 16 says that they are a checksum.
pub proof fn law_checksum_flag(frame: Seq<u8>)
    requires
        frame.len() >= 4,
    ensures
        kiss::frame_data(frame) == if frame[3] / 16 % 2 == 1 && frame.len() >= 8 {
            frame.subrange(4, frame.len() - 4)
        } else {
            frame.subrange(4, frame.len() as int)
        },
{
    law_header_fields(frame);
    let flags = frame[3];
    assert((flags & 0x10u8 != 0) <==> flags / 16 % 2 == 1) by (bit_vector);
    assert(frame.skip(4) =~= frame.subrange(4, frame.len() as int));
    if frame.len() >= 8 {
        assert(frame.skip(4).take(frame.len() - 8) =~= frame.subrange(4, frame.len() - 4));
    }
}

/// Up to 32 bytes of a payload are shown in full, of more only how many there
/// are.
pub proof fn law_long_payloads_are_counted(data: Seq<u8>)
    ensures
        data.len() == 0 ==> kiss::payload_text(data) == "(empty)"@,
        1 <= data.len() <= 32 ==> kiss::payload_text(data) == text::hex_list(data),
        data.len() >= 33 ==> kiss::payload_text(data) == seq!['('] + text::decimal(data.len())
            + " bytes)"@,
{
}

} // verus!
