//! The payload link: KISS framing, CSP packets, commands, messages and errors.

use std::collections::VecDeque;

use beacon::audio::AudioError;
use beacon::error::Error;
use beacon::link::arch::EspArch;
use beacon::link::command::parse_ota_packet;
use beacon::link::csp::{CspError, CspLink, KissSerialInterface, Polled, SerialRead, SerialWrite};
use beacon::link::kiss::{
    encode_packet, fmt_payload, frame_to_packet, kiss_encode, take_tx, KissDecoder, Packet,
    PacketId, UartKissIface,
};
use beacon::link::payload_link::{parse_cmd_packet, PayloadLink, Reception};
use beacon::link::{Command, Dest, Message, Routes};

fn id() -> PacketId {
    PacketId {
        pri: 2,
        flags: 0,
        src: 7,
        dst: 14,
        dport: 1,
        sport: 48,
    }
}

#[test]
fn frames_are_delimited_and_escaped() {
    assert_eq!(kiss_encode(&[]), [0xC0, 0x00, 0xC0]);
    assert_eq!(kiss_encode(&[1, 2]), [0xC0, 0x00, 1, 2, 0xC0]);
    assert_eq!(
        kiss_encode(&[0xC0, 0xDB, 0xDC, 0xDD]),
        [0xC0, 0x00, 0xDB, 0xDC, 0xDB, 0xDD, 0xDC, 0xDD, 0xC0]
    );
}

#[test]
fn frames_survive_the_line() {
    let payload: Vec<u8> = (0..=255).collect();
    let mut decoder = KissDecoder::new();
    assert_eq!(decoder.push_all(&kiss_encode(&payload)), vec![payload]);
}

#[test]
fn frames_may_share_a_delimiter_and_follow_noise() {
    let mut decoder = KissDecoder::new();
    let line = [9, 9, 0xC0, 0x00, 1, 0xC0, 0x00, 2, 3, 0xC0];
    assert_eq!(decoder.push_all(&line), vec![vec![1], vec![2, 3]]);
}

#[test]
fn decoding_is_independent_of_how_the_line_is_cut() {
    let line = [kiss_encode(&[1, 0xC0]), kiss_encode(&[0xDB])].concat();
    for cut in 0..=line.len() {
        let mut decoder = KissDecoder::new();
        let mut frames = decoder.push_all(&line[..cut]);
        frames.extend(decoder.push_all(&line[cut..]));
        assert_eq!(frames, vec![vec![1, 0xC0], vec![0xDB]]);
    }
}

#[test]
fn bytes_are_decoded_one_at_a_time() {
    let mut decoder = KissDecoder::new();
    assert_eq!(decoder.push(0xC0), None);
    assert_eq!(decoder.push(0x00), None);
    assert_eq!(decoder.push(5), None);
    assert_eq!(decoder.push(0xC0), Some(vec![5]));
}

#[test]
fn other_commands_and_bad_escapes_drop_the_frame() {
    let mut decoder = KissDecoder::new();
    assert!(decoder.push_all(&[0xC0, 0x05, 1, 2]).is_empty());
    assert!(decoder.push_all(&[0xC0, 0x00, 1, 0xDB, 7, 2]).is_empty());
    assert_eq!(decoder.push_all(&kiss_encode(&[4])), vec![vec![4]]);
}

#[test]
fn empty_frames_are_skipped() {
    let mut decoder = KissDecoder::new();
    assert!(decoder.push_all(&[0xC0, 0x00, 0xC0, 0xC0]).is_empty());
    assert_eq!(decoder.push_all(&[8, 0xC0]), vec![vec![8]]);
}

#[test]
fn headers_have_the_documented_layout() {
    let packet = Packet {
        id: id(),
        data: vec![0xAA, 0xBB],
    };
    let word: u32 = (2 << 30) | (7 << 25) | (14 << 20) | (1 << 14) | (48 << 8);
    let mut expected = word.to_be_bytes().to_vec();
    expected.extend([0xAA, 0xBB]);
    assert_eq!(encode_packet(&packet), expected);
    assert_eq!(expected, [0x8E, 0xE0, 0x70, 0x00, 0xAA, 0xBB]);
}

#[test]
fn packets_round_trip() {
    let raw = encode_packet(&Packet {
        id: id(),
        data: vec![1, 2, 3, 4, 5],
    });
    let packet = frame_to_packet(&raw).expect("long enough");
    assert_eq!(packet.id, id());
    assert_eq!(packet.data, [1, 2, 3, 4, 5]);
}

#[test]
fn short_frames_hold_no_packet() {
    assert!(frame_to_packet(&[]).is_none());
    assert!(frame_to_packet(&[1, 2, 3]).is_none());
    assert_eq!(frame_to_packet(&[0, 0, 0, 0]).expect("header").data, []);
}

#[test]
fn announced_checksums_are_stripped() {
    let flagged = PacketId {
        flags: 0x10,
        ..id()
    };
    let raw = encode_packet(&Packet {
        id: flagged,
        data: vec![1, 2, 3, 4, 5],
    });
    assert_eq!(frame_to_packet(&raw).expect("packet").data, [1]);
    let short = encode_packet(&Packet {
        id: flagged,
        data: vec![1, 2, 3],
    });
    assert_eq!(frame_to_packet(&short).expect("packet").data, [1, 2, 3]);
}

#[test]
fn payloads_are_logged_by_size() {
    assert_eq!(fmt_payload(&[]), "(empty)");
    assert_eq!(fmt_payload(&[0x0A, 0xFF, 0x00]), "0a ff 00");
    assert_eq!(fmt_payload(&[0; 33]), "(33 bytes)");
    assert_eq!(fmt_payload(&[1; 32]).len(), 32 * 3 - 1);
}

#[test]
fn queued_frames_are_drained_once() {
    let mut iface = UartKissIface::new();
    let packet = Packet {
        id: id(),
        data: vec![1],
    };
    iface.nexthop(&packet, false);
    assert!(take_tx(&mut iface).is_empty());
    iface.nexthop(&packet, true);
    iface.nexthop(&packet, true);
    let frame = kiss_encode(&encode_packet(&packet));
    assert_eq!(take_tx(&mut iface), [frame.clone(), frame].concat());
    assert!(take_tx(&mut iface).is_empty());
    assert_eq!(iface.name(), "KISS");
}

struct Line(std::rc::Rc<std::cell::RefCell<Vec<u8>>>);

impl SerialWrite for Line {
    fn write_all(&mut self, data: &[u8]) {
        self.0.borrow_mut().extend_from_slice(data);
    }
}

#[test]
fn own_packets_go_to_the_line() {
    let line = std::rc::Rc::new(std::cell::RefCell::new(Vec::new()));
    let mut iface = KissSerialInterface::new(Line(line.clone()));
    let packet = Packet {
        id: id(),
        data: vec![0xC0],
    };
    iface.nexthop(&packet, false);
    assert!(line.borrow().is_empty());
    iface.nexthop(&packet, true);
    assert_eq!(*line.borrow(), kiss_encode(&encode_packet(&packet)));
    assert_eq!(iface.name(), "KISS");
}

struct Script(VecDeque<Result<Vec<u8>, ()>>);

impl SerialRead for Script {
    fn read(&mut self, buf: &mut [u8]) -> Result<usize, ()> {
        let run = self.0.pop_front().unwrap_or(Ok(Vec::new()))?;
        buf[..run.len()].copy_from_slice(&run);
        Ok(run.len())
    }
}

#[test]
fn polls_yield_complete_packets() {
    let wire = kiss_encode(&encode_packet(&Packet {
        id: id(),
        data: vec![1, 2],
    }));
    let (first, second) = wire.split_at(5);
    let mut link = CspLink::new(Script(VecDeque::from([
        Ok(first.to_vec()),
        Ok(second.to_vec()),
        Ok(kiss_encode(&[1])),
    ])));
    assert!(matches!(link.poll(), Polled::Packets(p) if p.is_empty()));
    match link.poll() {
        Polled::Packets(packets) => {
            assert_eq!(packets.len(), 1);
            assert_eq!(packets[0].id, id());
            assert_eq!(packets[0].data, [1, 2]);
        }
        other => panic!("{:?}", other),
    }
    assert!(matches!(link.poll(), Polled::Packets(p) if p.is_empty()));
}

#[test]
fn every_tenth_failure_in_a_row_is_reported() {
    let mut link = CspLink::new(Script(VecDeque::from(vec![Err(()); 25])));
    let mut reported = Vec::new();
    for n in 1..=25 {
        match link.poll() {
            Polled::Pause(Ok(())) => {}
            Polled::Pause(Err(CspError::Rx)) => reported.push(n),
            other => panic!("{:?}", other),
        }
    }
    assert_eq!(reported, [10, 20]);
}

#[test]
fn a_successful_read_resets_the_failure_count() {
    let mut script = vec![Err(()); 9];
    script.push(Ok(Vec::new()));
    script.extend(vec![Err(()); 9]);
    let mut link = CspLink::new(Script(script.into()));
    for _ in 0..19 {
        assert!(!matches!(link.poll(), Polled::Pause(Err(_))));
    }
}

#[test]
fn ota_packets_are_parsed() {
    assert!(matches!(
        parse_ota_packet(&[0x00, 0x34, 0x12]),
        Some(Command::UpdateAnnounced(0x1234))
    ));
    assert!(matches!(
        parse_ota_packet(&[0x00, 0x34]),
        Some(Command::UpdateAnnounced(0))
    ));
    assert!(matches!(
        parse_ota_packet(&[0x01, 1, 2, 3, 4]),
        Some(Command::UpdateBegin(0x0403_0201))
    ));
    match parse_ota_packet(&[0x02, 1, 0, 0, 0, 9, 8]) {
        Some(Command::UpdateData { offset, data }) => {
            assert_eq!(offset, 1);
            assert_eq!(data, [9, 8]);
        }
        other => panic!("{:?}", other),
    }
    assert!(matches!(
        parse_ota_packet(&[0x03, 7]),
        Some(Command::UpdateEnd)
    ));
}

#[test]
fn malformed_ota_packets_are_refused() {
    assert!(parse_ota_packet(&[]).is_none());
    assert!(parse_ota_packet(&[0x01, 1, 2, 3]).is_none());
    assert!(parse_ota_packet(&[0x02, 1, 2, 3, 4]).is_none());
    assert!(parse_ota_packet(&[0x04]).is_none());
}

#[test]
fn image_requests_start_with_their_name() {
    assert!(matches!(parse_cmd_packet(b"SSTV"), Some(Command::Sstv)));
    assert!(matches!(parse_cmd_packet(b"SSTV now"), Some(Command::Sstv)));
    assert!(parse_cmd_packet(b"SST").is_none());
    assert!(parse_cmd_packet(b"sstv").is_none());
}

#[test]
fn commands_leave_in_the_order_they_arrived() {
    let mut link = PayloadLink::new();
    link.collect_commands(
        &vec![vec![0x00, 8, 0], vec![0xFF], vec![0x03]],
        &vec![b"SSTV".to_vec(), b"nonsense".to_vec()],
    );
    assert!(matches!(
        link.next_command(),
        Some(Command::UpdateAnnounced(8))
    ));
    assert!(matches!(link.next_command(), Some(Command::UpdateEnd)));
    assert!(matches!(link.next_command(), Some(Command::Sstv)));
    assert!(link.next_command().is_none());
}

#[test]
fn queued_commands_come_before_the_next_poll() {
    let mut link = PayloadLink::new();
    assert!(matches!(link.receive(), Reception::Poll));
    link.collect_commands(&vec![vec![0x03]], &vec![b"SSTV".to_vec()]);
    assert!(matches!(
        link.receive(),
        Reception::Command(Command::UpdateEnd)
    ));
    assert!(matches!(link.receive(), Reception::Command(Command::Sstv)));
    assert!(matches!(link.receive(), Reception::Poll));
}

#[test]
fn a_failed_poll_is_a_receive_error() {
    let mut link = PayloadLink::new();
    let sstv = vec![b"SSTV".to_vec()];
    assert!(matches!(
        link.receive_polled(Err(CspError::Rx), &vec![], &sstv),
        Err(Error::UartReceive)
    ));
    assert!(matches!(
        link.receive_polled(Ok(()), &vec![], &vec![]),
        Ok(None)
    ));
    assert!(matches!(
        link.receive_polled(Ok(()), &vec![], &sstv),
        Ok(Some(Command::Sstv))
    ));
}

#[test]
fn messages_have_a_destination() {
    let dest = |node, port| Dest { node, port };
    let routes = Routes::move_iiia();
    assert_eq!(Message::Available.dest(&routes), dest(14, 1));
    assert_eq!(Message::Busy.dest(&routes), dest(14, 1));
    assert_eq!(Message::Booted(String::new()).dest(&routes), dest(1, 1));
    assert_eq!(Message::Error(Error::CspInit).dest(&routes), dest(2, 1));
    let other = Routes {
        obc: dest(5, 9),
        ..routes
    };
    assert_eq!(Message::Booted(String::new()).dest(&other), dest(5, 9));
    assert_eq!(Message::Error(Error::CspInit).node(), 2);
    assert_eq!(Message::Busy.port(), 1);
}

#[test]
fn messages_are_text() {
    assert_eq!(Message::Available.payload(), b"AVAILABLE");
    assert_eq!(Message::Busy.payload(), b"BUSY");
    assert_eq!(
        Message::Booted("v1.2 \u{e4}".to_string()).payload(),
        "STATUS: BOOTED v1.2 \u{e4}".as_bytes()
    );
    assert_eq!(
        Message::Error(Error::UpdateIncomplete(3, 10)).payload(),
        b"UpdateIncomplete(3, 10)"
    );
}

#[test]
fn errors_are_reported_by_name_and_fields() {
    let errors = [
        Error::AudioInit,
        Error::AudioTransmission,
        Error::CspInit,
        Error::EmptyImage,
        Error::Peripheral,
        Error::RgbInit,
        Error::ThermalInit,
        Error::UartAllocation,
        Error::UartReceive,
        Error::UpdateBegin,
        Error::UpdateChunkIncomplete(0, 10, 4_294_967_295),
        Error::UpdateCorrupt,
        Error::UpdateIncomplete(3, 10),
        Error::UpdateNotInProgress,
        Error::UpdatePartition,
        Error::UpdatePackageOffset(5, 6),
        Error::UpdateWrite(5, -2_147_483_648),
    ];
    for (i, a) in errors.iter().enumerate() {
        assert_eq!(a.to_text(), format!("{:?}", a));
        for (j, b) in errors.iter().enumerate() {
            assert_eq!(a.to_text() == b.to_text(), i == j);
        }
    }
    assert_eq!(
        Error::UpdateChunkIncomplete(1, 2, 3).to_text(),
        "UpdateChunkIncomplete(1, 2, 3)"
    );
    assert_eq!(Error::UpdateWrite(5, -7).to_text(), "UpdateWrite(5, -7)");
}

#[test]
fn audio_errors_become_crate_errors() {
    assert_eq!(Error::from(AudioError::Init), Error::AudioInit);
    assert_eq!(
        Error::from(AudioError::Transmission),
        Error::AudioTransmission
    );
}

#[test]
fn clocks_wrap_at_32_bits() {
    assert_eq!(EspArch.get_ms(1_999), 1);
    assert_eq!(EspArch.get_s(1_999_999), 1);
    assert_eq!(EspArch.get_ms(4_294_967_296_000), 0);
    assert_eq!(EspArch.get_s(4_294_967_297_000_000), 1);
}

#[test]
fn semaphores_are_taken_once_per_post() {
    let mut sem = EspArch.bin_sem_create();
    assert!(!EspArch.bin_sem_wait(&mut sem));
    assert!(EspArch.bin_sem_post(&mut sem));
    assert!(EspArch.bin_sem_wait(&mut sem));
    assert!(!EspArch.bin_sem_wait(&mut sem));
}

#[test]
fn mutexes_never_block() {
    let mutex = EspArch.mutex_create();
    assert!(EspArch.mutex_lock(&mutex));
    assert!(EspArch.mutex_lock(&mutex));
    assert!(EspArch.mutex_unlock(&mutex));
}

#[test]
fn queues_are_first_in_first_out() {
    let mut queue = EspArch.queue_create(2);
    assert_eq!(queue.item_size(), 2);
    assert!(EspArch.queue_enqueue(&mut queue, &[1, 2]));
    assert!(EspArch.queue_enqueue(&mut queue, &[3, 4]));
    assert_eq!(EspArch.queue_size(&queue), 2);
    assert_eq!(EspArch.queue_dequeue(&mut queue), Some(vec![1, 2]));
    assert_eq!(EspArch.queue_dequeue(&mut queue), Some(vec![3, 4]));
    assert_eq!(EspArch.queue_dequeue(&mut queue), None);
}
