//! Firmware updates: sessions over the link and packets on the OTA port.

use beacon::error::Error;
use beacon::link::Command;
use beacon::ota::OtaState;
use beacon::transfer::Transfer;
use beacon::update::{update, Action, Event, Opening, Session, Writer};

fn received(command: Command) -> Event {
    Event::Received(Ok(Some(command)))
}

fn data(offset: u32, data: &[u8]) -> Event {
    received(Command::UpdateData {
        offset,
        data: data.to_vec(),
    })
}

/// A session of the given chunk size with a partition open for `total` bytes.
fn begun(chunk_size: u16, total: u32) -> Session {
    let mut session = Session::announced(chunk_size);
    assert!(matches!(
        update(&mut session, received(Command::UpdateBegin(total))),
        Action::Open
    ));
    assert!(matches!(
        update(&mut session, Event::Opened(Opening::Ready)),
        Action::Receive
    ));
    session
}

/// Hand a package to a session and flash what it asks for.
fn flash(session: &mut Session, event: Event) -> (Vec<Vec<u8>>, Action) {
    let mut chunks = Vec::new();
    let mut action = update(session, event);
    while let Action::Write(chunk) = action {
        chunks.push(chunk);
        action = update(session, Event::Written(0));
    }
    (chunks, action)
}

#[test]
fn an_image_is_flashed_in_chunks_and_booted() {
    let mut session = begun(4, 10);
    let (chunks, next) = flash(&mut session, data(0, &[0, 1, 2, 3, 4, 5, 6, 7, 99, 99]));
    assert_eq!(chunks, vec![vec![0, 1, 2, 3], vec![4, 5, 6, 7]]);
    assert!(matches!(next, Action::Receive));
    let (chunks, next) = flash(&mut session, data(8, &[8, 9, 99, 99, 99, 99]));
    assert_eq!(chunks, vec![vec![8, 9]]);
    assert!(matches!(next, Action::Receive));
    assert!(matches!(
        update(&mut session, received(Command::UpdateEnd)),
        Action::End
    ));
    assert!(matches!(
        update(&mut session, Event::Ended(true)),
        Action::Activate
    ));
    assert!(matches!(
        update(&mut session, Event::Activated(true)),
        Action::Restart
    ));
}

#[test]
fn without_a_chunk_size_packages_are_flashed_whole() {
    let mut session = begun(0, 5);
    let (chunks, _) = flash(&mut session, data(0, &[1, 2, 3]));
    assert_eq!(chunks, vec![vec![1, 2, 3]]);
    let (chunks, _) = flash(&mut session, data(3, &[4, 5, 6]));
    assert_eq!(chunks, vec![vec![4, 5, 6]]);
    assert!(matches!(
        update(&mut session, received(Command::UpdateEnd)),
        Action::Fail(Error::UpdateIncomplete(6, 5))
    ));
}

#[test]
fn a_partition_is_needed() {
    let mut session = Session::announced(4);
    update(&mut session, received(Command::UpdateBegin(1)));
    assert!(matches!(
        update(&mut session, Event::Opened(Opening::NoPartition)),
        Action::Fail(Error::UpdatePartition)
    ));
    let mut session = Session::announced(4);
    update(&mut session, received(Command::UpdateBegin(1)));
    assert!(matches!(
        update(&mut session, Event::Opened(Opening::Refused)),
        Action::Fail(Error::UpdateBegin)
    ));
}

#[test]
fn data_needs_a_transfer() {
    let mut session = Session::announced(4);
    assert!(matches!(
        update(&mut session, data(0, &[1])),
        Action::Fail(Error::UpdateNotInProgress)
    ));
    let mut session = Session::announced(4);
    assert!(matches!(
        update(&mut session, received(Command::UpdateEnd)),
        Action::Fail(Error::UpdateNotInProgress)
    ));
}

#[test]
fn packages_must_follow_one_another() {
    let mut session = begun(4, 8);
    flash(&mut session, data(0, &[1, 2, 3, 4]));
    assert!(matches!(
        update(&mut session, data(5, &[1, 2, 3])),
        Action::Fail(Error::UpdatePackageOffset(4, 5))
    ));
}

#[test]
fn short_chunks_end_the_session() {
    let mut session = begun(4, 8);
    assert!(matches!(
        update(&mut session, data(0, &[1, 2, 3])),
        Action::Fail(Error::UpdateChunkIncomplete(0, 3, 4))
    ));
}

#[test]
fn flash_errors_end_the_session() {
    let mut session = begun(4, 8);
    assert!(matches!(
        update(&mut session, data(0, &[1, 2, 3, 4])),
        Action::Write(_)
    ));
    assert!(matches!(
        update(&mut session, Event::Written(-5)),
        Action::Fail(Error::UpdateWrite(0, -5))
    ));
}

#[test]
fn incomplete_and_corrupt_images_are_not_booted() {
    let mut session = begun(4, 8);
    flash(&mut session, data(0, &[1, 2, 3, 4]));
    assert!(matches!(
        update(&mut session, received(Command::UpdateEnd)),
        Action::Fail(Error::UpdateIncomplete(4, 8))
    ));
    let mut session = begun(4, 4);
    flash(&mut session, data(0, &[1, 2, 3, 4]));
    update(&mut session, received(Command::UpdateEnd));
    assert!(matches!(
        update(&mut session, Event::Ended(false)),
        Action::Fail(Error::UpdateCorrupt)
    ));
    let mut session = begun(4, 4);
    flash(&mut session, data(0, &[1, 2, 3, 4]));
    update(&mut session, received(Command::UpdateEnd));
    update(&mut session, Event::Ended(true));
    assert!(matches!(
        update(&mut session, Event::Activated(false)),
        Action::Fail(Error::UpdateCorrupt)
    ));
}

#[test]
fn link_errors_end_the_session() {
    let mut session = begun(4, 8);
    assert!(matches!(
        update(&mut session, Event::Received(Err(Error::UartReceive))),
        Action::Fail(Error::UartReceive)
    ));
}

#[test]
fn image_requests_are_ignored_during_an_update() {
    let mut session = begun(4, 4);
    assert!(matches!(
        update(&mut session, received(Command::Sstv)),
        Action::Receive
    ));
    assert!(matches!(
        update(&mut session, Event::Received(Ok(None))),
        Action::Receive
    ));
    let (chunks, _) = flash(&mut session, data(0, &[1, 2, 3, 4]));
    assert_eq!(chunks, vec![vec![1, 2, 3, 4]]);
}

#[test]
fn a_new_announcement_starts_over() {
    let mut session = begun(4, 4);
    flash(&mut session, data(0, &[1, 2, 3, 4]));
    assert!(matches!(
        update(&mut session, received(Command::UpdateAnnounced(2))),
        Action::Receive
    ));
    assert!(matches!(
        update(&mut session, received(Command::UpdateBegin(3))),
        Action::Open
    ));
    update(&mut session, Event::Opened(Opening::Ready));
    let (chunks, _) = flash(&mut session, data(0, &[7, 8, 9]));
    assert_eq!(chunks, vec![vec![7, 8]]);
    let (chunks, _) = flash(&mut session, data(2, &[9]));
    assert_eq!(chunks, vec![vec![9]]);
}

#[test]
fn relay_overhead_is_stripped() {
    let writer = Writer::begin(100, 10);
    assert_eq!(writer.strip_relay_overhead(&[0; 24]).len(), 20);
    assert_eq!(writer.strip_relay_overhead(&[0; 10]).len(), 10);
    assert_eq!(writer.strip_relay_overhead(&[0; 9]).len(), 9);
    let mut last = Writer::begin(100, 10);
    last.advance(95);
    assert_eq!(last.strip_relay_overhead(&[0; 9]).len(), 5);
    assert_eq!(last.strip_relay_overhead(&[0; 3]).len(), 3);
    assert_eq!(Writer::begin(5, 0).strip_relay_overhead(&[0; 9]).len(), 9);
}

#[test]
fn only_the_last_chunk_may_be_short() {
    let writer = Writer::begin(100, 10);
    assert_eq!(writer.check_chunk_complete(10, 10), Ok(()));
    assert_eq!(
        writer.check_chunk_complete(9, 10),
        Err(Error::UpdateChunkIncomplete(0, 9, 10))
    );
    assert_eq!(Writer::begin(9, 10).check_chunk_complete(9, 10), Ok(()));
    assert_eq!(writer.next_chunk(25), Ok(Some(10)));
    assert_eq!(writer.next_chunk(0), Ok(None));
    assert_eq!(Writer::begin(7, 10).next_chunk(25), Ok(Some(7)));
}

#[test]
fn sessions_know_what_they_wait_for() {
    let mut session = Session::announced(0);
    assert!(session.accepts(&Event::Received(Ok(None))));
    assert!(!session.accepts(&Event::Written(0)));
    update(&mut session, received(Command::UpdateBegin(u32::MAX)));
    assert!(session.accepts(&Event::Opened(Opening::Refused)));
    assert!(!session.accepts(&Event::Received(Ok(None))));
    update(&mut session, Event::Opened(Opening::Ready));
    assert!(session.accepts(&data(0, &[1])));
    update(&mut session, data(0, &[1]));
    assert!(session.accepts(&Event::Written(0)));
    update(&mut session, Event::Written(3));
    assert!(!session.accepts(&Event::Received(Ok(None))));
    assert!(!session.accepts(&Event::Ended(true)));
    assert!(!session.accepts(&Event::Activated(true)));
}

#[test]
fn offsets_stay_in_range() {
    let mut writer = Writer::begin(u32::MAX, 0);
    assert!(writer.is_room_for(4_294_967_295));
    writer.advance(4_294_967_290);
    assert!(writer.is_room_for(5));
    assert!(!writer.is_room_for(6));
    assert!(Writer::begin(3, 2).is_room_for(usize::MAX));
    assert!(Writer::begin(0, 0).is_room_for(usize::MAX));
}

fn ota_write(state: &mut OtaState, payload: &[u8]) -> Vec<Vec<u8>> {
    let mut chunks = Vec::new();
    let mut action = state.handle(payload);
    while let Action::Write(chunk) = action {
        chunks.push(chunk);
        action = state.resume(Event::Written(0));
    }
    assert!(matches!(action, Action::Receive));
    chunks
}

fn ota_begun(total: u8) -> OtaState {
    let mut state = OtaState::new();
    assert!(matches!(state.handle(&[0x00, 4, 0]), Action::Receive));
    assert!(matches!(
        state.handle(&[0x01, total, 0, 0, 0]),
        Action::Open
    ));
    assert!(matches!(
        state.resume(Event::Opened(Opening::Ready)),
        Action::Receive
    ));
    state
}

#[test]
fn ota_packets_drive_an_update() {
    let mut state = ota_begun(6);
    assert_eq!(
        ota_write(&mut state, &[0x02, 0, 0, 0, 0, 1, 2, 3, 4, 99]),
        vec![vec![1, 2, 3, 4]]
    );
    assert_eq!(
        ota_write(&mut state, &[0x02, 4, 0, 0, 0, 5, 6, 99]),
        vec![vec![5, 6]]
    );
    assert!(matches!(state.handle(&[0x03]), Action::End));
    assert!(matches!(state.resume(Event::Ended(true)), Action::Activate));
    assert!(matches!(
        state.resume(Event::Activated(true)),
        Action::Restart
    ));
}

#[test]
fn ota_flashes_the_image_that_was_sent() {
    let image: Vec<u8> = (0..50).map(|i| i * 5).collect();
    let mut state = OtaState::new();
    // A transfer that is given up, and then the one that counts.
    state.handle(&[0x00, 7, 0]);
    state.handle(&[0x01, 50, 0, 0, 0]);
    state.resume(Event::Opened(Opening::Ready));
    ota_write(&mut state, &[[0x02, 0, 0, 0, 0].as_slice(), &image[..7]].concat());
    state.handle(&[0x00, 8, 0]);
    state.handle(&[0x01, 50, 0, 0, 0]);
    state.resume(Event::Opened(Opening::Ready));
    let mut flashed = Vec::new();
    for (i, chunk) in image.chunks(8).enumerate() {
        let packet = [
            [0x02, 8 * i as u8, 0, 0, 0].as_slice(),
            chunk,
            [0xAA; 4].as_slice(),
        ]
        .concat();
        flashed.extend(ota_write(&mut state, &packet).concat());
    }
    assert_eq!(flashed, image);
    assert!(matches!(state.handle(&[0x03]), Action::End));
    assert!(matches!(state.resume(Event::Ended(true)), Action::Activate));
    assert!(matches!(
        state.resume(Event::Activated(true)),
        Action::Restart
    ));
}

#[test]
fn ota_sessions_know_what_they_wait_for() {
    let mut state = OtaState::new();
    assert!(state.accepts_packet(&[0x02, 0, 0, 0, 0, 1]));
    assert!(!state.accepts(&Event::Opened(Opening::Ready)));
    state.handle(&[0x01, 8, 0, 0, 0]);
    assert!(!state.accepts_packet(&[0x03]));
    assert!(state.accepts(&Event::Opened(Opening::Ready)));
    state.resume(Event::Opened(Opening::Ready));
    assert!(state.accepts_packet(&[0x02, 0, 0, 0, 0, 1]));
    assert!(!state.accepts(&Event::Received(Ok(None))));
}

#[test]
fn ota_ignores_what_it_does_not_know() {
    let mut state = OtaState::new();
    assert!(matches!(state.handle(&[]), Action::Receive));
    assert!(matches!(state.handle(&[0x77]), Action::Receive));
    assert!(matches!(state.handle(&[0x01, 1]), Action::Receive));
    assert!(matches!(state.handle(&[0x03]), Action::Receive));
    assert!(ota_write(&mut state, &[0x02, 0, 0, 0, 0, 1]).is_empty());
}

#[test]
fn ota_gaps_abort_the_transfer() {
    let mut state = ota_begun(8);
    assert!(ota_write(&mut state, &[0x02, 4, 0, 0, 0, 1, 2, 3, 4]).is_empty());
    assert!(ota_write(&mut state, &[0x02, 0, 0, 0, 0, 1, 2, 3, 4]).is_empty());
    let mut state = ota_begun(8);
    assert!(ota_write(&mut state, &[0x02, 0, 0, 0, 0, 1]).is_empty());
    assert!(ota_write(&mut state, &[0x02, 0, 0, 0, 0, 1, 2, 3, 4]).is_empty());
}

#[test]
fn ota_failures_abort_the_transfer() {
    let mut state = ota_begun(4);
    assert!(matches!(
        state.handle(&[0x02, 0, 0, 0, 0, 1, 2, 3, 4]),
        Action::Write(_)
    ));
    assert!(matches!(state.resume(Event::Written(1)), Action::Receive));
    assert!(matches!(state.handle(&[0x03]), Action::Receive));
    let mut state = ota_begun(4);
    assert!(matches!(state.handle(&[0x03]), Action::Receive));
    assert!(ota_write(&mut state, &[0x02, 0, 0, 0, 0, 1, 2, 3, 4]).is_empty());
}

#[test]
fn ota_session_that_cannot_open_keeps_the_announcement() {
    let mut state = OtaState::new();
    state.handle(&[0x00, 4, 0]);
    state.handle(&[0x01, 8, 0, 0, 0]);
    assert!(matches!(
        state.resume(Event::Opened(Opening::NoPartition)),
        Action::Receive
    ));
    state.handle(&[0x01, 8, 0, 0, 0]);
    state.resume(Event::Opened(Opening::Ready));
    assert_eq!(
        ota_write(&mut state, &[0x02, 0, 0, 0, 0, 1, 2, 3, 4, 5]),
        vec![vec![1, 2, 3, 4]]
    );
}

#[test]
fn a_buffer_is_offered_until_it_is_taken() {
    let mut transfer = Transfer::new(&[1, 2, 3, 4, 5]);
    let mut taken = Vec::new();
    for n in [2, 0, 3] {
        let left = transfer.remaining().expect("not done");
        taken.extend_from_slice(&left[..n]);
        transfer.advance(n);
    }
    assert!(transfer.remaining().is_none());
    assert_eq!(taken, [1, 2, 3, 4, 5]);
    assert!(Transfer::new(&[]).remaining().is_none());
}
