//! The debug link, decoding recorded transmissions, and the codecs of integers.

use beacon::bytes::{
    push_u16_le, push_u32_be, push_u32_le, read_u16_be, read_u16_le, read_u32_be, read_u32_le,
};
use beacon::camera::RgbPixel;
use beacon::debug::{encode_header, encode_named_header, encode_pixels, DebugChannel};
use beacon::recording::{
    can_decode, decode_recording, image_stats, loudest_channel, pick_channel, MAX_CHANNEL_SAMPLES,
};
use beacon::text::{push_decimal, push_hex_byte, push_hex_list, push_signed_decimal};

#[test]
fn the_trigger_is_found_across_reads() {
    let mut channel = DebugChannel::new();
    assert!(!channel.poll_trigger(b"xxCAPT"));
    assert!(channel.poll_trigger(b"URE and CAPTURE"));
    assert!(channel.poll_trigger(b""));
    assert!(!channel.poll_trigger(b""));
}

#[test]
fn stray_input_is_bounded() {
    let mut channel = DebugChannel::new();
    assert!(!channel.poll_trigger(&[b'C'; 1000]));
    let mut late = b"CAPTURE".to_vec();
    late.extend([b'x'; 250]);
    assert!(!channel.poll_trigger(&late));
    let mut early = b"CAPTURE".to_vec();
    early.extend([b'x'; 249]);
    assert!(channel.poll_trigger(&early));
}

#[test]
fn frames_announce_their_size() {
    assert_eq!(
        encode_header(320, 240),
        [0xFF, 0xFE, 0xFD, 0xFC, 0x40, 0x01, 0xF0, 0x00, 0x00, 0x84, 0x03, 0x00]
    );
    let named = encode_named_header("rgb", 1, 2);
    assert_eq!(named[..4], [0xFF, 0xFE, 0xFD, 0xFC]);
    assert_eq!(named[4..8], [3, b'r', b'g', b'b']);
    assert_eq!(named[8..], [1, 0, 2, 0, 6, 0, 0, 0]);
    assert_eq!(
        encode_pixels(&[RgbPixel::new(1, 2, 3), RgbPixel::new(4, 5, 6)]),
        [1, 2, 3, 4, 5, 6]
    );
}

#[test]
fn the_channel_with_the_signal_is_kept() {
    let stereo = vec![1, 50, -1, -60, 1, 40];
    assert_eq!(loudest_channel(&stereo, 2), 1);
    assert_eq!(pick_channel(stereo.clone(), 2), [50, -60, 40]);
    assert_eq!(pick_channel(stereo.clone(), 1), stereo);
    assert_eq!(pick_channel(stereo.clone(), 0), stereo);
    assert_eq!(pick_channel(vec![9, 1, 1], 2), [9, 1]);
}

#[test]
fn equally_loud_channels_leave_the_last() {
    assert_eq!(loudest_channel(&vec![5, -5, 5, -5], 2), 1);
    assert_eq!(loudest_channel(&vec![], 3), 2);
}

/// A Robot36 recording of a picture that is light on the left and dark on the
/// right, on one of two channels.
fn recording(rate: u32) -> Vec<i16> {
    let pixels = (0..320 * 240).map(|i| {
        let level = if i % 320 < 160 { 220 } else { 40 };
        sstv::RgbPixel::new(level, level, level)
    });
    let encoder = sstv::Encoder::new(sstv::modes::ROBOT_36, pixels).expect("full frame");
    sstv::Synthesizer::new(encoder, rate)
        .flat_map(|sample| [0, sample])
        .collect()
}

#[test]
fn a_recorded_transmission_is_decoded() {
    let image = decode_recording(recording(16_000), 2, 16_000).expect("decodable");
    assert_eq!((image.width(), image.height()), (320, 240));
    let at = |x: usize, y: usize| image.pixels()[y * 320 + x];
    assert!(at(60, 120).green > 170, "{:?}", at(60, 120));
    assert!(at(260, 120).green < 90, "{:?}", at(260, 120));
    let sums = image_stats(image.pixels(), 320, 240);
    assert_eq!(sums.pairs, 3 * 319 * 240);
    assert!(sums.similar * 10 > sums.pairs * 9);
}

#[test]
fn silence_holds_no_picture() {
    assert!(decode_recording(vec![0; 1000], 1, 16_000).is_none());
    assert!(decode_recording(vec![], 2, 8_000).is_none());
}

#[test]
fn recordings_have_a_longest_channel() {
    let most = MAX_CHANNEL_SAMPLES;
    assert!(can_decode(most, 1, 48_000));
    assert!(can_decode(most, 0, 48_000));
    assert!(!can_decode(most + 1, 1, 48_000));
    assert!(can_decode(2 * most, 2, 48_000));
    assert!(!can_decode(2 * most + 1, 2, 48_000));
    assert!(!can_decode(0, 1, 0));
    assert!(can_decode(0, 1, 16_000_000));
    assert!(!can_decode(0, 1, 16_000_001));
    assert!(!can_decode(usize::MAX, usize::MAX, 48_000));
    // The longest silence there can be, and a click at its end.
    let mut silence = vec![0; most];
    silence[most - 1] = -1_000;
    assert!(decode_recording(silence, 1, 48_000).is_none());
}

#[test]
fn picture_statistics_are_sums() {
    let pixels = [
        RgbPixel::new(10, 0, 255),
        RgbPixel::new(34, 25, 0),
        RgbPixel::new(0, 0, 0),
        RgbPixel::new(0, 24, 0),
    ];
    let sums = image_stats(&pixels, 2, 2);
    assert_eq!(sums.count, 4);
    assert_eq!(sums.sum, (44, 49, 255));
    assert_eq!(sums.square_sum, (100 + 1156, 625 + 576, 65_025));
    assert_eq!(sums.pairs, 6);
    assert_eq!(sums.similar, 4);
    let empty = image_stats(&[], 0, 5);
    assert_eq!((empty.count, empty.pairs, empty.similar), (1, 0, 0));
}

#[test]
fn integers_are_read_back() {
    for n in [0, 1, 0xFF, 0x1234, 0xFFFF] {
        let mut bytes = vec![9];
        push_u16_le(&mut bytes, n);
        assert_eq!(bytes[1..], n.to_le_bytes());
        assert_eq!(read_u16_le(&bytes, 1), n);
        assert_eq!(read_u16_be(&bytes, 1), n.swap_bytes());
    }
    for n in [0, 1, 0x1234_5678, 0x80FF_0001, u32::MAX] {
        let mut bytes = vec![9];
        push_u32_le(&mut bytes, n);
        push_u32_be(&mut bytes, n);
        assert_eq!(bytes[1..5], n.to_le_bytes());
        assert_eq!(bytes[5..], n.to_be_bytes());
        assert_eq!(read_u32_le(&bytes, 1), n);
        assert_eq!(read_u32_be(&bytes, 5), n);
    }
}

#[test]
fn numbers_are_written_as_text() {
    for n in [0, 9, 10, 1234, u64::MAX] {
        let mut s = String::from("n=");
        push_decimal(&mut s, n);
        assert_eq!(s, format!("n={n}"));
    }
    for n in [0, 7, -7, i32::MAX, i32::MIN] {
        let mut s = String::new();
        push_signed_decimal(&mut s, n);
        assert_eq!(s, format!("{n}"));
    }
    let mut s = String::new();
    push_hex_byte(&mut s, 0x0A);
    push_hex_byte(&mut s, 0xF3);
    assert_eq!(s, "0af3");
    let mut s = String::new();
    push_hex_list(&mut s, &[0, 0xFE, 0x10]);
    assert_eq!(s, "00 fe 10");
}
