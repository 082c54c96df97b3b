//! Frame formats, pixel pipelines, bring-up and transports of the cameras.

use beacon::camera::averaging::FrameAverage;
use beacon::camera::bring_up::{pause_after, BringUp, Sequence, Step};
use beacon::camera::csi::{ColorType, FrameWait, Stream, Wait};
use beacon::camera::downscale::{can_scale, process_frame};
use beacon::camera::format::BayerChannel;
use beacon::camera::i2c::{
    diagnose, scan, shape, DeviceTable, Diagnosis, Direction, Shape, ADDRESS_COUNT,
};
use beacon::camera::interface::Timeout;
use beacon::camera::metering::meter;
use beacon::camera::raw10::{
    box_average, build_image, can_crop, end_of_span, raw10_pixel, sample_bayer_region, Area, ToneCurves,
};
use beacon::camera::settling::{Metered, SettleStep, Settling};
use beacon::camera::spi_frame::{Chunk, Readout};
use beacon::camera::thermal::{self, Scale};
use beacon::camera::watermark::{
    build_watermark, can_resize, fits_picture, is_white_at, pack_watermark, Watermark,
};
use beacon::camera::{BayerOrder, CameraError, FrameFormat, Image, PixelFormat, RgbPixel};
use beacon::pacing::{Awake, Sleeper};

fn format(width: usize, height: usize, pixel: PixelFormat) -> FrameFormat {
    FrameFormat {
        width,
        height,
        pixel,
    }
}

fn raw10(width: usize, height: usize) -> FrameFormat {
    format(width, height, PixelFormat::Raw10(BayerOrder::Rggb))
}

/// A packed frame whose pixel at (x, y) is `level(x, y)`.
fn pack(format: &FrameFormat, level: impl Fn(usize, usize) -> u8) -> Vec<u8> {
    let mut frame = vec![0; format.bytes_per_frame()];
    for y in 0..format.height {
        for x in 0..format.width {
            frame[y * format.row_bytes() + x / 4 * 5 + x % 4] = level(x, y);
        }
    }
    frame
}

fn identity() -> [u8; 256] {
    let mut curve = [0; 256];
    for (level, out) in curve.iter_mut().enumerate() {
        *out = level as u8;
    }
    curve
}

fn plain_curves() -> ToneCurves {
    ToneCurves {
        red: identity(),
        green: identity(),
        blue: identity(),
    }
}

#[test]
fn frames_have_the_documented_size() {
    assert_eq!(raw10(3840, 2160).row_bytes(), 4800);
    assert_eq!(raw10(3840, 2160).bytes_per_frame(), 10_368_000);
    let raw8 = format(100, 10, PixelFormat::Raw8(BayerOrder::Grbg));
    assert_eq!(raw8.bytes_per_frame(), 1000);
    let thermal = format(160, 120, PixelFormat::Gray16);
    assert_eq!(thermal.row_bytes(), 320);
    assert_eq!(thermal.bytes_per_frame(), 38_400);
}

#[test]
fn mosaics_follow_their_order() {
    let quad = |order: BayerOrder| {
        [
            order.channel_at(0, 0),
            order.channel_at(0, 1),
            order.channel_at(1, 0),
            order.channel_at(7, 3),
        ]
    };
    let (r, g, b) = (BayerChannel::Red, BayerChannel::Green, BayerChannel::Blue);
    assert_eq!(quad(BayerOrder::Rggb), [r, g, g, b]);
    assert_eq!(quad(BayerOrder::Bggr), [b, g, g, r]);
    assert_eq!(quad(BayerOrder::Grbg), [g, r, b, g]);
    assert_eq!(quad(BayerOrder::Gbrg), [g, b, r, g]);
}

#[test]
fn green_sites_are_known_by_parity() {
    for (order, parity) in [
        (BayerOrder::Rggb, 1),
        (BayerOrder::Bggr, 1),
        (BayerOrder::Grbg, 0),
        (BayerOrder::Gbrg, 0),
    ] {
        assert_eq!(order.green_col_parity_on_even_rows(), parity);
        assert_eq!(order.channel_at(2, parity), BayerChannel::Green);
    }
}

#[test]
fn packed_pixels_are_found() {
    let format = raw10(8, 2);
    let frame = pack(&format, |x, y| (10 * y + x) as u8);
    for y in 0..2 {
        for x in 0..8 {
            let sample = raw10_pixel(&frame, &format, 10, BayerOrder::Rggb, y, x);
            assert_eq!(sample as usize, 10 * y + x);
        }
    }
    assert_eq!(frame[4], 0);
}

#[test]
fn box_averages_are_per_color() {
    let format = raw10(4, 4);
    let frame = pack(&format, |x, y| match (y % 2, x % 2) {
        (0, 0) => 10 + y as u8,
        (1, 1) => 90,
        _ => 50 + x as u8,
    });
    let whole = Area {
        top: 0,
        bottom: 4,
        left: 0,
        right: 4,
    };
    assert_eq!(
        box_average(&frame, &format, 5, BayerOrder::Rggb, whole),
        (11, 51, 90)
    );
    let single = Area {
        top: 0,
        bottom: 1,
        left: 0,
        right: 1,
    };
    assert_eq!(
        box_average(&frame, &format, 5, BayerOrder::Rggb, single),
        (10, 0, 0)
    );
}

#[test]
fn spans_hold_two_pixels_within_the_source() {
    assert_eq!(end_of_span(4, 9, 20), 9);
    assert_eq!(end_of_span(4, 5, 20), 6);
    assert_eq!(end_of_span(4, 5, 5), 5);
}

#[test]
fn pictures_are_turned_counter_clockwise() {
    let format = raw10(8, 4);
    let frame = pack(&format, |x, y| (100 * (y / 2) + x / 2) as u8);
    let curves = plain_curves();
    let image = build_image(&frame, &format, BayerOrder::Rggb, (2, 4), &curves, &mut Awake::new());
    assert_eq!((image.width(), image.height()), (2, 4));
    let red: Vec<u8> = image.pixels().iter().map(|p| p.red).collect();
    assert_eq!(red, [3, 103, 2, 102, 1, 101, 0, 100]);
    assert_eq!(
        sample_bayer_region(&frame, &format, 10, BayerOrder::Rggb, 1, 0, (2, 4)),
        (103, 103, 103)
    );
}

#[test]
fn curves_are_applied_per_channel() {
    let format = raw10(4, 4);
    let frame = pack(&format, |_, _| 40);
    let mut curves = plain_curves();
    curves.red[40] = 1;
    curves.green[40] = 2;
    curves.blue[40] = 3;
    let image = build_image(&frame, &format, BayerOrder::Bggr, (1, 1), &curves, &mut Awake::new());
    assert_eq!(image.pixels(), [RgbPixel::new(1, 2, 3)]);
}

/// Remembers how long it was asked to sleep.
struct Naps(Vec<u32>);

impl Sleeper for Naps {
    fn sleep_ms(&mut self, millis: u32) {
        self.0.push(millis);
    }
}

#[test]
fn long_pictures_let_others_run() {
    let format = raw10(8, 4);
    let frame = pack(&format, |_, _| 0);
    for (rows, naps) in [(1, 1), (40, 1), (41, 2), (82, 3)] {
        let mut task = Naps(Vec::new());
        build_image(&frame, &format, BayerOrder::Rggb, (41, rows), &plain_curves(), &mut task);
        assert_eq!(task.0, vec![1; naps]);
        let mut task = Naps(Vec::new());
        process_frame(
            &frame,
            &format,
            10,
            (3, rows),
            &plain_curves(),
            &identity(),
            &mut task,
        );
        assert_eq!(task.0, vec![1; naps]);
    }
}

#[test]
fn empty_outputs_have_no_pixels() {
    let format = raw10(8, 4);
    let frame = pack(&format, |_, _| 9);
    for output in [(0, 3), (3, 0), (0, 0)] {
        let awake = &mut Awake::new();
        let image = build_image(
            &frame,
            &format,
            BayerOrder::Rggb,
            output,
            &plain_curves(),
            awake,
        );
        assert_eq!((image.width(), image.height()), output);
        assert!(image.pixels().is_empty());
        let processed = process_frame(
            &frame,
            &format,
            10,
            output,
            &plain_curves(),
            &identity(),
            awake,
        );
        assert!(processed.rgb.is_empty());
        assert_eq!(processed.green_sum, 0);
    }
}

#[test]
fn rows_may_be_padded() {
    let format = raw10(8, 4);
    let frame = pack(&format, |x, y| (20 * y + x) as u8);
    let padded: Vec<u8> = frame
        .chunks(10)
        .flat_map(|row| [row, &[255; 6]].concat())
        .collect();
    for (dx, dy) in [(0, 0), (1, 2), (0, 3)] {
        assert_eq!(
            sample_bayer_region(&padded, &format, 16, BayerOrder::Rggb, dx, dy, (2, 4)),
            sample_bayer_region(&frame, &format, 10, BayerOrder::Rggb, dx, dy, (2, 4))
        );
    }
}

#[test]
fn sizes_are_checked_before_scaling() {
    let format = raw10(8, 4);
    assert!(can_scale(&format, (4, 2)));
    assert!(can_scale(&format, (0, 2)));
    assert!(can_scale(&format, (4, 0)));
    assert!(!can_scale(&format, (usize::MAX, 1)));
    assert!(!can_scale(&raw10(usize::MAX, 1), (1, 1)));
    assert!(can_crop(&format, (2, 4)));
    assert!(!can_crop(&format, (2, 5)));
    assert!(can_crop(&format, (0, 4)));
    assert!(can_crop(&format, (2, 0)));
    assert!(!can_crop(&format, (usize::MAX, 1)));
    assert!(thermal::can_render((160, 120), (320, 240)));
    assert!(!thermal::can_render((0, 120), (320, 240)));
    assert!(!thermal::can_render((160, 120), (usize::MAX, 1)));
}

#[test]
fn downscaling_keeps_orientation_and_sums() {
    let format = raw10(8, 4);
    let frame = pack(&format, |x, y| (100 * (y / 2) + x / 2) as u8);
    let mut linear = identity();
    linear[0] = 7;
    let processed = process_frame(
        &frame,
        &format,
        10,
        (4, 2),
        &plain_curves(),
        &linear,
        &mut Awake::new(),
    );
    let red: Vec<u8> = processed.rgb.iter().step_by(3).copied().collect();
    assert_eq!(red, [0, 1, 2, 3, 100, 101, 102, 103]);
    assert_eq!(processed.rgb.len(), 24);
    assert_eq!(processed.red_sum, 7 + 1 + 2 + 3 + 406);
    assert_eq!(processed.green_sum, processed.red_sum);
    assert_eq!(processed.blue_sum, processed.red_sum);
}

#[test]
fn metering_looks_at_green_sites() {
    let format = raw10(256, 256);
    let frame = pack(&format, |x, y| if (x + y) % 2 == 1 { 200 } else { 255 });
    let histogram = meter(&frame, &format, BayerOrder::Rggb);
    assert_eq!(histogram.count(), 64 * 64);
    assert_eq!(histogram.clipped(), 0);
    assert_eq!(histogram.percentile(1), 200);
    assert_eq!(histogram.percentile(0), 0);
    assert_eq!(histogram.percentile(64 * 64 + 1), 255);
}

#[test]
fn percentiles_and_clipping_are_counted() {
    let format = raw10(256, 256);
    let frame = pack(&format, |_, y| if y < 128 { 250 } else { 40 });
    let histogram = meter(&frame, &format, BayerOrder::Gbrg);
    assert_eq!(histogram.clipped(), 32 * 64);
    assert_eq!(histogram.percentile(32 * 64), 40);
    assert_eq!(histogram.percentile(32 * 64 + 1), 250);
}

/// A small generator of varied levels.
fn noise(seed: &mut u32) -> u32 {
    *seed = seed.wrapping_mul(1_664_525).wrapping_add(1_013_904_223);
    *seed >> 16
}

#[test]
fn metering_agrees_with_fractions_of_the_count() {
    let mut seed = 7;
    for width in [2, 6, 20, 64, 130, 191, 255, 256, 300] {
        for height in [2, 4, 20, 128, 191, 255] {
            let format = raw10(width, height);
            let top = noise(&mut seed) % 256;
            let levels: Vec<u8> = (0..width * height)
                .map(|_| (top.saturating_sub(noise(&mut seed) % 60)) as u8)
                .collect();
            let frame = pack(&format, |x, y| levels[y * width + x]);
            let histogram = meter(&frame, &format, BayerOrder::Rggb);
            let count = histogram.count();
            assert!(count <= 128 * 128);
            let target = (95 * count).div_ceil(100);
            assert_eq!(histogram.p_high(), histogram.percentile(target));
            let p_high = f32::from(histogram.p_high());
            let clip = histogram.clipped() as f32 / count as f32;
            assert_eq!(
                histogram.is_converged(),
                clip <= 0.02 && p_high >= 205.0 && p_high <= 248.0
            );
        }
    }
}

#[test]
fn the_metered_level_reaches_its_share_of_the_samples() {
    let lone = meter(&[200; 4], &raw10(2, 2), BayerOrder::Rggb);
    assert_eq!(lone.count(), 1);
    assert_eq!(lone.p_high(), 200);
    assert_eq!(lone.clipped(), 0);
    // Ten samples: nine are not enough, so the brightest counts.
    let format = raw10(20, 2);
    let frame = pack(&format, |x, _| if x == 19 { 220 } else { 10 });
    let ten = meter(&frame, &format, BayerOrder::Rggb);
    assert_eq!(ten.count(), 10);
    assert_eq!(ten.p_high(), 220);
    // Twenty samples: nineteen of them are just enough.
    let format = raw10(40, 2);
    let frame = pack(&format, |x, _| if x == 39 { 220 } else { 10 });
    let twenty = meter(&frame, &format, BayerOrder::Rggb);
    assert_eq!(twenty.count(), 20);
    assert_eq!(twenty.p_high(), 10);
}

#[test]
fn exposure_converges_in_a_band_of_levels() {
    let format = raw10(256, 256);
    let flat = |level: u8| {
        let frame = pack(&format, |_, _| level);
        meter(&frame, &format, BayerOrder::Rggb).is_converged()
    };
    assert!(!flat(204));
    assert!(flat(205));
    assert!(flat(248));
    assert!(!flat(249));
    assert!(!flat(250));
    let spots = |rows: usize| {
        let frame = pack(&format, |_, y| if y < 4 * rows { 255 } else { 230 });
        meter(&frame, &format, BayerOrder::Rggb).is_converged()
    };
    assert!(spots(1));
    assert!(!spots(2));
    assert!(!meter(&[], &format, BayerOrder::Rggb).is_converged());
}

#[test]
fn short_frames_are_not_metered() {
    assert_eq!(meter(&[0; 5], &raw10(8, 4), BayerOrder::Rggb).count(), 0);
}

#[test]
fn frames_are_averaged_word_by_word() {
    let mut average = FrameAverage::new(2);
    assert_eq!(average.finish(), [0, 0]);
    average.add_frame(&[0x01, 0x00, 0, 10]);
    average.add_frame(&[0x02, 0x01, 0, 20, 99]);
    average.add_frame(&[1, 2, 3]);
    assert_eq!(average.finish(), [0x0180, 15]);
}

#[test]
fn equal_frames_average_to_themselves() {
    let mut average = FrameAverage::new(1);
    for _ in 0..7 {
        average.add_frame(&[0xAB, 0xCD]);
    }
    assert_eq!(average.finish(), [0xABCD]);
}

#[test]
fn scales_ignore_outliers() {
    let mut words: Vec<u16> = (0..200).map(|i| 3000 + i).collect();
    words.reverse();
    assert_eq!(
        Scale::of(&words),
        Scale {
            min: 3002,
            range: 195
        }
    );
    assert_eq!(Scale::of(&[5, 5, 5]), Scale { min: 5, range: 1 });
    assert_eq!(Scale::of(&[9, 4]), Scale { min: 4, range: 5 });
}

#[test]
fn thermal_pictures_are_shaded_scaled_and_mirrored() {
    let words = [10, 11, 12, 99];
    let scale = Scale { min: 11, range: 2 };
    let shades = [0, 100, 255];
    let levels = |image: Image| image.pixels().iter().map(|p| p.red).collect::<Vec<u8>>();
    let plain = thermal::build_image(&words, (2, 2), (4, 2), false, scale, &shades);
    assert_eq!(plain.pixels()[0], RgbPixel::new(0, 0, 0));
    assert_eq!(levels(plain), [0, 0, 0, 0, 100, 100, 255, 255]);
    let mirrored = thermal::build_image(&words, (2, 2), (2, 2), true, scale, &shades);
    assert_eq!(levels(mirrored), [0, 0, 255, 100]);
}

#[test]
fn settling_meters_until_converged() {
    let mut settling = Settling::new();
    settling.record(Metered::Missed);
    settling.record(Metered::Adjusted);
    assert_eq!(settling.next_step(), SettleStep::Meter);
    settling.record(Metered::Converged);
    assert_eq!(settling.next_step(), SettleStep::Discard);
    settling.record_discard();
    settling.record_discard();
    assert_eq!(settling.next_step(), SettleStep::Done);
}

#[test]
fn settling_has_a_frame_budget() {
    let mut settling = Settling::new();
    let mut metered = 0;
    while settling.next_step() == SettleStep::Meter {
        settling.record(Metered::Adjusted);
        metered += 1;
    }
    assert_eq!(metered, 6);
    assert_eq!(settling.next_step(), SettleStep::Discard);
}

#[test]
fn watermarks_sit_in_the_corner() {
    let white = RgbPixel::new(200, 200, 200);
    let grey = RgbPixel::new(128, 255, 255);
    let data = pack_watermark(3, 2, &[white, grey, white, grey, white, grey]);
    assert_eq!(data, [3, 0, 2, 0, 0b1010_1000]);
    let mark = Watermark::new(data);
    assert!(is_white_at(&mark, 312, 233));
    assert!(!is_white_at(&mark, 313, 233));
    assert!(is_white_at(&mark, 314, 233));
    assert!(is_white_at(&mark, 313, 234));
    assert!(!is_white_at(&mark, 315, 233));
    assert!(!is_white_at(&mark, 311, 233));
    assert!(!is_white_at(&mark, 312, 235));
    assert!(!is_white_at(&mark, 312, 232));
}

#[test]
fn watermarks_are_scaled_and_packed() {
    let (width, height, w, h) = (24, 10, 9, 7);
    let pixels: Vec<RgbPixel> = (0..width * height)
        .map(|i| RgbPixel::new((i * 7) as u8, (i * 5 + 90) as u8, (255 - i % 100) as u8))
        .collect();
    let data = build_watermark(&pixels, width, height, w, h);
    assert!(fits_picture(&data));

    let source = image::RgbImage::from_fn(width, height, |x, y| {
        let p = pixels[(y * width + x) as usize];
        image::Rgb([p.red, p.green, p.blue])
    });
    let filter = image::imageops::FilterType::Triangle;
    let scaled = image::imageops::resize(&source, u32::from(w), u32::from(h), filter);
    let expected: Vec<RgbPixel> = scaled
        .pixels()
        .map(|p| RgbPixel::new(p[0], p[1], p[2]))
        .collect();
    assert_eq!(data, pack_watermark(w, h, &expected));
    assert!(data[4..].iter().any(|byte| *byte != 0));
    assert!(data[4..].iter().any(|byte| *byte != 255));

    // Alpha has no say in the other channels.
    let clear = image::RgbaImage::from_fn(width, height, |x, y| {
        let p = source.get_pixel(x, y);
        image::Rgba([p[0], p[1], p[2], (x * 9) as u8])
    });
    let scaled = image::imageops::resize(&clear, u32::from(w), u32::from(h), filter);
    for (opaque, clear) in expected.iter().zip(scaled.pixels()) {
        assert_eq!([opaque.red, opaque.green, opaque.blue], clear.0[..3]);
    }
}

#[test]
fn scaling_has_limits() {
    assert!(can_resize(1_000, 700, 106, 74));
    assert!(can_resize(0, 0, 0, 0));
    assert!(can_resize(65_535, 1, 1, 65_535));
    assert!(!can_resize(65_536, 1, 1, 1));
    assert!(!can_resize(1, 65_536, 1, 1));
    assert!(!can_resize(1, 1, 65_536, 1));
    assert!(!can_resize(1, 1, 1, 65_536));
    assert_eq!(build_watermark(&vec![], 0, 0, 3, 3), [3, 0, 3, 0, 0, 0]);
}

#[test]
fn watermarks_must_fit() {
    assert!(fits_picture(&[0, 0, 0, 0]));
    assert!(fits_picture(&[3, 0, 3, 0, 0, 0]));
    assert!(!fits_picture(&[3, 0, 3, 0, 0]));
    assert!(!fits_picture(&[3, 0, 3]));
    let wide = |w: u16, h: u16| {
        let mut data = [w.to_le_bytes(), h.to_le_bytes()].concat();
        data.extend(vec![0; 10_000]);
        fits_picture(&data)
    };
    assert!(wide(315, 235));
    assert!(!wide(316, 235));
    assert!(!wide(315, 236));
}

#[test]
fn images_hand_out_their_pixels_once() {
    let pixels = vec![RgbPixel::new(1, 0, 0), RgbPixel::new(2, 0, 0)];
    let mut image = Image::from_pixels(2, 1, pixels.clone());
    image.pixels_mut()[1].green = 9;
    assert_eq!(image.next(), Some(pixels[0]));
    assert_eq!(image.next(), Some(RgbPixel::new(2, 9, 0)));
    assert_eq!(image.next(), None);
    assert!(image.into_upcoming().is_empty());
    let mut image = Image::from_pixels(2, 1, pixels.clone());
    image.next();
    assert_eq!(image.into_upcoming(), [pixels[1]]);
}

fn steps_of(mut bring_up: BringUp, outcome: impl Fn(Step, usize) -> bool) -> (Vec<Step>, bool) {
    let mut steps = Vec::new();
    while let Some(step) = bring_up.step() {
        let ok = outcome(step, steps.len());
        steps.push(step);
        if bring_up.record(ok).is_err() {
            return (steps, false);
        }
    }
    (steps, true)
}

#[test]
fn cameras_come_up_step_by_step() {
    let (steps, up) = steps_of(BringUp::new(Sequence::Lenient), |_, _| true);
    assert!(up);
    assert_eq!(
        steps,
        [
            Step::ConfigureReset,
            Step::HoldReset,
            Step::CreateBus,
            Step::AddDevice,
            Step::ReleaseReset,
            Step::RecoverBus,
            Step::ProgramSensor,
            Step::PowerPhy,
            Step::CreateController,
            Step::RegisterCallbacks,
            Step::EnableController,
            Step::StartController,
            Step::CreateProcessor,
            Step::BypassProcessor,
        ]
    );
}

#[test]
fn a_stuck_bus_is_reset_five_times_and_left_alone() {
    let (steps, up) = steps_of(BringUp::new(Sequence::Lenient), |step, _| {
        step != Step::RecoverBus && step != Step::ProgramSensor
    });
    assert!(up);
    let resets = steps.iter().filter(|s| **s == Step::RecoverBus).count();
    assert_eq!(resets, 5);
}

#[test]
fn the_sensor_gets_a_second_try() {
    let (steps, up) = steps_of(BringUp::new(Sequence::SensorFirst), |step, i| {
        step != Step::InitSensor || i > 5
    });
    assert!(up);
    assert_eq!(
        steps[5..10],
        [
            Step::InitSensor,
            Step::ConfigureReset,
            Step::HoldReset,
            Step::ReleaseReset,
            Step::InitSensor,
        ]
    );
    let (steps, up) = steps_of(BringUp::new(Sequence::SensorFirst), |step, _| {
        step != Step::InitSensor
    });
    assert!(!up);
    assert_eq!(steps.last(), Some(&Step::InitSensor));
    assert_eq!(steps.len(), 10);
}

#[test]
fn the_receiver_may_run_first() {
    let sequence = Sequence::ReceiverFirst { bypass: false };
    let (steps, up) = steps_of(BringUp::new(sequence), |_, _| true);
    assert!(up);
    assert!(!steps.contains(&Step::BypassProcessor));
    assert_eq!(steps[10..], [Step::QueueFrame, Step::InitSensor]);
    let (steps, up) = steps_of(
        BringUp::new(Sequence::ReceiverFirst { bypass: true }),
        |step, i| step != Step::InitSensor || i > 12,
    );
    assert!(up);
    assert_eq!(
        steps[12..],
        [
            Step::InitSensor,
            Step::HoldReset,
            Step::ReleaseReset,
            Step::InitSensor
        ]
    );
}

#[test]
fn a_failed_step_ends_the_bring_up() {
    let mut bring_up = BringUp::new(Sequence::Lenient);
    assert_eq!(bring_up.record(false), Err(Step::ConfigureReset));
}

#[test]
fn reset_levels_need_time() {
    assert_eq!(pause_after(Step::HoldReset, true), 500);
    assert_eq!(pause_after(Step::ReleaseReset, true), 300);
    assert_eq!(pause_after(Step::RecoverBus, false), 200);
    assert_eq!(pause_after(Step::RecoverBus, true), 0);
    assert_eq!(pause_after(Step::PowerPhy, false), 0);
}

#[test]
fn only_mosaics_are_streamed() {
    assert_eq!(
        Stream::of(&raw10(8, 4)),
        Ok(Stream {
            color: ColorType::Raw10,
            order: BayerOrder::Rggb,
            bypass: true,
            frame_bytes: 40
        })
    );
    let raw8 = format(8, 4, PixelFormat::Raw8(BayerOrder::Gbrg));
    assert_eq!(
        Stream::of(&raw8),
        Ok(Stream {
            color: ColorType::Raw8,
            order: BayerOrder::Gbrg,
            bypass: false,
            frame_bytes: 32
        })
    );
    assert_eq!(
        Stream::of(&format(8, 4, PixelFormat::Gray16)),
        Err(CameraError::UnsupportedFormat)
    );
}

#[test]
fn waiting_for_a_frame_ends() {
    let mut wait = FrameWait::new(Timeout::Millis(2));
    assert_eq!(wait.look(false), Wait::Sleep);
    assert_eq!(wait.look(false), Wait::Sleep);
    assert_eq!(wait.look(false), Wait::Fail(CameraError::Transport));
    assert_eq!(wait.look(true), Wait::Take);
    let mut forever = FrameWait::new(Timeout::Forever);
    for _ in 0..10_000 {
        assert_eq!(forever.look(false), Wait::Sleep);
    }
    assert_eq!(forever.look(true), Wait::Take);
}

#[test]
fn frames_are_read_in_chunks() {
    let mut readout = Readout::new(38_400, 16_384);
    let mut chunks = Vec::new();
    while let Some(chunk) = readout.next_chunk() {
        chunks.push(chunk);
    }
    let chunk = |offset: usize, bytes: usize| Chunk {
        offset,
        bytes,
        bits: bytes * 8,
    };
    assert_eq!(
        chunks,
        [chunk(0, 16_384), chunk(16_384, 16_384), chunk(32_768, 5_632)]
    );
    assert_eq!(Readout::new(0, 1).next_chunk(), None);
}

#[test]
fn transactions_have_four_shapes() {
    let (read, write) = (Direction::Read, Direction::Write);
    assert_eq!(shape(&[]), Some(Shape::Empty));
    assert_eq!(shape(&[write]), Some(Shape::Transmit));
    assert_eq!(shape(&[read]), Some(Shape::Receive));
    assert_eq!(shape(&[write, read]), Some(Shape::TransmitReceive));
    assert_eq!(shape(&[read, write]), None);
    assert_eq!(shape(&[write, write]), None);
    assert_eq!(shape(&[write, read, write]), None);
}

#[test]
fn devices_are_listed_once() {
    let mut table = DeviceTable::new();
    assert_eq!(table.find(0x41), None);
    table.insert(0x41);
    table.insert(0x30);
    assert_eq!(table.find(0x41), Some(0));
    assert_eq!(table.find(0x30), Some(1));
    assert_eq!(table.find(0x31), None);
}

#[test]
fn scans_list_who_answered() {
    let mut answers = vec![false; ADDRESS_COUNT];
    assert!(scan(&answers).is_empty());
    for address in [0x00, 0x07, 0x08, 0x41, 0x77, 0x78, 0x7f] {
        answers[address] = true;
    }
    assert_eq!(scan(&answers), [0x00, 0x07, 0x08, 0x41, 0x77, 0x78, 0x7f]);
    assert_eq!(scan(&vec![true; ADDRESS_COUNT]), (0..=0x7f).collect::<Vec<u8>>());
}

#[test]
fn buses_are_diagnosed() {
    assert!(matches!(diagnose(&[]), Diagnosis::Silent));
    match diagnose(&[0x0a, 0x41]) {
        Diagnosis::Devices(list) => assert_eq!(list, "0x0a, 0x41"),
        _ => panic!("two devices"),
    }
    assert!(matches!(diagnose(&[1; 8]), Diagnosis::Devices(_)));
    assert!(matches!(diagnose(&[1; 9]), Diagnosis::Faulty(9)));
}
