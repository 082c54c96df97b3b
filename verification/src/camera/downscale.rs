//! Box-filter downscale of a packed RAW10 frame to RGB888, with the statistics
//! that gray-world white balance needs.
//!
//! Pipeline per output pixel: box-filter demosaic, black-level subtraction,
//! range restoration, white balance, gamma, packing as three bytes. Everything
//! behind the box filter depends on one average level only and is given as a
//! curve.

use vstd::prelude::*;

use super::format::{BayerChannel, BayerOrder, FrameFormat};
use super::image;
use super::image::RgbPixel;
use super::raw10;
use super::raw10::{Area, Mosaic, ToneCurves};
use crate::pacing;
use crate::pacing::Sleeper;

verus! {

/// The mosaic layout this pipeline reads.
pub const ORDER: BayerOrder = BayerOrder::Rggb;

/// The source rectangle behind an output pixel: an equal share of the source in
/// each direction, two pixels at least.
pub open spec fn cell(format: FrameFormat, output: (usize, usize), dx: int, dy: int) -> Area {
    let (width, height) = (format.width as int, format.height as int);
    let top = raw10::part(dy, output.1 as int, height);
    let left = raw10::part(dx, output.0 as int, width);
    Area {
        top: top as usize,
        bottom: raw10::span_end(top, raw10::part(dy + 1, output.1 as int, height), height) as usize,
        left: left as usize,
        right: raw10::span_end(left, raw10::part(dx + 1, output.0 as int, width), width) as usize,
    }
}

/// Every cell of the output can be computed, and so can the sums over it.
pub open spec fn scalable(format: FrameFormat, output: (usize, usize)) -> bool {
    &&& format.width + 2 <= usize::MAX
    &&& format.height + 2 <= usize::MAX
    &&& output.0 * format.width <= usize::MAX
    &&& output.1 * format.height <= usize::MAX
    &&& format.width * format.height * 255 <= u64::MAX
    &&& output.0 * output.1 * 3 <= usize::MAX
    &&& output.0 * output.1 * 255 <= u64::MAX
}

/// Whether a frame of this format can be scaled to `output`.
pub fn can_scale(format: &FrameFormat, output: (usize, usize)) -> (able: bool)
    ensures
        able == scalable(*format, output),
{
    let source: Option<u64> = (format.width as u64).checked_mul(format.height as u64);
    let pixels: Option<usize> = output.0.checked_mul(output.1);
    match (source, pixels) {
        (Some(source), Some(pixels)) => {
            format.width <= usize::MAX - 2 && format.height
                <= usize::MAX - 2 && output.0.checked_mul(format.width).is_some()
                && output.1.checked_mul(format.height).is_some() && source.checked_mul(
                255,
            ).is_some() && pixels.checked_mul(3).is_some() && (pixels as u64).checked_mul(
                255,
            ).is_some()
        },
        _ => false,
    }
}

/// Every cell lies within the source.
pub proof fn law_cell_is_in_source(format: FrameFormat, output: (usize, usize), dx: int, dy: int)
    requires
        scalable(format, output),
        0 <= dx < output.0,
        0 <= dy < output.1,
    ensures
        ({
            let area = cell(format, output, dx, dy);
            &&& area.top <= area.bottom <= format.height
            &&& area.left <= area.right <= format.width
        }),
{
    raw10::lemma_part(dx, output.0 as int, format.width as int);
    raw10::lemma_part(dx + 1, output.0 as int, format.width as int);
    raw10::lemma_part(dy, output.1 as int, format.height as int);
    raw10::lemma_part(dy + 1, output.1 as int, format.height as int);
}

/// The bytes of a run of pixels, red, green and blue for each.
pub open spec fn rgb_bytes(pixels: Seq<RgbPixel>) -> Seq<u8>
    decreases pixels.len(),
{
    if pixels.len() == 0 {
        seq![]
    } else {
        rgb_bytes(pixels.drop_last()) + seq![
            pixels.last().red,
            pixels.last().green,
            pixels.last().blue,
        ]
    }
}

/// The sum of the levels behind the first `n` output pixels.
pub open spec fn level_sum(n: nat, level: spec_fn(int) -> u8) -> nat
    decreases n,
{
    if n == 0 {
        0
    } else {
        level_sum((n - 1) as nat, level) + level(n - 1) as nat
    }
}

/// A sum of levels is at most full scale each.
proof fn lemma_level_sum(n: nat, level: spec_fn(int) -> u8)
    ensures
        level_sum(n, level) <= 255 * n,
    decreases n,
{
    if n > 0 {
        lemma_level_sum((n - 1) as nat, level);
    }
}

/// A processed frame: its RGB888 bytes, and the sums of its linear red, green
/// and blue levels.
#[derive(Debug)]
pub struct Processed {
    /// Three bytes per output pixel, row by row.
    pub rgb: Vec<u8>,
    /// The sum of the linear red levels.
    pub red_sum: u64,
    /// The sum of the linear green levels.
    pub green_sum: u64,
    /// The sum of the linear blue levels.
    pub blue_sum: u64,
}

/// The linear level of a color behind the `i`-th output pixel.
pub open spec fn linear_level(
    m: Mosaic,
    format: FrameFormat,
    output: (usize, usize),
    linear: [u8; 256],
    color: BayerChannel,
) -> spec_fn(int) -> u8 {
    |i: int|
        linear[m.average(
            color,
            cell(format, output, i % output.0 as int, i / output.0 as int),
        ) as int]
}

/// Downscale a packed RAW10 frame. `curves` gives the display levels of an
/// average, `linear` its level after black-level subtraction and range
/// restoration, before white balance. Sleeps every [`ROWS_PER_NAP`] rows, so
/// that the scheduler is not starved.
///
/// [`ROWS_PER_NAP`]: crate::pacing::ROWS_PER_NAP
pub fn process_frame<S: Sleeper>(
    frame: &[u8],
    format: &FrameFormat,
    row_bytes: usize,
    output: (usize, usize),
    curves: &ToneCurves,
    linear: &[u8; 256],
    sleeper: &mut S,
) -> (processed: Processed)
    requires
        row_bytes >= format.width * 10 / 8,
        frame@.len() >= row_bytes * format.height,
        scalable(*format, output),
    ensures
        final(sleeper).sleeps() == old(sleeper).sleeps() + pacing::naps(output.1 as nat),
        ({
            let m = Mosaic { frame: frame@, row_len: row_bytes as nat, order: ORDER };
            let n = (output.0 * output.1) as nat;
            &&& processed.rgb@ == rgb_bytes(
                image::raster(
                    output.0 as nat,
                    output.1 as nat,
                    |dx: int, dy: int|
                        raw10::developed(m, *curves, cell(*format, output, dx, dy)),
                ),
            )
            &&& processed.red_sum == level_sum(
                n,
                linear_level(m, *format, output, *linear, BayerChannel::Red),
            )
            &&& processed.green_sum == level_sum(
                n,
                linear_level(m, *format, output, *linear, BayerChannel::Green),
            )
            &&& processed.blue_sum == level_sum(
                n,
                linear_level(m, *format, output, *linear, BayerChannel::Blue),
            )
        }),
{
    let (out_w, out_h) = output;
    let ghost m = Mosaic { frame: frame@, row_len: row_bytes as nat, order: ORDER };
    let ghost color = |dx: int, dy: int|
        raw10::developed(m, *curves, cell(*format, output, dx, dy));
    let ghost all = image::raster(out_w as nat, out_h as nat, color);
    let ghost red_level = linear_level(m, *format, output, *linear, BayerChannel::Red);
    let ghost green_level = linear_level(m, *format, output, *linear, BayerChannel::Green);
    let ghost blue_level = linear_level(m, *format, output, *linear, BayerChannel::Blue);
    let mut processed = Processed { rgb: Vec::new(), red_sum: 0, green_sum: 0, blue_sum: 0 };
    let mut dy: usize = 0;
    let ghost slept = sleeper.sleeps();
    assert(all.take(0) == Seq::<RgbPixel>::empty());
    assert(slept + pacing::naps(0) == slept);
    while dy < out_h
        invariant
            slept == old(sleeper).sleeps(),
            sleeper.sleeps() == slept + pacing::naps(dy as nat),
            output == (out_w, out_h),
            dy <= out_h,
            row_bytes >= format.width * 10 / 8,
            frame@.len() >= row_bytes * format.height,
            scalable(*format, output),
            m == (Mosaic { frame: frame@, row_len: row_bytes as nat, order: ORDER }),
            color == |dx: int, dy: int|
                raw10::developed(m, *curves, cell(*format, output, dx, dy)),
            all == image::raster(out_w as nat, out_h as nat, color),
            red_level == linear_level(m, *format, output, *linear, BayerChannel::Red),
            green_level == linear_level(m, *format, output, *linear, BayerChannel::Green),
            blue_level == linear_level(m, *format, output, *linear, BayerChannel::Blue),
            0 <= dy * out_w,
            processed.rgb@ == rgb_bytes(all.take(dy * out_w)),
            processed.red_sum == level_sum((dy * out_w) as nat, red_level),
            processed.green_sum == level_sum((dy * out_w) as nat, green_level),
            processed.blue_sum == level_sum((dy * out_w) as nat, blue_level),
        decreases out_h - dy,
    {
        pacing::nap_before_row(dy, sleeper);
        proof {
            pacing::lemma_naps(slept, dy as nat);
            raw10::lemma_part(dy as int, out_h as int, format.height as int);
            raw10::lemma_part(dy + 1, out_h as int, format.height as int);
        }
        let top: usize = dy * format.height / out_h;
        let bottom = raw10::end_of_span(
            top,
            (dy + 1) * format.height / out_h,
            format.height,
        );
        let mut dx: usize = 0;
        while dx < out_w
            invariant
                output == (out_w, out_h),
                dx <= out_w,
                dy < out_h,
                row_bytes >= format.width * 10 / 8,
                frame@.len() >= row_bytes * format.height,
                scalable(*format, output),
                m == (Mosaic { frame: frame@, row_len: row_bytes as nat, order: ORDER }),
                color == |dx: int, dy: int|
                    raw10::developed(m, *curves, cell(*format, output, dx, dy)),
                all == image::raster(out_w as nat, out_h as nat, color),
                red_level == linear_level(m, *format, output, *linear, BayerChannel::Red),
                green_level == linear_level(m, *format, output, *linear, BayerChannel::Green),
                blue_level == linear_level(m, *format, output, *linear, BayerChannel::Blue),
                top == cell(*format, output, 0, dy as int).top,
                bottom == cell(*format, output, 0, dy as int).bottom,
                top <= bottom <= format.height,
                0 <= dy * out_w,
                processed.rgb@ == rgb_bytes(all.take(dy * out_w + dx)),
                processed.red_sum == level_sum((dy * out_w + dx) as nat, red_level),
                processed.green_sum == level_sum((dy * out_w + dx) as nat, green_level),
                processed.blue_sum == level_sum((dy * out_w + dx) as nat, blue_level),
            decreases out_w - dx,
        {
            let ghost i = dy * out_w + dx;
            proof {
                raw10::lemma_part(dx as int, out_w as int, format.width as int);
                raw10::lemma_part(dx + 1, out_w as int, format.width as int);
                image::lemma_index(out_w as nat, out_h as nat, dx as int, dy as int);
                lemma_level_sum(i as nat, red_level);
                lemma_level_sum(i as nat, green_level);
                lemma_level_sum(i as nat, blue_level);
            }
            let left: usize = dx * format.width / out_w;
            let right = raw10::end_of_span(
                left,
                (dx + 1) * format.width / out_w,
                format.width,
            );
            let area = Area { top, bottom, left, right };
            assert(area == cell(*format, output, dx as int, dy as int));
            assert((bottom - top) * (right - left) <= format.width * format.height)
                by (nonlinear_arith)
                requires
                    0 <= bottom - top <= format.height,
                    0 <= right - left <= format.width,
            ;
            let (red, green, blue) = raw10::box_average(frame, format, row_bytes, ORDER, area);
            processed.red_sum = processed.red_sum + linear[red as usize] as u64;
            processed.green_sum = processed.green_sum + linear[green as usize] as u64;
            processed.blue_sum = processed.blue_sum + linear[blue as usize] as u64;
            processed.rgb.push(curves.red[red as usize]);
            processed.rgb.push(curves.green[green as usize]);
            processed.rgb.push(curves.blue[blue as usize]);
            proof {
                assert(all.take(i + 1).drop_last() == all.take(i));
                assert(all[i] == color(dx as int, dy as int));
            }
            dx += 1;
        }
        assert(dy * out_w + out_w == (dy + 1) * out_w) by (nonlinear_arith);
        dy += 1;
    }
    assert(out_h * out_w == out_w * out_h) by (nonlinear_arith);
    assert(all.take(out_h * out_w) == all);
    processed
}

/// What lies behind an output pixel is its share of the source in each
/// direction, not turned: from where the shares ahead of it end to where it
/// ends itself, two pixels at least as far as there are any.
pub proof fn law_cell_is_the_share(
    format: FrameFormat,
    output: (usize, usize),
    dx: int,
    dy: int,
)
    requires
        scalable(format, output),
        0 <= dx < output.0,
        0 <= dy < output.1,
    ensures
        ({
            let (width, height) = (format.width as int, format.height as int);
            let area = cell(format, output, dx, dy);
            &&& area.top * output.1 <= dy * height < (area.top + 1) * output.1
            &&& area.bottom * output.1 <= (dy + 1) * height || area.bottom <= area.top + 2
            &&& (area.bottom + 1) * output.1 > (dy + 1) * height
            &&& area.bottom >= area.top + 2 || area.bottom == height
            &&& area.bottom <= height
            &&& area.left * output.0 <= dx * width < (area.left + 1) * output.0
            &&& area.right * output.0 <= (dx + 1) * width || area.right <= area.left + 2
            &&& (area.right + 1) * output.0 > (dx + 1) * width
            &&& area.right >= area.left + 2 || area.right == width
            &&& area.right <= width
        }),
{
    let (out_w, out_h) = (output.0 as int, output.1 as int);
    let (width, height) = (format.width as int, format.height as int);
    law_cell_is_in_source(format, output, dx, dy);
    raw10::lemma_part(dx, out_w, width);
    raw10::lemma_part(dx + 1, out_w, width);
    raw10::lemma_part(dy, out_h, height);
    raw10::lemma_part(dy + 1, out_h, height);
    raw10::law_parts_are_equal_shares(dx, out_w, width);
    raw10::law_parts_are_equal_shares(dx + 1, out_w, width);
    raw10::law_parts_are_equal_shares(dy, out_h, height);
    raw10::law_parts_are_equal_shares(dy + 1, out_h, height);
    let area = cell(format, output, dx, dy);
    raw10::lemma_span(
        area.top as int,
        raw10::part(dy + 1, out_h, height),
        area.bottom as int,
        height,
        out_h,
        (dy + 1) * height,
    );
    raw10::lemma_span(
        area.left as int,
        raw10::part(dx + 1, out_w, width),
        area.right as int,
        width,
        out_w,
        (dx + 1) * width,
    );
}

/// The bytes of a run of pixels: three for each, red first.
pub proof fn law_three_bytes_per_pixel(pixels: Seq<RgbPixel>)
    ensures
        rgb_bytes(pixels).len() == 3 * pixels.len(),
        forall|i: int|
            #![trigger pixels[i]]
            0 <= i < pixels.len() ==> {
                &&& rgb_bytes(pixels)[3 * i] == pixels[i].red
                &&& rgb_bytes(pixels)[3 * i + 1] == pixels[i].green
                &&& rgb_bytes(pixels)[3 * i + 2] == pixels[i].blue
            },
    decreases pixels.len(),
{
    if pixels.len() > 0 {
        let before = pixels.drop_last();
        law_three_bytes_per_pixel(before);
        let all = rgb_bytes(pixels);
        assert forall|i: int| #![trigger pixels[i]] 0 <= i < pixels.len() implies {
            &&& all[3 * i] == pixels[i].red
            &&& all[3 * i + 1] == pixels[i].green
            &&& all[3 * i + 2] == pixels[i].blue
        } by {
            if i < before.len() {
                assert(before[i] == pixels[i]);
                assert(all[3 * i] == rgb_bytes(before)[3 * i]);
                assert(all[3 * i + 1] == rgb_bytes(before)[3 * i + 1]);
                assert(all[3 * i + 2] == rgb_bytes(before)[3 * i + 2]);
            }
        }
    }
}

/// Levels add up one by one.
pub proof fn law_levels_add_up(n: nat, level: spec_fn(int) -> u8)
    ensures
        level_sum(0, level) == 0,
        level_sum(n + 1, level) == level_sum(n, level) + level(n as int),
{
}

/// What is added up for a color is the linear level of its average behind each
/// output pixel, row by row.
pub proof fn law_linear_levels_are_of_averages(
    m: Mosaic,
    format: FrameFormat,
    output: (usize, usize),
    linear: [u8; 256],
    color: BayerChannel,
    dx: int,
    dy: int,
)
    requires
        0 <= dx < output.0,
        0 <= dy < output.1,
    ensures
        linear_level(m, format, output, linear, color)(dy * output.0 + dx) == linear[m.average(
            color,
            cell(format, output, dx, dy),
        ) as int],
{
    image::lemma_index(output.0 as nat, output.1 as nat, dx, dy);
}

/// Every channel of an output pixel is the average of its own color behind it,
/// through the channel's own curve, in the three bytes of the pixel.
pub proof fn law_bytes_follow_their_curves(
    m: Mosaic,
    curves: ToneCurves,
    format: FrameFormat,
    output: (usize, usize),
    dx: int,
    dy: int,
)
    requires
        0 <= dx < output.0,
        0 <= dy < output.1,
    ensures
        ({
            let rgb = rgb_bytes(
                image::raster(
                    output.0 as nat,
                    output.1 as nat,
                    |x: int, y: int| raw10::developed(m, curves, cell(format, output, x, y)),
                ),
            );
            let at = 3 * (dy * output.0 + dx);
            let area = cell(format, output, dx, dy);
            &&& rgb.len() == 3 * (output.0 * output.1)
            &&& rgb[at] == curves.red[m.average(BayerChannel::Red, area) as int]
            &&& rgb[at + 1] == curves.green[m.average(BayerChannel::Green, area) as int]
            &&& rgb[at + 2] == curves.blue[m.average(BayerChannel::Blue, area) as int]
        }),
{
    image::lemma_index(output.0 as nat, output.1 as nat, dx, dy);
    let pixels = image::raster(
        output.0 as nat,
        output.1 as nat,
        |x: int, y: int| raw10::developed(m, curves, cell(format, output, x, y)),
    );
    law_three_bytes_per_pixel(pixels);
    assert(pixels[dy * output.0 + dx] == raw10::developed(
        m,
        curves,
        cell(format, output, dx, dy),
    ));
}

/// Every frame whose sides fit into 16 bits can be scaled to every picture whose
/// sides fit into 15.
pub proof fn law_ordinary_sizes_are_scaled(format: FrameFormat, output: (usize, usize))
    requires
        format.width < 0xFFFE,
        format.height < 0xFFFE,
        output.0 <= 0x7FFF,
        output.1 <= 0x7FFF,
    ensures
        scalable(format, output),
{
    let (w, h) = (format.width as int, format.height as int);
    let (a, b) = (output.0 as int, output.1 as int);
    assert(0 <= a * w <= 0xFFFF_FFFF && 0 <= b * h <= 0xFFFF_FFFF && 0 <= w * h <= 0xFFFF_FFFF && 0
        <= a * b <= 0x3FFF_0001) by (nonlinear_arith)
        requires
            0 <= w < 0xFFFE,
            0 <= h < 0xFFFE,
            0 <= a <= 0x7FFF,
            0 <= b <= 0x7FFF,
    ;
}

} // verus!
