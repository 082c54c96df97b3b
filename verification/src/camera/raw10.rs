//! Shared pixel pipeline for packed-RAW10 Bayer sensors: metering for
//! auto-exposure and the demosaic / color-correct / rotate-crop path that turns
//! a raw capture buffer into an [`Image`].

use vstd::prelude::*;

use super::format::{BayerChannel, BayerOrder, FrameFormat};
use super::image;
use super::image::{Image, RgbPixel};
use crate::pacing;
use crate::pacing::Sleeper;

verus! {

/// A raw capture buffer read as a Bayer mosaic.
pub struct Mosaic {
    /// The bytes of the buffer.
    pub frame: Seq<u8>,
    /// Bytes per row.
    pub row_len: nat,
    /// The layout of the color sites.
    pub order: BayerOrder,
}

/// A rectangle of pixels: rows from `top` up to `bottom`, columns from `left` up
/// to `right`.
#[derive(Clone, Copy, Debug, PartialEq, Eq, Structural)]
pub struct Area {
    /// First row.
    pub top: usize,
    /// Row behind the last.
    pub bottom: usize,
    /// First column.
    pub left: usize,
    /// Column behind the last.
    pub right: usize,
}

impl Mosaic {
    /// The 8 most significant bits of a pixel. Four pixels share a 5-byte
    /// group, whose last byte holds the low bits that are not needed here.
    pub open spec fn sample(self, y: int, x: int) -> u8 {
        self.frame[y * self.row_len + sample_place(x)]
    }

    /// The light that a pixel adds to a color: its sample, if it is a site of
    /// that color.
    pub open spec fn light(self, color: BayerChannel, y: int, x: int) -> nat {
        if self.order.channel(y, x) == color {
            self.sample(y, x) as nat
        } else {
            0
        }
    }

    /// The sites that a pixel adds to a color: one, if it is of that color.
    pub open spec fn site(self, color: BayerChannel, y: int, x: int) -> nat {
        if self.order.channel(y, x) == color {
            1
        } else {
            0
        }
    }

    /// The light of a color on part of a row.
    pub open spec fn row_light(self, color: BayerChannel, y: int, left: int, right: int) -> nat
        decreases right - left,
    {
        if right <= left {
            0
        } else {
            self.row_light(color, y, left, right - 1) + self.light(color, y, right - 1)
        }
    }

    /// The sites of a color on part of a row.
    pub open spec fn row_sites(self, color: BayerChannel, y: int, left: int, right: int) -> nat
        decreases right - left,
    {
        if right <= left {
            0
        } else {
            self.row_sites(color, y, left, right - 1) + self.site(color, y, right - 1)
        }
    }

    /// The light of a color in a rectangle.
    pub open spec fn area_light(
        self,
        color: BayerChannel,
        top: int,
        bottom: int,
        left: int,
        right: int,
    ) -> nat
        decreases bottom - top,
    {
        if bottom <= top {
            0
        } else {
            self.area_light(color, top, bottom - 1, left, right) + self.row_light(
                color,
                bottom - 1,
                left,
                right,
            )
        }
    }

    /// The sites of a color in a rectangle.
    pub open spec fn area_sites(
        self,
        color: BayerChannel,
        top: int,
        bottom: int,
        left: int,
        right: int,
    ) -> nat
        decreases bottom - top,
    {
        if bottom <= top {
            0
        } else {
            self.area_sites(color, top, bottom - 1, left, right) + self.row_sites(
                color,
                bottom - 1,
                left,
                right,
            )
        }
    }

    /// The average of a color in a rectangle, rounded down; zero if the
    /// rectangle has no site of that color.
    pub open spec fn average(self, color: BayerChannel, area: Area) -> nat {
        let light = self.area_light(
            color,
            area.top as int,
            area.bottom as int,
            area.left as int,
            area.right as int,
        );
        let sites = self.area_sites(
            color,
            area.top as int,
            area.bottom as int,
            area.left as int,
            area.right as int,
        );
        if sites == 0 {
            0
        } else {
            light / sites
        }
    }
}

/// The place of a pixel within a frame of packed rows.
pub proof fn lemma_sample_in_frame(width: nat, height: nat, row_len: nat, y: int, x: int)
    requires
        row_len >= width * 10 / 8,
        0 <= y < height,
        0 <= x < width,
    ensures
        sample_place(x) < row_len,
        0 <= y * row_len,
        y * row_len + row_len <= row_len * height,
{
    assert(0 <= y * row_len) by (nonlinear_arith)
        requires
            0 <= y,
            0 <= row_len,
    ;
    assert(y * row_len + row_len <= row_len * height) by (nonlinear_arith)
        requires
            y + 1 <= height,
            0 <= row_len,
    ;
}

/// Where in its row the high bits of a pixel are.
pub open spec fn sample_place(x: int) -> int {
    x / 4 * 5 + x % 4
}

/// Every pixel has a byte of its own, and none of them is the byte that ends a
/// group with the low bits.
pub proof fn law_pixels_do_not_share_bytes(x: int, other: int)
    requires
        0 <= x,
        0 <= other,
    ensures
        sample_place(x) == sample_place(other) ==> x == other,
        sample_place(x) % 5 != 4,
{
}

/// Read the 8 most significant bits of a pixel from packed RAW10 rows.
pub fn raw10_pixel(
    frame: &[u8],
    format: &FrameFormat,
    row_bytes: usize,
    order: BayerOrder,
    y: usize,
    x: usize,
) -> (sample: u8)
    requires
        row_bytes >= format.width * 10 / 8,
        frame@.len() >= row_bytes * format.height,
        y < format.height,
        x < format.width,
    ensures
        sample == (Mosaic { frame: frame@, row_len: row_bytes as nat, order }).sample(
            y as int,
            x as int,
        ),
{
    proof {
        lemma_sample_in_frame(
            format.width as nat,
            format.height as nat,
            row_bytes as nat,
            y as int,
            x as int,
        );
    }
    assert(y * row_bytes + row_bytes <= frame.len());
    frame[y * row_bytes + x / 4 * 5 + x % 4]
}

/// The light of an area is at most full scale at each of its sites, and it has
/// at most one site per pixel.
proof fn lemma_light_bound(m: Mosaic, color: BayerChannel, top: int, bottom: int, left: int, right: int)
    requires
        top <= bottom,
        left <= right,
    ensures
        m.area_light(color, top, bottom, left, right) <= 255 * m.area_sites(
            color,
            top,
            bottom,
            left,
            right,
        ),
    decreases bottom - top,
{
    if top < bottom {
        lemma_light_bound(m, color, top, bottom - 1, left, right);
        lemma_row_light_bound(m, color, bottom - 1, left, right);
    }
}

proof fn lemma_row_light_bound(m: Mosaic, color: BayerChannel, y: int, left: int, right: int)
    requires
        left <= right,
    ensures
        m.row_light(color, y, left, right) <= 255 * m.row_sites(color, y, left, right),
        m.row_sites(color, y, left, right) <= right - left,
    decreases right - left,
{
    if left < right {
        lemma_row_light_bound(m, color, y, left, right - 1);
    }
}

proof fn lemma_sites_bound(m: Mosaic, color: BayerChannel, top: int, bottom: int, left: int, right: int)
    requires
        top <= bottom,
        left <= right,
    ensures
        m.area_sites(color, top, bottom, left, right) <= (bottom - top) * (right - left),
    decreases bottom - top,
{
    if top < bottom {
        lemma_sites_bound(m, color, top, bottom - 1, left, right);
        lemma_row_light_bound(m, color, bottom - 1, left, right);
        assert((bottom - top) * (right - left) == (bottom - 1 - top) * (right - left) + (right
            - left)) by (nonlinear_arith);
    } else {
        assert((bottom - top) * (right - left) == 0) by (nonlinear_arith)
            requires
                bottom == top,
        ;
    }
}

/// The light and the sites of one color, gathered over a rectangle.
#[derive(Clone, Copy)]
struct Tally {
    light: u64,
    sites: u64,
}

impl Tally {
    fn average(&self) -> (average: u8)
        requires
            self.light <= 255 * self.sites,
        ensures
            average == if self.sites == 0 {
                0
            } else {
                self.light / self.sites
            },
    {
        if self.sites == 0 {
            0
        } else {
            assert(self.light / self.sites <= 255) by (nonlinear_arith)
                requires
                    self.light <= 255 * self.sites,
                    self.sites > 0,
            ;
            (self.light / self.sites) as u8
        }
    }
}

/// Box-filter a rectangle of the mosaic: the average of each color in it, as
/// red, green and blue. Demosaic parity uses the real row and column, so mosaic
/// reconstruction stays correct for any Bayer order.
pub fn box_average(
    frame: &[u8],
    format: &FrameFormat,
    row_bytes: usize,
    order: BayerOrder,
    area: Area,
) -> (averages: (u8, u8, u8))
    requires
        row_bytes >= format.width * 10 / 8,
        frame@.len() >= row_bytes * format.height,
        area.top <= area.bottom <= format.height,
        area.left <= area.right <= format.width,
        (area.bottom - area.top) * (area.right - area.left) * 255 <= u64::MAX,
    ensures
        ({
            let m = Mosaic { frame: frame@, row_len: row_bytes as nat, order };
            &&& averages.0 == m.average(BayerChannel::Red, area)
            &&& averages.1 == m.average(BayerChannel::Green, area)
            &&& averages.2 == m.average(BayerChannel::Blue, area)
        }),
{
    let ghost m = Mosaic { frame: frame@, row_len: row_bytes as nat, order };
    let ghost (t, l, r) = (area.top as int, area.left as int, area.right as int);
    let mut red = Tally { light: 0, sites: 0 };
    let mut green = Tally { light: 0, sites: 0 };
    let mut blue = Tally { light: 0, sites: 0 };
    let mut y: usize = area.top;
    while y < area.bottom
        invariant
            m == (Mosaic { frame: frame@, row_len: row_bytes as nat, order }),
            row_bytes >= format.width * 10 / 8,
            frame@.len() >= row_bytes * format.height,
            area.top <= y <= area.bottom <= format.height,
            area.left <= area.right <= format.width,
            (area.bottom - area.top) * (area.right - area.left) * 255 <= u64::MAX,
            t == area.top && l == area.left && r == area.right,
            red.light == m.area_light(BayerChannel::Red, t, y as int, l, r),
            red.sites == m.area_sites(BayerChannel::Red, t, y as int, l, r),
            green.light == m.area_light(BayerChannel::Green, t, y as int, l, r),
            green.sites == m.area_sites(BayerChannel::Green, t, y as int, l, r),
            blue.light == m.area_light(BayerChannel::Blue, t, y as int, l, r),
            blue.sites == m.area_sites(BayerChannel::Blue, t, y as int, l, r),
        decreases area.bottom - y,
    {
        let ghost (before_red, before_green, before_blue) = (red, green, blue);
        let ghost cells = (y - t) * (r - l);
        proof {
            assert(cells + (r - l) <= (area.bottom - t) * (r - l)) by (nonlinear_arith)
                requires
                    cells == (y - t) * (r - l),
                    y < area.bottom,
                    l <= r,
            ;
            lemma_sites_bound(m, BayerChannel::Red, t, y as int, l, r);
            lemma_sites_bound(m, BayerChannel::Green, t, y as int, l, r);
            lemma_sites_bound(m, BayerChannel::Blue, t, y as int, l, r);
            lemma_light_bound(m, BayerChannel::Red, t, y as int, l, r);
            lemma_light_bound(m, BayerChannel::Green, t, y as int, l, r);
            lemma_light_bound(m, BayerChannel::Blue, t, y as int, l, r);
        }
        let mut x: usize = area.left;
        while x < area.right
            invariant
                m == (Mosaic { frame: frame@, row_len: row_bytes as nat, order }),
                row_bytes >= format.width * 10 / 8,
                frame@.len() >= row_bytes * format.height,
                y < area.bottom <= format.height,
                area.left <= x <= area.right <= format.width,
                l == area.left && r == area.right,
                0 <= cells,
                (cells + (r - l)) * 255 <= u64::MAX,
                before_red.light <= 255 * cells && before_red.sites <= cells,
                before_green.light <= 255 * cells && before_green.sites <= cells,
                before_blue.light <= 255 * cells && before_blue.sites <= cells,
                red.light == before_red.light + m.row_light(
                    BayerChannel::Red,
                    y as int,
                    l,
                    x as int,
                ),
                red.sites == before_red.sites + m.row_sites(
                    BayerChannel::Red,
                    y as int,
                    l,
                    x as int,
                ),
                green.light == before_green.light + m.row_light(
                    BayerChannel::Green,
                    y as int,
                    l,
                    x as int,
                ),
                green.sites == before_green.sites + m.row_sites(
                    BayerChannel::Green,
                    y as int,
                    l,
                    x as int,
                ),
                blue.light == before_blue.light + m.row_light(
                    BayerChannel::Blue,
                    y as int,
                    l,
                    x as int,
                ),
                blue.sites == before_blue.sites + m.row_sites(
                    BayerChannel::Blue,
                    y as int,
                    l,
                    x as int,
                ),
            decreases area.right - x,
        {
            proof {
                lemma_row_light_bound(m, BayerChannel::Red, y as int, l, x as int);
                lemma_row_light_bound(m, BayerChannel::Green, y as int, l, x as int);
                lemma_row_light_bound(m, BayerChannel::Blue, y as int, l, x as int);
            }
            let v = raw10_pixel(frame, format, row_bytes, order, y, x);
            match order.channel_at(y, x) {
                BayerChannel::Red => {
                    red.light = red.light + v as u64;
                    red.sites = red.sites + 1;
                },
                BayerChannel::Green => {
                    green.light = green.light + v as u64;
                    green.sites = green.sites + 1;
                },
                BayerChannel::Blue => {
                    blue.light = blue.light + v as u64;
                    blue.sites = blue.sites + 1;
                },
            }
            x += 1;
        }
        y += 1;
    }
    proof {
        lemma_light_bound(m, BayerChannel::Red, t, area.bottom as int, l, r);
        lemma_light_bound(m, BayerChannel::Green, t, area.bottom as int, l, r);
        lemma_light_bound(m, BayerChannel::Blue, t, area.bottom as int, l, r);
    }
    (red.average(), green.average(), blue.average())
}

/// The source columns kept by the crop: once the full source height maps to the
/// output width, they give the output's aspect ratio.
pub open spec fn kept_columns(format: FrameFormat, output: (usize, usize)) -> int {
    output.1 * format.height / output.0 as int
}

/// The crop exists and every place on it can be computed. An output without
/// pixels needs no crop.
pub open spec fn croppable(format: FrameFormat, output: (usize, usize)) -> bool {
    &&& output.0 * output.1 <= usize::MAX
    &&& format.height + 2 <= usize::MAX
    &&& format.width + 2 <= usize::MAX
    &&& output.0 * format.height <= usize::MAX
    &&& output.1 * format.height <= usize::MAX
    &&& 0 < output.0 ==> kept_columns(format, output) <= format.width && output.1 * kept_columns(
        format,
        output,
    ) <= usize::MAX
}

/// Whether a frame of this format can be cropped to `output`.
pub fn can_crop(format: &FrameFormat, output: (usize, usize)) -> (able: bool)
    ensures
        able == croppable(*format, output),
{
    if output.0.checked_mul(output.1).is_none() || output.0.checked_mul(format.height).is_none()
        || format.height > usize::MAX - 2 || format.width > usize::MAX - 2 {
        return false;
    }
    match output.1.checked_mul(format.height) {
        Some(area) => {
            if output.0 == 0 {
                return true;
            }
            let columns: usize = area / output.0;
            columns <= format.width && output.1.checked_mul(columns).is_some()
        },
        None => false,
    }
}

/// Where the `i`-th of `parts` equal parts of `len` pixels begins.
pub open spec fn part(i: int, parts: int, len: int) -> int {
    i * len / parts
}

/// The end of a span: its nominal end, at least two pixels from its start but
/// within `limit`.
pub open spec fn span_end(start: int, nominal: int, limit: int) -> int {
    let end = if nominal < start + 2 {
        start + 2
    } else {
        nominal
    };
    if end > limit {
        limit
    } else {
        end
    }
}

/// The source rectangle that maps to an output pixel. The source is rotated 90
/// degrees counter-clockwise and cropped to fill the output undistorted: output
/// x scans full source rows, output y scans a centred crop of source columns
/// (reversed, which makes the rotation counter-clockwise).
pub open spec fn region(format: FrameFormat, output: (usize, usize), dx: int, dy: int) -> Area {
    let (width, height) = (format.width as int, format.height as int);
    let kept = kept_columns(format, output);
    let crop = (width - kept) / 2;
    let top = part(dx, output.0 as int, height);
    let first = crop + part(dy, output.1 as int, kept);
    Area {
        top: top as usize,
        bottom: span_end(top, part(dx + 1, output.0 as int, height), height) as usize,
        left: (width - span_end(first, crop + part(dy + 1, output.1 as int, kept), width)) as usize,
        right: (width - first) as usize,
    }
}

/// A part begins within its whole.
pub proof fn lemma_part(i: int, parts: int, len: int)
    requires
        0 <= i <= parts,
        0 < parts,
        0 <= len,
    ensures
        0 <= i * len <= parts * len,
        0 <= part(i, parts, len) <= len,
{
    assert(0 <= i * len <= parts * len) by (nonlinear_arith)
        requires
            0 <= i <= parts,
            0 <= len,
    ;
    assert(0 <= i * len / parts <= len) by (nonlinear_arith)
        requires
            0 <= i * len <= parts * len,
            0 < parts,
    ;
}

/// The rectangle of every output pixel lies within the source.
pub proof fn law_region_is_in_source(
    format: FrameFormat,
    output: (usize, usize),
    dx: int,
    dy: int,
)
    requires
        croppable(format, output),
        0 <= dx < output.0,
        0 <= dy < output.1,
    ensures
        ({
            let area = region(format, output, dx, dy);
            &&& area.top <= area.bottom <= format.height
            &&& area.left <= area.right <= format.width
        }),
{
    lemma_region(format, output, dx, dy);
}

proof fn lemma_region(format: FrameFormat, output: (usize, usize), dx: int, dy: int)
    requires
        croppable(format, output),
        0 <= dx < output.0,
        0 <= dy < output.1,
    ensures
        ({
            let area = region(format, output, dx, dy);
            let kept = kept_columns(format, output);
            let crop = (format.width - kept) / 2;
            let first = crop + part(dy, output.1 as int, kept);
            &&& 0 <= kept
            &&& 0 <= crop
            &&& 0 <= part(dx, output.0 as int, format.height as int) <= format.height
            &&& 0 <= first <= format.width
            &&& area.top <= area.bottom <= format.height
            &&& area.left <= area.right <= format.width
            &&& area.top == part(dx, output.0 as int, format.height as int)
            &&& area.right == format.width - first
        }),
{
    let kept = kept_columns(format, output);
    assert(0 <= output.1 * format.height) by (nonlinear_arith);
    assert(0 <= kept) by (nonlinear_arith)
        requires
            kept == (output.1 * format.height) / (output.0 as int),
            0 <= output.1 * format.height,
            0 < output.0,
    ;
    lemma_part(dx, output.0 as int, format.height as int);
    lemma_part(dx + 1, output.0 as int, format.height as int);
    lemma_part(dy, output.1 as int, kept);
    lemma_part(dy + 1, output.1 as int, kept);
}

/// Neighbouring output pixels leave no source pixel of the crop out: rows from
/// the first to the last, and columns across the kept span.
pub proof fn law_regions_leave_no_gap(format: FrameFormat, output: (usize, usize), dx: int, dy: int)
    requires
        croppable(format, output),
        0 <= dx < output.0,
        0 <= dy < output.1,
    ensures
        dx == 0 ==> region(format, output, dx, dy).top == 0,
        dx + 1 < output.0 ==> region(format, output, dx, dy).bottom >= region(
            format,
            output,
            dx + 1,
            dy,
        ).top,
        dx + 1 == output.0 ==> region(format, output, dx, dy).bottom == format.height,
        dy + 1 < output.1 ==> region(format, output, dx, dy).left <= region(
            format,
            output,
            dx,
            dy + 1,
        ).right,
{
    lemma_region(format, output, dx, dy);
    let kept = kept_columns(format, output);
    lemma_part(dx + 1, output.0 as int, format.height as int);
    lemma_part(dy + 1, output.1 as int, kept);
    if dx == 0 {
        assert(part(0, output.0 as int, format.height as int) == 0) by (nonlinear_arith)
            requires
                0 < output.0,
        ;
    }
    if dx + 1 < output.0 {
        lemma_region(format, output, dx + 1, dy);
    } else {
        assert(part(output.0 as int, output.0 as int, format.height as int) == format.height)
            by (nonlinear_arith)
            requires
                0 < output.0,
        ;
    }
    if dy + 1 < output.1 {
        lemma_region(format, output, dx, dy + 1);
    }
}

/// Box-filter the source rectangle that maps to output pixel (`dx`, `dy`).
pub fn sample_bayer_region(
    frame: &[u8],
    format: &FrameFormat,
    row_bytes: usize,
    order: BayerOrder,
    dx: usize,
    dy: usize,
    output: (usize, usize),
) -> (averages: (u8, u8, u8))
    requires
        row_bytes >= format.width * 10 / 8,
        frame@.len() >= row_bytes * format.height,
        format.width * format.height * 255 <= u64::MAX,
        croppable(*format, output),
        dx < output.0,
        dy < output.1,
    ensures
        ({
            let m = Mosaic { frame: frame@, row_len: row_bytes as nat, order };
            let area = region(*format, output, dx as int, dy as int);
            &&& averages.0 == m.average(BayerChannel::Red, area)
            &&& averages.1 == m.average(BayerChannel::Green, area)
            &&& averages.2 == m.average(BayerChannel::Blue, area)
        }),
{
    let (out_w, out_h) = output;
    let (width, height) = (format.width, format.height);
    proof {
        lemma_region(*format, output, dx as int, dy as int);
        let kept = kept_columns(*format, output);
        lemma_part(dx as int, out_w as int, height as int);
        lemma_part(dx + 1, out_w as int, height as int);
        lemma_part(dy as int, out_h as int, kept);
        lemma_part(dy + 1, out_h as int, kept);
    }
    let kept: usize = out_h * height / out_w;
    let crop: usize = (width - kept) / 2;

    let top: usize = dx * height / out_w;
    let row_end: usize = (dx + 1) * height / out_w;
    let bottom = end_of_span(top, row_end, height);

    let first: usize = crop + dy * kept / out_h;
    let column_end: usize = crop + (dy + 1) * kept / out_h;
    let last = end_of_span(first, column_end, width);

    let area = Area { top, bottom, left: width - last, right: width - first };
    proof {
        let region = region(*format, output, dx as int, dy as int);
        assert(area == region);
        assert((area.bottom - area.top) * (area.right - area.left) <= height * width)
            by (nonlinear_arith)
            requires
                0 <= area.bottom - area.top <= height,
                0 <= area.right - area.left <= width,
        ;
        assert(height * width == width * height) by (nonlinear_arith);
    }
    box_average(frame, format, row_bytes, order, area)
}

/// The end of a span of at least two pixels that stays within `limit`.
pub fn end_of_span(start: usize, nominal: usize, limit: usize) -> (end: usize)
    requires
        start <= limit,
        start + 2 <= usize::MAX,
    ensures
        end == span_end(start as int, nominal as int, limit as int),
{
    let end: usize = if nominal < start + 2 {
        start + 2
    } else {
        nominal
    };
    if end > limit {
        limit
    } else {
        end
    }
}

/// Per-channel tone curves: what an average sample level (0 to 255) becomes on
/// the display after black-level subtraction, white balance and gamma.
#[derive(Clone, Copy, Debug)]
pub struct ToneCurves {
    /// The curve of the red channel.
    pub red: [u8; 256],
    /// The curve of the green channel.
    pub green: [u8; 256],
    /// The curve of the blue channel.
    pub blue: [u8; 256],
}

/// The color of an output pixel: the averages of the source rectangle behind
/// it, each through its tone curve.
pub open spec fn developed(m: Mosaic, curves: ToneCurves, area: Area) -> RgbPixel {
    RgbPixel {
        red: curves.red[m.average(BayerChannel::Red, area) as int],
        green: curves.green[m.average(BayerChannel::Green, area) as int],
        blue: curves.blue[m.average(BayerChannel::Blue, area) as int],
    }
}

/// Demosaic, color-correct and rotate-crop the raw Bayer capture buffer into an
/// [`Image`] at the requested output size. Sleeps every [`ROWS_PER_NAP`] rows,
/// so that a multi-megapixel frame does not starve the scheduler.
///
/// [`ROWS_PER_NAP`]: crate::pacing::ROWS_PER_NAP
pub fn build_image<S: Sleeper>(
    frame: &[u8],
    format: &FrameFormat,
    order: BayerOrder,
    output: (usize, usize),
    curves: &ToneCurves,
    sleeper: &mut S,
) -> (image: Image)
    requires
        format.pixel is Raw10,
        format.countable(),
        frame@.len() >= format.frame_len(),
        format.width * format.height * 255 <= u64::MAX,
        croppable(*format, output),
    ensures
        final(sleeper).sleeps() == old(sleeper).sleeps() + pacing::naps(output.1 as nat),
        image@ == image::drawn(
            output.0 as nat,
            output.1 as nat,
            |dx: int, dy: int|
                developed(
                    Mosaic { frame: frame@, row_len: format.row_len(), order },
                    *curves,
                    region(*format, output, dx, dy),
                ),
        ),
{
    let (out_w, out_h) = output;
    let row_bytes = format.row_bytes();
    let ghost m = Mosaic { frame: frame@, row_len: format.row_len(), order };
    let ghost color = |dx: int, dy: int|
        developed(m, *curves, region(*format, output, dx, dy));
    let mut pixels: Vec<RgbPixel> = Vec::new();
    let mut dy: usize = 0;
    let ghost slept = sleeper.sleeps();
    assert(0 * out_w == 0);
    assert(slept + pacing::naps(0) == slept);
    while dy < out_h
        invariant
            slept == old(sleeper).sleeps(),
            sleeper.sleeps() == slept + pacing::naps(dy as nat),
            output == (out_w, out_h),
            dy <= out_h,
            out_w * out_h <= usize::MAX,
            row_bytes == format.width * 10 / 8,
            frame@.len() >= row_bytes * format.height,
            format.width * format.height * 255 <= u64::MAX,
            croppable(*format, output),
            m == (Mosaic { frame: frame@, row_len: row_bytes as nat, order }),
            color == |dx: int, dy: int|
                developed(m, *curves, region(*format, output, dx, dy)),
            pixels@.len() == dy * out_w,
            forall|i: int|
                0 <= i < pixels@.len() ==> pixels@[i] == color(
                    i % out_w as int,
                    i / out_w as int,
                ),
        decreases out_h - dy,
    {
        pacing::nap_before_row(dy, sleeper);
        proof {
            pacing::lemma_naps(slept, dy as nat);
        }
        let mut dx: usize = 0;
        while dx < out_w
            invariant
                output == (out_w, out_h),
                dx <= out_w,
                dy < out_h,
                out_w * out_h <= usize::MAX,
                row_bytes == format.width * 10 / 8,
                frame@.len() >= row_bytes * format.height,
                format.width * format.height * 255 <= u64::MAX,
                croppable(*format, output),
                m == (Mosaic { frame: frame@, row_len: row_bytes as nat, order }),
                color == |dx: int, dy: int|
                    developed(m, *curves, region(*format, output, dx, dy)),
                pixels@.len() == dy * out_w + dx,
                forall|i: int|
                    0 <= i < pixels@.len() ==> pixels@[i] == color(
                        i % out_w as int,
                        i / out_w as int,
                    ),
            decreases out_w - dx,
        {
            let (red, green, blue) = sample_bayer_region(
                frame,
                format,
                row_bytes,
                order,
                dx,
                dy,
                output,
            );
            proof {
                image::lemma_index(out_w as nat, out_h as nat, dx as int, dy as int);
            }
            pixels.push(
                RgbPixel::new(
                    curves.red[red as usize],
                    curves.green[green as usize],
                    curves.blue[blue as usize],
                ),
            );
            dx += 1;
        }
        assert(dy * out_w + out_w == (dy + 1) * out_w) by (nonlinear_arith);
        dy += 1;
    }
    assert(out_h * out_w == out_w * out_h) by (nonlinear_arith);
    assert(pixels@ == image::raster(out_w as nat, out_h as nat, color));
    Image::from_pixels(out_w, out_h, pixels)
}

/// The light of a color in one pixel: its byte in the frame if it is a site of
/// that color. Four pixels take up five bytes.
pub proof fn law_a_pixel_is_its_byte(m: Mosaic, color: BayerChannel, y: int, x: int)
    requires
        0 <= y,
        0 <= x,
    ensures
        m.sample(y, x) == m.frame[y * m.row_len + x / 4 * 5 + x % 4],
        m.area_light(color, y, y + 1, x, x + 1) == if m.order.channel(y, x) == color {
            m.frame[y * m.row_len + x / 4 * 5 + x % 4] as nat
        } else {
            0
        },
        m.area_sites(color, y, y + 1, x, x + 1) == if m.order.channel(y, x) == color {
            1nat
        } else {
            0
        },
{
    reveal_with_fuel(Mosaic::area_light, 2);
    reveal_with_fuel(Mosaic::area_sites, 2);
    reveal_with_fuel(Mosaic::row_light, 2);
    reveal_with_fuel(Mosaic::row_sites, 2);
}

proof fn lemma_row_split(m: Mosaic, color: BayerChannel, y: int, left: int, mid: int, right: int)
    requires
        left <= mid <= right,
    ensures
        m.row_light(color, y, left, right) == m.row_light(color, y, left, mid) + m.row_light(
            color,
            y,
            mid,
            right,
        ),
        m.row_sites(color, y, left, right) == m.row_sites(color, y, left, mid) + m.row_sites(
            color,
            y,
            mid,
            right,
        ),
    decreases right - mid,
{
    if mid < right {
        lemma_row_split(m, color, y, left, mid, right - 1);
    }
}

/// Cut in two between rows or between columns, a rectangle has the light and
/// the sites of its parts. One without rows or columns has none.
pub proof fn law_light_adds_up(
    m: Mosaic,
    color: BayerChannel,
    top: int,
    bottom: int,
    left: int,
    right: int,
    row: int,
    column: int,
)
    requires
        top <= row <= bottom,
        left <= column <= right,
    ensures
        m.area_light(color, top, bottom, left, right) == m.area_light(color, top, row, left, right)
            + m.area_light(color, row, bottom, left, right),
        m.area_light(color, top, bottom, left, right) == m.area_light(
            color,
            top,
            bottom,
            left,
            column,
        ) + m.area_light(color, top, bottom, column, right),
        m.area_sites(color, top, bottom, left, right) == m.area_sites(color, top, row, left, right)
            + m.area_sites(color, row, bottom, left, right),
        m.area_sites(color, top, bottom, left, right) == m.area_sites(
            color,
            top,
            bottom,
            left,
            column,
        ) + m.area_sites(color, top, bottom, column, right),
        top == bottom || left == right ==> m.area_light(color, top, bottom, left, right) == 0
            && m.area_sites(color, top, bottom, left, right) == 0,
    decreases bottom - top,
{
    if top < bottom {
        let last = bottom - 1;
        law_light_adds_up(
            m,
            color,
            top,
            last,
            left,
            right,
            if row < bottom {
                row
            } else {
                last
            },
            column,
        );
        lemma_row_split(m, color, last, left, column, right);
        reveal_with_fuel(Mosaic::area_light, 2);
        reveal_with_fuel(Mosaic::area_sites, 2);
    }
}

/// The average is the mean of the color's sites, rounded down.
pub proof fn law_average_is_the_mean(m: Mosaic, color: BayerChannel, area: Area)
    ensures
        ({
            let (top, bottom) = (area.top as int, area.bottom as int);
            let (left, right) = (area.left as int, area.right as int);
            let light = m.area_light(color, top, bottom, left, right);
            let sites = m.area_sites(color, top, bottom, left, right);
            let average = m.average(color, area);
            &&& sites == 0 ==> average == 0
            &&& sites > 0 ==> average * sites <= light < (average + 1) * sites
        }),
{
    let light = m.area_light(
        color,
        area.top as int,
        area.bottom as int,
        area.left as int,
        area.right as int,
    );
    let sites = m.area_sites(
        color,
        area.top as int,
        area.bottom as int,
        area.left as int,
        area.right as int,
    );
    if sites > 0 {
        assert((light / sites) * sites <= light < (light / sites + 1) * sites)
            by (nonlinear_arith)
            requires
                sites > 0,
        ;
    }
}

/// Where a part begins, the parts ahead of it end.
pub proof fn law_parts_are_equal_shares(i: int, parts: int, len: int)
    requires
        0 <= i,
        0 < parts,
        0 <= len,
    ensures
        part(i, parts, len) * parts <= i * len < (part(i, parts, len) + 1) * parts,
{
    let n = i * len;
    assert((n / parts) * parts <= n < (n / parts + 1) * parts) by (nonlinear_arith)
        requires
            parts > 0,
    ;
}

/// What lies behind an output pixel. With `kept` columns kept of the source,
/// the most that do not exceed the output's aspect ratio, and half of the
/// others cropped off on the right, the pixel's column gives the rows by its
/// share of the full height, from the top down, and its row gives the columns
/// by its share of those kept, from the right to the left. Two rows and columns
/// are taken at least, as far as there are any. Returns the columns kept and
/// the columns cropped off on the right.
pub proof fn law_region_is_the_turned_share(
    format: FrameFormat,
    output: (usize, usize),
    dx: int,
    dy: int,
) -> (crop: (int, int))
    requires
        croppable(format, output),
        0 <= dx < output.0,
        0 <= dy < output.1,
    ensures
        ({
            let (kept, cropped) = crop;
            let (width, height) = (format.width as int, format.height as int);
            let area = region(format, output, dx, dy);
            let first = width - cropped - area.right;
            let last = width - cropped - area.left;
            &&& 0 <= kept <= width
            &&& kept * output.0 <= output.1 * height < (kept + 1) * output.0
            &&& 2 * cropped <= width - kept <= 2 * cropped + 1
            &&& area.top * output.0 <= dx * height < (area.top + 1) * output.0
            &&& area.bottom * output.0 <= (dx + 1) * height || area.bottom <= area.top + 2
            &&& (area.bottom + 1) * output.0 > (dx + 1) * height
            &&& area.bottom >= area.top + 2 || area.bottom == height
            &&& area.bottom <= height
            &&& first * output.1 <= dy * kept < (first + 1) * output.1
            &&& last * output.1 <= (dy + 1) * kept || last <= first + 2
            &&& (last + 1) * output.1 > (dy + 1) * kept
            &&& last >= first + 2 || area.left == 0
        }),
{
    let (out_w, out_h) = (output.0 as int, output.1 as int);
    let (width, height) = (format.width as int, format.height as int);
    let kept = kept_columns(format, output);
    let cropped = (width - kept) / 2;
    lemma_region(format, output, dx, dy);
    lemma_part(dx + 1, out_w, height);
    lemma_part(dy + 1, out_h, kept);
    law_parts_are_equal_shares(dx, out_w, height);
    law_parts_are_equal_shares(dx + 1, out_w, height);
    law_parts_are_equal_shares(dy, out_h, kept);
    law_parts_are_equal_shares(dy + 1, out_h, kept);
    let n = output.1 * height;
    assert((n / out_w) * out_w <= n < (n / out_w + 1) * out_w) by (nonlinear_arith)
        requires
            out_w > 0,
    ;
    let area = region(format, output, dx, dy);
    let row_end = part(dx + 1, out_w, height);
    lemma_span(area.top as int, row_end, area.bottom as int, height, out_w, (dx + 1) * height);
    let column_end = part(dy + 1, out_h, kept);
    let (first, last) = (width - cropped - area.right, width - cropped - area.left);
    lemma_span(first, column_end, last, width - cropped, out_h, (dy + 1) * kept);
    (kept, cropped)
}

/// A span ends at its nominal end, unless that is too close.
pub proof fn lemma_span(start: int, nominal: int, end: int, limit: int, parts: int, reached: int)
    requires
        parts > 0,
        nominal <= limit,
        end == span_end(start, nominal, limit),
        nominal * parts <= reached < (nominal + 1) * parts,
    ensures
        end * parts <= reached || end == start + 2 || end == limit && end < start + 2,
        (end + 1) * parts > reached,
        end >= start + 2 || end == limit,
{
    if end != nominal {
        assert((end + 1) * parts >= (nominal + 1) * parts) by (nonlinear_arith)
            requires
                end >= nominal,
                parts > 0,
        ;
    }
}

/// Every channel of a pixel of the picture is the average of its own color
/// behind the pixel, through the channel's own curve.
pub proof fn law_channels_follow_their_curves(
    m: Mosaic,
    curves: ToneCurves,
    format: FrameFormat,
    output: (usize, usize),
    dx: int,
    dy: int,
)
    requires
        0 <= dx < output.0,
        0 <= dy < output.1,
    ensures
        ({
            let pixel = image::drawn(
                output.0 as nat,
                output.1 as nat,
                |x: int, y: int| developed(m, curves, region(format, output, x, y)),
            ).pixels[dy * output.0 + dx];
            let area = region(format, output, dx, dy);
            &&& pixel.red == curves.red[m.average(BayerChannel::Red, area) as int]
            &&& pixel.green == curves.green[m.average(BayerChannel::Green, area) as int]
            &&& pixel.blue == curves.blue[m.average(BayerChannel::Blue, area) as int]
        }),
{
    image::lemma_index(output.0 as nat, output.1 as nat, dx, dy);
}

/// Every frame whose sides fit into 16 bits can be cropped to every picture
/// whose sides do, if the turned picture is no wider for its height than the
/// frame. A picture without columns needs no crop.
pub proof fn law_ordinary_sizes_are_cropped(format: FrameFormat, output: (usize, usize))
    requires
        format.width < 0xFFFF,
        format.height < 0xFFFF,
        output.0 <= 0xFFFF,
        output.1 <= 0xFFFF,
    ensures
        output.0 == 0 ==> croppable(format, output),
        output.0 > 0 ==> (croppable(format, output) <==> output.1 * format.height < output.0 * (
        format.width + 1)),
{
    let (w, h) = (format.width as int, format.height as int);
    let (a, b) = (output.0 as int, output.1 as int);
    assert(a * b <= 0xFFFF_FFFF && a * h <= 0xFFFF_FFFF && b * h <= 0xFFFF_FFFF)
        by (nonlinear_arith)
        requires
            0 <= a <= 0xFFFF,
            0 <= b <= 0xFFFF,
            0 <= h <= 0xFFFF,
    ;
    if a > 0 {
        let kept = kept_columns(format, output);
        assert(kept <= w <==> b * h < a * (w + 1)) by (nonlinear_arith)
            requires
                0 < a,
                kept == b * h / a,
        ;
        assert(0 <= kept) by (nonlinear_arith)
            requires
                0 < a,
                0 <= b,
                0 <= h,
                kept == b * h / a,
        ;
        if kept <= w {
            assert(b * kept <= 0xFFFF_FFFF) by (nonlinear_arith)
                requires
                    0 <= b <= 0xFFFF,
                    0 <= kept <= 0xFFFF,
            ;
        }
    }
}

} // verus!
