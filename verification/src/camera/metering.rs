//! Metering of a raw capture buffer for auto-exposure.
//!
//! Samples the green channel (the luma proxy in a Bayer mosaic) on a coarse
//! grid. What counts is a high percentile rather than the mean: in orbit the
//! frame is often bimodal (bright Earth, black space, specular glint), and the
//! percentile tracks "how bright are the bright parts". The share of samples
//! near saturation is the hard guard on top of it.

use vstd::prelude::*;

use super::format::{BayerOrder, FrameFormat};
use super::raw10;
use super::raw10::Mosaic;

verus! {

/// Samples at or above this level count as near saturation.
pub const CLIP_LEVEL: u8 = 250;

/// The percentage of samples that the metered level is not exceeded by.
pub const PERCENTILE: u64 = 95;

/// The lowest metered level that is bright enough.
pub const LUMA_LOW: u8 = 205;

/// The highest metered level that is not too bright.
pub const LUMA_HIGH: u8 = 248;

/// One in so many samples may be near saturation.
pub const CLIP_SHARE: u64 = 50;

/// The distance between metered pixels along an axis: even, so that samples
/// always land on the same parity, and about a 64th of the axis.
pub open spec fn grid_step(len: int) -> int {
    let step = if len / 64 < 2 {
        2
    } else {
        len / 64
    };
    step - step % 2
}

/// The metered samples of a row, from column `x` on.
pub open spec fn row_samples(m: Mosaic, width: int, y: int, x: int) -> Seq<u8>
    decreases
            (if x < width {
                width - x
            } else {
                0
            }),
{
    if x >= width || grid_step(width) <= 0 {
        seq![]
    } else {
        seq![m.sample(y, x)] + row_samples(m, width, y, x + grid_step(width))
    }
}

/// The metered samples of a frame, from row `y` on.
pub open spec fn grid_samples(m: Mosaic, width: int, height: int, parity: int, y: int) -> Seq<u8>
    decreases
            (if y < height {
                height - y
            } else {
                0
            }),
{
    if y >= height || grid_step(height) <= 0 {
        seq![]
    } else {
        row_samples(m, width, y, parity) + grid_samples(
            m,
            width,
            height,
            parity,
            y + grid_step(height),
        )
    }
}

/// The column parity of the green sites on even rows.
pub open spec fn green_parity(order: BayerOrder) -> int {
    if order.channel(0, 0) is Green {
        0
    } else {
        1
    }
}

/// The metered samples of a whole frame; none if the frame is too short.
pub open spec fn metered(frame: Seq<u8>, format: FrameFormat, order: BayerOrder) -> Seq<u8> {
    if frame.len() < format.frame_len() {
        seq![]
    } else {
        grid_samples(
            Mosaic { frame, row_len: format.row_len(), order },
            format.width as int,
            format.height as int,
            green_parity(order),
            0,
        )
    }
}

/// How many samples have exactly this level.
pub open spec fn count_at(samples: Seq<u8>, level: int) -> nat
    decreases samples.len(),
{
    if samples.len() == 0 {
        0
    } else {
        count_at(samples.drop_last(), level) + if samples.last() == level {
            1nat
        } else {
            0nat
        }
    }
}

/// How many samples lie between two levels, the lower one included.
pub open spec fn count_in(samples: Seq<u8>, low: int, high: int) -> nat
    decreases samples.len(),
{
    if samples.len() == 0 {
        0
    } else {
        count_in(samples.drop_last(), low, high) + if low <= samples.last() < high {
            1nat
        } else {
            0nat
        }
    }
}

/// A range of levels that grows by one level gains the samples at that level.
proof fn lemma_count_grows(samples: Seq<u8>, low: int, high: int)
    requires
        low <= high,
    ensures
        count_in(samples, low, high + 1) == count_in(samples, low, high) + count_at(
            samples,
            high,
        ),
    decreases samples.len(),
{
    if samples.len() > 0 {
        lemma_count_grows(samples.drop_last(), low, high);
    }
}

proof fn lemma_count_bounds(samples: Seq<u8>, low: int, high: int)
    ensures
        count_in(samples, low, high) <= samples.len(),
        count_at(samples, high) <= samples.len(),
        low >= high ==> count_in(samples, low, high) == 0,
        low <= 0 && 256 <= high ==> count_in(samples, low, high) == samples.len(),
    decreases samples.len(),
{
    if samples.len() > 0 {
        lemma_count_bounds(samples.drop_last(), low, high);
    }
}

/// Appending a sample adds it to the count of its level.
proof fn lemma_count_push(samples: Seq<u8>, sample: u8, level: int)
    ensures
        count_at(samples.push(sample), level) == count_at(samples, level) + if sample == level {
            1nat
        } else {
            0nat
        },
{
    assert(samples.push(sample).drop_last() == samples);
}

/// A wider range of levels holds at least as many samples.
proof fn lemma_count_monotonic(samples: Seq<u8>, low: int, high: int, higher: int)
    requires
        high <= higher,
    ensures
        count_in(samples, low, high) <= count_in(samples, low, higher),
    decreases samples.len(),
{
    if samples.len() > 0 {
        lemma_count_monotonic(samples.drop_last(), low, high, higher);
    }
}

/// The smallest level that at least `target` samples do not exceed, or the
/// highest level if there are fewer samples than that.
pub open spec fn is_percentile(samples: Seq<u8>, target: int, level: u8) -> bool {
    &&& count_in(samples, 0, level + 1) >= target || level == 255
    &&& forall|lower: int|
        0 <= lower < level ==> #[trigger] count_in(samples, 0, lower + 1) < target
}

/// How many samples the metered level must not be exceeded by: the fewest that
/// make up the percentage.
pub open spec fn percentile_count(samples: Seq<u8>) -> int {
    (samples.len() * PERCENTILE + 99) / 100
}

/// The exposure is right: few enough samples are near saturation, and the
/// metered level lies in the band that is bright enough but not too bright.
pub open spec fn converged(samples: Seq<u8>) -> bool {
    &&& CLIP_SHARE * count_in(samples, CLIP_LEVEL as int, 256) <= samples.len()
    &&& count_in(samples, 0, LUMA_LOW as int) < percentile_count(samples)
    &&& count_in(samples, 0, LUMA_HIGH + 1) >= percentile_count(samples)
}

/// How the metered samples of a frame spread over the 256 levels.
pub struct Histogram {
    levels: Vec<u64>,
    count: u64,
    samples: Ghost<Seq<u8>>,
}

impl View for Histogram {
    type V = Seq<u8>;

    closed spec fn view(&self) -> Seq<u8> {
        self.samples@
    }
}

impl Histogram {
    /// The bins count the samples.
    pub closed spec fn wf(self) -> bool {
        &&& self.levels@.len() == 256
        &&& self.count == self@.len()
        &&& forall|level: int|
            0 <= level < 256 ==> #[trigger] self.levels@[level] == count_at(self@, level)
    }

    fn new() -> (histogram: Self)
        ensures
            histogram.wf(),
            histogram@ == Seq::<u8>::empty(),
    {
        let mut levels: Vec<u64> = Vec::new();
        let mut i: usize = 0;
        while i < 256
            invariant
                i <= 256,
                levels@.len() == i,
                forall|k: int| 0 <= k < i ==> #[trigger] levels@[k] == 0,
            decreases 256 - i,
        {
            levels.push(0);
            i += 1;
        }
        Histogram { levels, count: 0, samples: Ghost(Seq::empty()) }
    }

    fn add_sample(&mut self, sample: u8)
        requires
            old(self).wf(),
            old(self)@.len() < u64::MAX,
        ensures
            final(self).wf(),
            final(self)@ == old(self)@.push(sample),
    {
        let level = sample as usize;
        proof {
            lemma_count_bounds(self@, 0, level as int);
            assert forall|k: int| count_at(old(self)@.push(sample), k) == count_at(
                old(self)@,
                k,
            ) + if sample == k {
                1nat
            } else {
                0nat
            } by {
                lemma_count_push(old(self)@, sample, k);
            }
        }
        let n: u64 = self.levels[level] + 1;
        self.levels.set(level, n);
        self.count = self.count + 1;
        self.samples = Ghost(self.samples@.push(sample));
    }

    /// How many samples there are.
    pub fn count(&self) -> (count: u64)
        requires
            self.wf(),
        ensures
            count == self@.len(),
    {
        self.count
    }

    /// The smallest level that at least `target` samples do not exceed, or the
    /// highest level if there are fewer samples than that.
    pub fn percentile(&self, target: u64) -> (level: u8)
        requires
            self.wf(),
        ensures
            is_percentile(self@, target as int, level),
    {
        let mut cumulative: u64 = 0;
        let mut level: usize = 0;
        proof {
            lemma_count_bounds(self@, 0, 0);
        }
        while level < 256
            invariant
                self.wf(),
                level <= 256,
                cumulative == count_in(self@, 0, level as int),
                forall|lower: int|
                    0 <= lower < level ==> #[trigger] count_in(self@, 0, lower + 1) < target,
            decreases 256 - level,
        {
            proof {
                lemma_count_grows(self@, 0, level as int);
                lemma_count_bounds(self@, 0, level + 1);
            }
            cumulative = cumulative + self.levels[level];
            if cumulative >= target {
                return level as u8;
            }
            level += 1;
        }
        255
    }

    /// How many samples are near saturation.
    pub fn clipped(&self) -> (clipped: u64)
        requires
            self.wf(),
        ensures
            clipped == count_in(self@, CLIP_LEVEL as int, 256),
    {
        let mut clipped: u64 = 0;
        let mut level: usize = CLIP_LEVEL as usize;
        proof {
            lemma_count_bounds(self@, CLIP_LEVEL as int, CLIP_LEVEL as int);
        }
        while level < 256
            invariant
                self.wf(),
                CLIP_LEVEL <= level <= 256,
                clipped == count_in(self@, CLIP_LEVEL as int, level as int),
            decreases 256 - level,
        {
            proof {
                lemma_count_grows(self@, CLIP_LEVEL as int, level as int);
                lemma_count_bounds(self@, CLIP_LEVEL as int, level + 1);
            }
            clipped = clipped + self.levels[level];
            level += 1;
        }
        clipped
    }
}

impl Histogram {
    /// The metered level, that is how bright the bright parts are: the smallest
    /// level whose cumulative count reaches the percentage of the samples.
    pub fn p_high(&self) -> (level: u8)
        requires
            self.wf(),
        ensures
            is_percentile(self@, percentile_count(self@), level),
    {
        let target: u64 = self.count / 100 * PERCENTILE + (self.count % 100 * PERCENTILE + 99)
            / 100;
        assert(target == (self.count * PERCENTILE + 99) / 100) by {
            let (q, r) = (self.count as int / 100, self.count as int % 100);
            assert(self.count == 100 * q + r);
            assert((100 * (95 * q) + 95 * r + 99) / 100 == 95 * q + (95 * r + 99) / 100);
        }
        self.percentile(target)
    }

    /// Whether the exposure is right.
    pub fn is_converged(&self) -> (right: bool)
        requires
            self.wf(),
        ensures
            right == converged(self@),
    {
        let level: u8 = self.p_high();
        let clipped: u64 = self.clipped();
        proof {
            let target = percentile_count(self@);
            if level >= LUMA_LOW {
                assert(count_in(self@, 0, (LUMA_LOW - 1) + 1) < target);
            } else {
                lemma_count_monotonic(self@, 0, level + 1, LUMA_LOW as int);
            }
            if level <= LUMA_HIGH {
                lemma_count_monotonic(self@, 0, level + 1, LUMA_HIGH + 1);
            } else {
                assert(count_in(self@, 0, LUMA_HIGH + 1) < target);
            }
        }
        clipped <= self.count / CLIP_SHARE && LUMA_LOW <= level && level <= LUMA_HIGH
    }
}

/// If no more samples are asked for than there are, that many do not exceed the
/// percentile level.
pub proof fn law_percentile_is_reached(samples: Seq<u8>, target: nat, level: u8)
    requires
        target <= samples.len(),
        is_percentile(samples, target as int, level),
    ensures
        count_in(samples, 0, level + 1) >= target,
{
    lemma_count_bounds(samples, 0, 256);
}

/// The metered level is the smallest whose cumulative count reaches the
/// percentage of the samples.
pub proof fn law_metered_level_reaches_the_share(samples: Seq<u8>, level: u8)
    requires
        is_percentile(samples, percentile_count(samples), level),
    ensures
        100 * count_in(samples, 0, level + 1) >= PERCENTILE * samples.len(),
        forall|lower: int|
            0 <= lower < level ==> 100 * #[trigger] count_in(samples, 0, lower + 1) < PERCENTILE
                * samples.len(),
{
    lemma_count_bounds(samples, 0, 256);
}

fn step_along(len: usize) -> (step: usize)
    ensures
        step == grid_step(len as int),
        step >= 2,
        len / 64 < 2 ==> step == 2,
        len / 64 >= 2 ==> step <= len / 64,
{
    let step: usize = if len / 64 < 2 {
        2
    } else {
        len / 64
    };
    step - step % 2
}

/// Meter the raw capture buffer: how the green samples on a coarse grid spread
/// over the levels. A frame that is too short has no samples.
pub fn meter(frame: &[u8], format: &FrameFormat, order: BayerOrder) -> (histogram: Histogram)
    requires
        format.pixel is Raw10,
        format.countable(),
    ensures
        histogram.wf(),
        histogram@ == metered(frame@, *format, order),
{
    let mut histogram = Histogram::new();
    if frame.len() < format.bytes_per_frame() {
        return histogram;
    }
    let (width, height) = (format.width, format.height);
    let row_bytes = format.row_bytes();
    let ystep = step_along(height);
    let xstep = step_along(width);
    let parity = order.green_col_parity_on_even_rows();
    let ghost m = Mosaic { frame: frame@, row_len: format.row_len(), order };
    let ghost all = metered(frame@, *format, order);
    assert(order.channel(0, 0) is Green <==> 0int % 2 == parity);
    assert(parity == green_parity(order));
    let mut y: usize = 0;
    assert(Seq::<u8>::empty() + all == all);
    while y < height
        invariant
            row_bytes == width * 10 / 8,
            frame@.len() >= row_bytes * height,
            width == format.width && height == format.height,
            m == (Mosaic { frame: frame@, row_len: row_bytes as nat, order }),
            ystep == grid_step(height as int),
            xstep == grid_step(width as int),
            2 <= ystep,
            2 <= xstep,
            xstep == 2 || xstep <= width / 64,
            width * 10 <= usize::MAX,
            parity < 2,
            y <= height,
            histogram.wf(),
            histogram@.len() <= y * width,
            histogram@ + grid_samples(m, width as int, height as int, parity as int, y as int)
                == all,
        decreases height - y,
    {
        let ghost rest = grid_samples(
            m,
            width as int,
            height as int,
            parity as int,
            y + ystep,
        );
        let ghost base = y * width;
        assert(base + width <= height * row_bytes) by (nonlinear_arith)
            requires
                base == y * width,
                y + 1 <= height,
                0 <= width <= row_bytes,
        ;
        assert(height * row_bytes == row_bytes * height) by (nonlinear_arith);
        assert(base + width <= frame.len());
        assert(histogram@ + (row_samples(m, width as int, y as int, parity as int) + rest)
            == histogram@ + row_samples(m, width as int, y as int, parity as int) + rest);
        let mut x: usize = parity;
        while x < width
            invariant
                row_bytes == width * 10 / 8,
                frame@.len() >= row_bytes * height,
                width == format.width && height == format.height,
                m == (Mosaic { frame: frame@, row_len: row_bytes as nat, order }),
                xstep == grid_step(width as int),
                2 <= xstep,
                xstep == 2 || xstep <= width / 64,
                width * 10 <= usize::MAX,
                y < height,
                base + width <= usize::MAX,
                histogram.wf(),
                histogram@.len() <= base + x,
                histogram@.len() <= base + width,
                histogram@ + row_samples(m, width as int, y as int, x as int) + rest == all,
            decreases
                    (if x < width {
                        width - x
                    } else {
                        0
                    }),
        {
            let sample = raw10::raw10_pixel(frame, format, row_bytes, order, y, x);
            proof {
                let tail = row_samples(m, width as int, y as int, x + xstep);
                assert(histogram@ + (seq![sample] + tail) + rest == histogram@.push(sample) + tail
                    + rest);
            }
            histogram.add_sample(sample);
            x = x + xstep;
        }
        assert(histogram@ + rest == all) by {
            assert(row_samples(m, width as int, y as int, x as int) == Seq::<u8>::empty());
            assert(histogram@ + Seq::<u8>::empty() == histogram@);
        }
        let ghost before = y as int;
        y = if height - y > ystep {
            y + ystep
        } else {
            height
        };
        assert(base + width <= y * width) by (nonlinear_arith)
            requires
                base == before * width,
                y >= before + 1,
                0 <= width,
        ;
    }
    assert(histogram@ == all) by {
        assert(histogram@ + Seq::<u8>::empty() == histogram@);
    }
    histogram
}

/// Every metered pixel is a green site: the `i`-th metered row and the `k`-th
/// metered column always cross on one.
pub proof fn law_metered_sites_are_green(order: BayerOrder, width: int, height: int, i: int, k: int)
    requires
        0 <= width,
        0 <= height,
        0 <= i,
        0 <= k,
    ensures
        order.channel(i * grid_step(height), green_parity(order) + k * grid_step(width)) is Green,
{
    let (ystep, xstep) = (grid_step(height), grid_step(width));
    assert(ystep % 2 == 0 && xstep % 2 == 0);
    vstd::arithmetic::div_mod::lemma_mul_mod_noop_right(i, ystep, 2);
    vstd::arithmetic::div_mod::lemma_mul_mod_noop_right(k, xstep, 2);
}

/// How many rows are metered, from row `y` on.
spec fn metered_rows(height: int, y: int) -> nat
    decreases
            (if y < height {
                height - y
            } else {
                0
            }),
{
    if y >= height || grid_step(height) <= 0 {
        0
    } else {
        1 + metered_rows(height, y + grid_step(height))
    }
}

proof fn lemma_row_len(m: Mosaic, width: int, y: int, x: int)
    requires
        0 <= x,
    ensures
        row_samples(m, width, y, x).len() == 0 || row_samples(m, width, y, x).len() * grid_step(
            width,
        ) <= width - x + grid_step(width) - 1,
    decreases
            (if x < width {
                width - x
            } else {
                0
            }),
{
    if x < width {
        let step = grid_step(width);
        lemma_row_len(m, width, y, x + step);
        let rest = row_samples(m, width, y, x + step).len() as int;
        assert((1 + rest) * step == step + rest * step) by (nonlinear_arith);
        assert(rest == 0 ==> rest * step == 0) by (nonlinear_arith);
    }
}

proof fn lemma_rows(height: int, y: int)
    requires
        0 <= y,
    ensures
        metered_rows(height, y) == 0 || metered_rows(height, y) * grid_step(height) <= height - y
            + grid_step(height) - 1,
    decreases
            (if y < height {
                height - y
            } else {
                0
            }),
{
    if y < height {
        let step = grid_step(height);
        lemma_rows(height, y + step);
        let rest = metered_rows(height, y + step) as int;
        assert((1 + rest) * step == step + rest * step) by (nonlinear_arith);
        assert(rest == 0 ==> rest * step == 0) by (nonlinear_arith);
    }
}

/// So many steps along an axis that start on it are at most 128.
proof fn lemma_axis(len: int, n: int)
    requires
        0 <= len,
        n * grid_step(len) <= len + grid_step(len) - 1,
    ensures
        n <= 128,
{
    let step = grid_step(len);
    assert(len <= 128 * step);
    assert(n <= 128) by (nonlinear_arith)
        requires
            n * step <= len + step - 1,
            len <= 128 * step,
            step > 0,
    ;
}

proof fn lemma_grid_len(m: Mosaic, width: int, height: int, parity: int, y: int)
    requires
        0 <= width,
        0 <= height,
        0 <= parity,
        0 <= y,
    ensures
        grid_samples(m, width, height, parity, y).len() <= 128 * metered_rows(height, y),
    decreases
            (if y < height {
                height - y
            } else {
                0
            }),
{
    if y < height {
        lemma_grid_len(m, width, height, parity, y + grid_step(height));
        lemma_row_len(m, width, y, parity);
        let n = row_samples(m, width, y, parity).len() as int;
        if n > 0 {
            lemma_axis(width, n);
        }
    }
}

/// Metering is coarse: however large the frame, at most 128 pixels along each
/// axis are looked at.
pub proof fn law_metering_is_coarse(frame: Seq<u8>, format: FrameFormat, order: BayerOrder)
    ensures
        metered(frame, format, order).len() <= 128 * 128,
{
    if frame.len() >= format.frame_len() {
        let m = Mosaic { frame, row_len: format.row_len(), order };
        let (width, height) = (format.width as int, format.height as int);
        lemma_grid_len(m, width, height, green_parity(order), 0);
        lemma_rows(height, 0);
        let rows = metered_rows(height, 0) as int;
        if rows > 0 {
            lemma_axis(height, rows);
        }
    }
}

/// Metered pixels are an even number of pixels apart, at least two; on an axis
/// that is long enough, as many as go 64 times into it, or one less.
pub proof fn law_grid_is_even(len: int)
    requires
        0 <= len,
    ensures
        grid_step(len) % 2 == 0,
        grid_step(len) >= 2,
        len < 128 ==> grid_step(len) == 2,
        len >= 128 ==> 64 * grid_step(len) <= len < 64 * (grid_step(len) + 2),
{
}

/// How many pixels of an axis are metered: the fewest whose steps reach its
/// end.
pub open spec fn is_grid_count(len: int, first: int, step: int, count: int) -> bool {
    &&& 0 <= count
    &&& first + count * step >= len
    &&& count > 0 ==> first + (count - 1) * step < len
}

proof fn lemma_row_sample(m: Mosaic, width: int, y: int, x: int)
    requires
        0 <= x,
        0 <= width,
    ensures
        ({
            let row = row_samples(m, width, y, x);
            &&& is_grid_count(width, x, grid_step(width), row.len() as int)
            &&& forall|k: int|
                0 <= k < row.len() ==> #[trigger] row[k] == m.sample(y, x + k * grid_step(width))
        }),
    decreases
            (if x < width {
                width - x
            } else {
                0
            }),
{
    let step = grid_step(width);
    let row = row_samples(m, width, y, x);
    if x < width {
        lemma_row_sample(m, width, y, x + step);
        let rest = row_samples(m, width, y, x + step);
        let n = rest.len() as int;
        assert(row =~= seq![m.sample(y, x)] + rest);
        assert((n + 1) * step == n * step + step) by (nonlinear_arith);
        assert((n - 1) * step + step == n * step) by (nonlinear_arith);
        assert(0 * step == 0);
        assert forall|k: int| 0 <= k < row.len() implies #[trigger] row[k] == m.sample(
            y,
            x + k * step,
        ) by {
            if k > 0 {
                assert(row[k] == rest[k - 1]);
                assert(k * step == (k - 1) * step + step) by (nonlinear_arith);
            }
        }
    } else {
        assert(0 * step == 0);
    }
}

proof fn lemma_grid_sample(
    m: Mosaic,
    width: int,
    height: int,
    parity: int,
    y: int,
    rows: int,
    columns: int,
)
    requires
        0 <= width,
        0 <= height,
        0 <= parity,
        0 <= y,
        is_grid_count(height, y, grid_step(height), rows),
        is_grid_count(width, parity, grid_step(width), columns),
    ensures
        ({
            let all = grid_samples(m, width, height, parity, y);
            &&& all.len() == rows * columns
            &&& forall|i: int, k: int|
                #![trigger all[i * columns + k]]
                0 <= i < rows && 0 <= k < columns ==> all[i * columns + k] == m.sample(
                    y + i * grid_step(height),
                    parity + k * grid_step(width),
                )
        }),
    decreases
            (if y < height {
                height - y
            } else {
                0
            }),
{
    let (ystep, xstep) = (grid_step(height), grid_step(width));
    let all = grid_samples(m, width, height, parity, y);
    if y < height {
        lemma_row_sample(m, width, y, parity);
        let row = row_samples(m, width, y, parity);
        lemma_grid_count_is_unique(width, parity, xstep, columns, row.len() as int);
        assert(rows > 0) by {
            assert(0 * ystep == 0);
        }
        assert((rows - 1) * ystep + ystep == rows * ystep) by (nonlinear_arith);
        assert((rows - 2) * ystep + ystep == (rows - 1) * ystep) by (nonlinear_arith);
        lemma_grid_sample(m, width, height, parity, y + ystep, rows - 1, columns);
        let rest = grid_samples(m, width, height, parity, y + ystep);
        assert((rows - 1) * columns + columns == rows * columns) by (nonlinear_arith);
        assert forall|i: int, k: int| #![trigger all[i * columns + k]] 0 <= i < rows && 0 <= k
            < columns implies all[i * columns + k] == m.sample(
            y + i * ystep,
            parity + k * xstep,
        ) by {
            if i == 0 {
                assert(0 * columns == 0 && 0 * ystep == 0);
                assert(all[k] == row[k]);
            } else {
                assert(i * columns == (i - 1) * columns + columns) by (nonlinear_arith);
                assert(i * ystep == (i - 1) * ystep + ystep) by (nonlinear_arith);
                assert(0 <= (i - 1) * columns) by (nonlinear_arith)
                    requires
                        i >= 1,
                        columns >= 0,
                ;
                assert((i - 1) * columns + columns <= (rows - 1) * columns) by (nonlinear_arith)
                    requires
                        i < rows,
                        columns >= 0,
                ;
                assert(all[i * columns + k] == rest[(i - 1) * columns + k]);
            }
        }
    } else {
        if rows > 0 {
            assert(0 <= (rows - 1) * ystep) by (nonlinear_arith)
                requires
                    rows >= 1,
                    ystep >= 2,
            ;
        }
        assert(rows == 0);
        assert(0 * columns == 0);
    }
}

proof fn lemma_grid_count_is_unique(len: int, first: int, step: int, one: int, other: int)
    requires
        step > 0,
        is_grid_count(len, first, step, one),
        is_grid_count(len, first, step, other),
    ensures
        one == other,
{
    if one < other {
        assert(one * step <= (other - 1) * step) by (nonlinear_arith)
            requires
                one <= other - 1,
                step > 0,
        ;
    }
    if other < one {
        assert(other * step <= (one - 1) * step) by (nonlinear_arith)
            requires
                other <= one - 1,
                step > 0,
        ;
    }
}

/// The metered samples are those of a grid that spans the frame, row by row.
/// With the grid's steps and its first column, a green one, the sample in row
/// `i` and column `k` of the grid is the byte of the frame that holds the pixel
/// there: four pixels take up five bytes, and each has its upper eight bits in
/// a byte of its own.
pub proof fn law_metered_samples_are_the_grid(
    frame: Seq<u8>,
    format: FrameFormat,
    order: BayerOrder,
    rows: int,
    columns: int,
)
    requires
        format.pixel is Raw10,
        frame.len() >= format.width * 10 / 8 * format.height,
        is_grid_count(format.height as int, 0, grid_step(format.height as int), rows),
        is_grid_count(
            format.width as int,
            green_parity(order),
            grid_step(format.width as int),
            columns,
        ),
    ensures
        0 <= green_parity(order) < 2,
        order.channel(0, green_parity(order)) is Green,
        ({
            let samples = metered(frame, format, order);
            let (ystep, xstep) = (
                grid_step(format.height as int),
                grid_step(format.width as int),
            );
            &&& samples.len() == rows * columns
            &&& forall|i: int, k: int|
                #![trigger samples[i * columns + k]]
                0 <= i < rows && 0 <= k < columns ==> {
                    let y = i * ystep;
                    let x = green_parity(order) + k * xstep;
                    samples[i * columns + k] == frame[y * (format.width * 10 / 8) + x / 4 * 5 + x
                        % 4]
                }
        }),
{
    let m = Mosaic { frame, row_len: format.row_len(), order };
    assert(format.row_len() == format.width * 10 / 8);
    lemma_grid_sample(
        m,
        format.width as int,
        format.height as int,
        green_parity(order),
        0,
        rows,
        columns,
    );
}

/// Every frame has such a grid: the rows and columns that are metered.
pub proof fn law_a_grid_spans_every_axis(len: int, first: int) -> (count: int)
    requires
        0 <= len,
        0 <= first,
    ensures
        is_grid_count(len, first, grid_step(len), count),
{
    let m = Mosaic { frame: seq![], row_len: 0, order: BayerOrder::Rggb };
    lemma_row_sample(m, len, 0, first);
    row_samples(m, len, 0, first).len() as int
}

/// A frame that is too short has no samples.
pub proof fn law_short_frames_are_not_metered(
    frame: Seq<u8>,
    format: FrameFormat,
    order: BayerOrder,
)
    requires
        format.pixel is Raw10,
        frame.len() < format.width * 10 / 8 * format.height,
    ensures
        metered(frame, format, order).len() == 0,
{
}

/// Samples are counted one by one, by their level.
pub proof fn law_samples_are_counted(samples: Seq<u8>, sample: u8, low: int, high: int)
    ensures
        count_in(Seq::empty(), low, high) == 0,
        count_at(Seq::empty(), low) == 0,
        count_in(samples.push(sample), low, high) == count_in(samples, low, high) + if low <= sample
            < high {
            1nat
        } else {
            0nat
        },
        count_at(samples.push(sample), low) == count_at(samples, low) + if sample == low {
            1nat
        } else {
            0nat
        },
{
    assert(samples.push(sample).drop_last() == samples);
}

/// The exposure is right if at most one sample in fifty has a level of 250 or
/// more, and the metered level lies between 205 and 248.
pub proof fn law_right_exposure(samples: Seq<u8>, level: u8)
    requires
        is_percentile(samples, percentile_count(samples), level),
    ensures
        converged(samples) <==> 50 * count_in(samples, 250, 256) <= samples.len() && 205 <= level
            <= 248,
{
    let target = percentile_count(samples);
    if level >= LUMA_LOW {
        assert(count_in(samples, 0, (LUMA_LOW - 1) + 1) < target);
    } else {
        lemma_count_monotonic(samples, 0, level + 1, LUMA_LOW as int);
    }
    if level <= LUMA_HIGH {
        lemma_count_monotonic(samples, 0, level + 1, LUMA_HIGH + 1);
    } else {
        assert(count_in(samples, 0, LUMA_HIGH + 1) < target);
    }
}

/// The metered level is the smallest that ninety-five percent of the samples do
/// not exceed.
pub proof fn law_metered_level_is_the_percentile(samples: Seq<u8>, level: u8)
    requires
        is_percentile(samples, percentile_count(samples), level),
    ensures
        100 * count_in(samples, 0, level + 1) >= 95 * samples.len(),
        level > 0 ==> 100 * count_in(samples, 0, level as int) < 95 * samples.len(),
{
    law_metered_level_reaches_the_share(samples, level);
    if level > 0 {
        assert(count_in(samples, 0, (level - 1) + 1) == count_in(samples, 0, level as int));
    }
}

/// A percentile is the lowest level that as many samples reach no further than
/// as were asked for, or the highest there is.
pub proof fn law_percentile_is_the_lowest(samples: Seq<u8>, target: int, level: u8)
    ensures
        is_percentile(samples, target, level) ==> {
            &&& level < 255 ==> count_in(samples, 0, level + 1) >= target
            &&& level > 0 ==> count_in(samples, 0, level as int) < target
        },
{
    if level > 0 && is_percentile(samples, target, level) {
        let lower = level - 1;
        assert(count_in(samples, 0, lower + 1) < target);
    }
}

} // verus!
