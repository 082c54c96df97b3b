//! Checking a recorded transmission: pick the channel that carries the signal,
//! decode it, and gather the statistics that tell a picture from noise.

use vstd::prelude::*;

use crate::camera::image;
use crate::camera::image::{Image, RgbPixel};

verus! {

/// Width of a Robot36 picture.
pub const ROBOT36_WIDTH: usize = 320;

/// Height of a Robot36 picture.
pub const ROBOT36_HEIGHT: usize = 240;

/// The highest sample rate a recording can have, in Hz.
pub const MAX_SAMPLE_RATE: u32 = 16_000_000;

/// The most samples whose energy can be added up.
pub const MAX_SAMPLES: u64 = 0x1_FFFF_FFFF;

/// The most samples of one channel that can be decoded: the decoder measures
/// the time between crossings of an adaptive midline in 256ths of a sample, in
/// 31 bits. Where it sees a crossing is its own affair, so the bound is on all
/// samples rather than on those between two crossings.
pub const MAX_CHANNEL_SAMPLES: usize = 8_388_607;

/// Neighbouring levels this close count as similar.
pub const SIMILAR: u8 = 24;

/// The pixels of the first Robot36 picture in some samples, if there is one.
pub uninterp spec fn robot36_picture(samples: Seq<i16>, sample_rate: u32) -> Option<Seq<RgbPixel>>;

/// `sstv::Decoder::new`, told to expect Robot36, finds and decodes the first
/// picture in a stream of samples with `decode`; it gives every pixel of the
/// mode's 320 by 240, black where the signal ended early. What it finds depends
/// on the samples and their rate alone. The rate must not be zero nor above
/// 16 MHz. The time since the signal last crossed its midline is counted in
/// 256ths of a sample, in 31 bits that must not overflow at the next crossing,
/// so there must be fewer than 2^23 samples.
#[verifier::external_body]
fn decode_robot36(samples: &Vec<i16>, sample_rate: u32) -> (pixels: Option<Vec<RgbPixel>>)
    requires
        samples@.len() <= MAX_CHANNEL_SAMPLES,
        0 < sample_rate <= MAX_SAMPLE_RATE,
    ensures
        pixels is Some <==> robot36_picture(samples@, sample_rate) is Some,
        pixels matches Some(p) ==> robot36_picture(samples@, sample_rate) == Some(p@) && p@.len()
            == ROBOT36_WIDTH * ROBOT36_HEIGHT,
{
    let decoder = sstv::Decoder::new(samples.iter().copied(), sample_rate);
    let decoded = decoder.with_mode(sstv::modes::ROBOT_36).decode()?;
    Some(
        decoded
            .pixels()
            .iter()
            .map(|p| RgbPixel { red: p.red(), green: p.green(), blue: p.blue() })
            .collect(),
    )
}

/// The energy of a channel of interleaved samples: the squares of its samples
/// among the first `n`, added up.
pub open spec fn energy(samples: Seq<i16>, channels: int, channel: int, n: nat) -> int
    decreases n,
{
    if n == 0 {
        0
    } else {
        energy(samples, channels, channel, (n - 1) as nat) + if (n - 1) % channels == channel {
            samples[n - 1] * samples[n - 1]
        } else {
            0
        }
    }
}

/// The channel that carries the signal has the highest energy; of several, it
/// is the last.
pub open spec fn is_loudest(samples: Seq<i16>, channels: int, channel: int) -> bool {
    &&& 0 <= channel < channels
    &&& forall|c: int|
        0 <= c < channels ==> #[trigger] energy(samples, channels, c, samples.len()) <= energy(
            samples,
            channels,
            channel,
            samples.len(),
        )
    &&& forall|c: int|
        channel < c < channels ==> #[trigger] energy(samples, channels, c, samples.len()) < energy(
            samples,
            channels,
            channel,
            samples.len(),
        )
}

/// The samples of one channel of interleaved samples.
pub open spec fn one_channel(samples: Seq<i16>, channels: int, channel: int) -> Seq<i16> {
    Seq::new(
        if channel < samples.len() {
            ((samples.len() - channel - 1) / channels + 1) as nat
        } else {
            0
        },
        |k: int| samples[channel + k * channels],
    )
}

/// Exactly one channel carries the signal.
pub proof fn law_loudest_channel_is_unique(
    samples: Seq<i16>,
    channels: int,
    one: int,
    other: int,
)
    requires
        is_loudest(samples, channels, one),
        is_loudest(samples, channels, other),
    ensures
        one == other,
{
    assert(energy(samples, channels, one, samples.len()) == energy(
        samples,
        channels,
        other,
        samples.len(),
    ));
}

/// A sample's square.
proof fn lemma_square(s: i16)
    ensures
        0 <= s * s <= 0x4000_0000,
{
    assert(0 <= s * s <= 0x4000_0000) by (nonlinear_arith)
        requires
            -0x8000 <= s <= 0x7FFF,
    ;
}

proof fn lemma_energy_bound(samples: Seq<i16>, channels: int, channel: int, n: nat)
    requires
        n <= samples.len(),
    ensures
        0 <= energy(samples, channels, channel, n) <= 0x4000_0000 * n,
    decreases n,
{
    if n > 0 {
        lemma_energy_bound(samples, channels, channel, (n - 1) as nat);
        lemma_square(samples[n - 1]);
    }
}

/// The energy of every channel.
fn channel_energies(samples: &Vec<i16>, channels: usize) -> (energies: Vec<i64>)
    requires
        channels > 0,
        samples@.len() <= MAX_SAMPLES,
    ensures
        energies@.len() == channels,
        forall|c: int|
            0 <= c < channels ==> #[trigger] energies@[c] == energy(
                samples@,
                channels as int,
                c,
                samples@.len(),
            ),
{
    let mut energies: Vec<i64> = Vec::new();
    let mut c: usize = 0;
    while c < channels
        invariant
            c <= channels,
            energies@.len() == c,
            forall|k: int| 0 <= k < c ==> #[trigger] energies@[k] == 0,
        decreases channels - c,
    {
        energies.push(0);
        c += 1;
    }
    let mut i: usize = 0;
    while i < samples.len()
        invariant
            channels > 0,
            i <= samples@.len() <= MAX_SAMPLES,
            energies@.len() == channels,
            forall|k: int|
                0 <= k < channels ==> #[trigger] energies@[k] == energy(
                    samples@,
                    channels as int,
                    k,
                    i as nat,
                ),
        decreases samples@.len() - i,
    {
        let at: usize = i % channels;
        let s = samples[i] as i64;
        proof {
            lemma_square(samples@[i as int]);
            lemma_energy_bound(samples@, channels as int, at as int, i as nat);
        }
        let sum: i64 = energies[at] + s * s;
        energies.set(at, sum);
        i += 1;
    }
    energies
}

/// The channel that carries the signal.
pub fn loudest_channel(samples: &Vec<i16>, channels: usize) -> (channel: usize)
    requires
        channels > 0,
        samples@.len() <= MAX_SAMPLES,
    ensures
        is_loudest(samples@, channels as int, channel as int),
{
    let energies = channel_energies(samples, channels);
    let mut best: usize = 0;
    let mut c: usize = 1;
    while c < channels
        invariant
            best < c <= channels,
            energies@.len() == channels,
            forall|k: int| 0 <= k < c ==> #[trigger] energies@[k] <= energies@[best as int],
            forall|k: int| best < k < c ==> #[trigger] energies@[k] < energies@[best as int],
        decreases channels - c,
    {
        if energies[c] >= energies[best] {
            best = c;
        }
        c += 1;
    }
    proof {
        let n = samples@.len();
        assert forall|k: int| 0 <= k < channels implies #[trigger] energy(
            samples@,
            channels as int,
            k,
            n,
        ) <= energy(samples@, channels as int, best as int, n) by {
            assert(energies@[k] <= energies@[best as int]);
        }
        assert forall|k: int| best < k < channels implies #[trigger] energy(
            samples@,
            channels as int,
            k,
            n,
        ) < energy(samples@, channels as int, best as int, n) by {
            assert(energies@[k] < energies@[best as int]);
        }
    }
    best
}

/// Keep the channel of a recording that carries the signal; a recording with
/// one channel is kept as it is.
pub fn pick_channel(samples: Vec<i16>, channels: usize) -> (mono: Vec<i16>)
    requires
        samples@.len() <= MAX_SAMPLES,
    ensures
        channels <= 1 ==> mono@ == samples@,
        channels > 1 ==> exists|channel: int|
            #[trigger] is_loudest(samples@, channels as int, channel) && mono@ == one_channel(
                samples@,
                channels as int,
                channel,
            ),
{
    if channels <= 1 {
        return samples;
    }
    let best = loudest_channel(&samples, channels);
    let mut mono: Vec<i16> = Vec::new();
    let mut i: usize = best;
    let ghost all = one_channel(samples@, channels as int, best as int);
    let ghost mut k: int = 0;
    assert(best + 0 * channels == best);
    while i < samples.len()
        invariant
            channels > 1,
            best < channels,
            all == one_channel(samples@, channels as int, best as int),
            0 <= k,
            mono@.len() == k,
            i < samples@.len() ==> k < all.len() && i == best + k * channels,
            i >= samples@.len() ==> k == all.len(),
            forall|j: int| 0 <= j < k ==> mono@[j] == all[j],
        decreases
                (if i < samples@.len() {
                    samples@.len() - i
                } else {
                    0
                }),
    {
        mono.push(samples[i]);
        proof {
            assert((k + 1) * channels == k * channels + channels) by (nonlinear_arith);
            lemma_next_sample(samples@.len() as int, channels as int, best as int, k);
            k = k + 1;
        }
        i = if samples.len() - i > channels {
            i + channels
        } else {
            samples.len()
        };
    }
    assert(mono@ == all);
    mono
}

/// Whether there is another sample of a channel behind its `k`-th.
proof fn lemma_next_sample(len: int, channels: int, channel: int, k: int)
    requires
        channels > 0,
        0 <= channel,
        0 <= k,
        channel + k * channels < len,
    ensures
        channel + (k + 1) * channels < len <==> k + 1 < (len - channel - 1) / channels + 1,
{
    let rest = len - channel - 1;
    assert(channel + (k + 1) * channels < len <==> (k + 1) * channels <= rest);
    assert((k + 1) * channels <= rest <==> k + 1 <= rest / channels) by (nonlinear_arith)
        requires
            channels > 0,
            0 <= rest,
            0 <= k,
    ;
}

/// Each channel of a recording holds its share of the samples at most.
proof fn lemma_channel_is_short(samples: Seq<i16>, channels: int, channel: int)
    requires
        channels > 0,
        0 <= channel,
        samples.len() <= MAX_CHANNEL_SAMPLES * channels,
    ensures
        one_channel(samples, channels, channel).len() <= MAX_CHANNEL_SAMPLES,
{
    let rest = samples.len() - channel - 1;
    if rest >= 0 {
        assert(rest / channels < 8_388_607) by (nonlinear_arith)
            requires
                channels > 0,
                0 <= rest < 8_388_607 * channels,
        ;
    }
}

/// A recording can be decoded: its channels are not too long, nor are all of
/// them together.
pub open spec fn is_decodable(len: nat, channels: usize, sample_rate: u32) -> bool {
    &&& len <= MAX_SAMPLES
    &&& len <= MAX_CHANNEL_SAMPLES * if channels <= 1 {
        1
    } else {
        channels as int
    }
    &&& 0 < sample_rate <= MAX_SAMPLE_RATE
}

/// Whether a recording of `len` samples can be decoded.
pub fn can_decode(len: usize, channels: usize, sample_rate: u32) -> (decodable: bool)
    ensures
        decodable == is_decodable(len as nat, channels, sample_rate),
{
    let channels: u128 = if channels <= 1 {
        1
    } else {
        channels as u128
    };
    assert(8_388_607 * channels <= 8_388_607 * 0xFFFF_FFFF_FFFF_FFFF) by (nonlinear_arith)
        requires
            channels <= 0xFFFF_FFFF_FFFF_FFFF,
    ;
    len as u64 <= MAX_SAMPLES && len as u128 <= MAX_CHANNEL_SAMPLES as u128 * channels && 0
        < sample_rate && sample_rate <= MAX_SAMPLE_RATE
}

/// Decode the first picture of a recording, from the channel that carries the
/// signal.
pub fn decode_recording(samples: Vec<i16>, channels: usize, sample_rate: u32) -> (image: Option<
    Image,
>)
    requires
        is_decodable(samples@.len(), channels, sample_rate),
    ensures
        exists|mono: Seq<i16>|
            {
                &&& channels <= 1 ==> mono == samples@
                &&& channels > 1 ==> exists|channel: int|
                    #[trigger] is_loudest(samples@, channels as int, channel) && mono
                        == one_channel(samples@, channels as int, channel)
                &&& image is Some <==> #[trigger] robot36_picture(mono, sample_rate) is Some
                &&& image matches Some(picture) ==> picture@ == (image::Picture {
                    width: ROBOT36_WIDTH as nat,
                    height: ROBOT36_HEIGHT as nat,
                    pixels: robot36_picture(mono, sample_rate)->0,
                    taken: 0,
                })
            },
{
    let ghost all = samples@;
    let mono = pick_channel(samples, channels);
    proof {
        if channels > 1 {
            let channel = choose|channel: int|
                #[trigger] is_loudest(all, channels as int, channel) && mono@ == one_channel(
                    all,
                    channels as int,
                    channel,
                );
            lemma_channel_is_short(all, channels as int, channel);
        }
    }
    match decode_robot36(&mono, sample_rate) {
        Some(pixels) => {
            assert(robot36_picture(mono@, sample_rate) is Some);
            Some(Image::from_pixels(ROBOT36_WIDTH, ROBOT36_HEIGHT, pixels))
        },
        None => {
            assert(robot36_picture(mono@, sample_rate) is None);
            None
        },
    }
}

/// A color channel of a pixel: red, green and blue in order.
pub open spec fn level(pixel: RgbPixel, c: int) -> u8 {
    if c == 0 {
        pixel.red
    } else if c == 1 {
        pixel.green
    } else {
        pixel.blue
    }
}

/// The levels of a channel, added up over some pixels.
pub open spec fn level_total(pixels: Seq<RgbPixel>, c: int) -> nat
    decreases pixels.len(),
{
    if pixels.len() == 0 {
        0
    } else {
        level_total(pixels.drop_last(), c) + level(pixels.last(), c) as nat
    }
}

/// The squares of the levels of a channel, added up over some pixels.
pub open spec fn square_total(pixels: Seq<RgbPixel>, c: int) -> nat
    decreases pixels.len(),
{
    if pixels.len() == 0 {
        0
    } else {
        square_total(pixels.drop_last(), c) + (level(pixels.last(), c) * level(
            pixels.last(),
            c,
        )) as nat
    }
}

/// Two levels are similar.
pub open spec fn is_similar(a: u8, b: u8) -> bool {
    -SIMILAR <= a - b <= SIMILAR
}

/// In how many channels two pixels are similar.
pub open spec fn similar_channels(a: RgbPixel, b: RgbPixel) -> nat {
    (if is_similar(a.red, b.red) {
        1nat
    } else {
        0
    }) + (if is_similar(a.green, b.green) {
        1nat
    } else {
        0
    }) + (if is_similar(a.blue, b.blue) {
        1nat
    } else {
        0
    })
}

/// The similar channels of neighbours in a row, over the columns up to `x`.
pub open spec fn row_similarity(pixels: Seq<RgbPixel>, width: int, y: int, x: int) -> nat
    decreases x,
{
    if x <= 1 {
        0
    } else {
        row_similarity(pixels, width, y, x - 1) + similar_channels(
            pixels[y * width + x - 1],
            pixels[y * width + x - 2],
        )
    }
}

/// The similar channels of neighbours in the first `y` rows.
pub open spec fn similarity(pixels: Seq<RgbPixel>, width: int, y: int) -> nat
    decreases y,
{
    if y <= 0 {
        0
    } else {
        similarity(pixels, width, y - 1) + row_similarity(pixels, width, y - 1, width)
    }
}

/// The sums behind the statistics of a picture.
#[derive(Clone, Copy, Debug, PartialEq, Eq)]
pub struct ImageSums {
    /// How many pixels there are, at least one.
    pub count: u64,
    /// The levels of red, green and blue, added up.
    pub sum: (u64, u64, u64),
    /// The squares of the levels of red, green and blue, added up.
    pub square_sum: (u64, u64, u64),
    /// How many channels of horizontal neighbours are similar.
    pub similar: u64,
    /// How many channels of horizontal neighbours there are.
    pub pairs: u64,
}

/// How many channels of horizontal neighbours a picture has.
pub open spec fn pair_count(width: int, height: int) -> int {
    if width == 0 {
        0
    } else {
        3 * (width - 1) * height
    }
}

proof fn lemma_totals(pixels: Seq<RgbPixel>, c: int)
    ensures
        level_total(pixels, c) <= 255 * pixels.len(),
        square_total(pixels, c) <= 65025 * pixels.len(),
    decreases pixels.len(),
{
    if pixels.len() > 0 {
        lemma_totals(pixels.drop_last(), c);
        let v = level(pixels.last(), c);
        assert(0 <= v * v <= 65025) by (nonlinear_arith)
            requires
                0 <= v <= 255,
        ;
    }
}

proof fn lemma_row_similarity(pixels: Seq<RgbPixel>, width: int, y: int, x: int)
    requires
        1 <= x,
    ensures
        row_similarity(pixels, width, y, x) <= 3 * (x - 1),
    decreases x,
{
    if x > 1 {
        lemma_row_similarity(pixels, width, y, x - 1);
    }
}

proof fn lemma_similarity(pixels: Seq<RgbPixel>, width: int, y: int)
    requires
        1 <= width,
        0 <= y,
    ensures
        similarity(pixels, width, y) <= 3 * (width - 1) * y,
    decreases y,
{
    if y > 0 {
        lemma_similarity(pixels, width, y - 1);
        lemma_row_similarity(pixels, width, y - 1, width);
        assert(3 * (width - 1) * y == 3 * (width - 1) * (y - 1) + 3 * (width - 1))
            by (nonlinear_arith);
    } else {
        assert(3 * (width - 1) * 0 == 0);
    }
}

fn similar(a: u8, b: u8) -> (count: u64)
    ensures
        count == if is_similar(a, b) {
            1nat
        } else {
            0
        },
{
    let difference: u8 = if a >= b {
        a - b
    } else {
        b - a
    };
    if difference <= SIMILAR {
        1
    } else {
        0
    }
}

/// Count the similar channels of horizontal neighbours.
fn count_similar(pixels: &[RgbPixel], width: usize, height: usize) -> (count: u64)
    requires
        pixels@.len() == width * height,
        3 * pixels@.len() <= u64::MAX,
    ensures
        count == similarity(pixels@, width as int, height as int),
{
    let mut count: u64 = 0;
    let mut y: usize = 0;
    if width == 0 {
        proof {
            lemma_no_columns(pixels@, height as int);
        }
        return 0;
    }
    while y < height
        invariant
            width >= 1,
            y <= height,
            pixels@.len() == width * height,
            3 * pixels@.len() <= u64::MAX,
            count == similarity(pixels@, width as int, y as int),
        decreases height - y,
    {
        let ghost before = count;
        let mut x: usize = 1;
        proof {
            lemma_similarity(pixels@, width as int, y as int);
            assert(3 * (width - 1) * y + 3 * (width - 1) <= 3 * (width * height))
                by (nonlinear_arith)
                requires
                    1 <= width,
                    y + 1 <= height,
            ;
        }
        while x < width
            invariant
                1 <= x <= width,
                y < height,
                pixels@.len() == width * height,
                before + 3 * (width - 1) <= u64::MAX,
                count == before + row_similarity(pixels@, width as int, y as int, x as int),
            decreases width - x,
        {
            proof {
                image::lemma_index(width as nat, height as nat, x as int, y as int);
                image::lemma_index(width as nat, height as nat, x - 1, y as int);
                lemma_row_similarity(pixels@, width as int, y as int, x as int);
                assert(y * width + x < pixels.len());
            }
            let a = pixels[y * width + x];
            let b = pixels[y * width + x - 1];
            count = count + similar(a.red, b.red) + similar(a.green, b.green) + similar(
                a.blue,
                b.blue,
            );
            x += 1;
        }
        y += 1;
    }
    count
}

proof fn lemma_no_columns(pixels: Seq<RgbPixel>, y: int)
    ensures
        similarity(pixels, 0, y) == 0,
    decreases y,
{
    if y > 0 {
        lemma_no_columns(pixels, y - 1);
    }
}

/// Gather the sums behind the statistics of a `width`x`height` picture.
pub fn image_stats(pixels: &[RgbPixel], width: usize, height: usize) -> (sums: ImageSums)
    requires
        pixels@.len() == width * height,
        65025 * pixels@.len() <= u64::MAX,
    ensures
        sums.count == if pixels@.len() == 0 {
            1
        } else {
            pixels@.len() as int
        },
        sums.sum.0 == level_total(pixels@, 0),
        sums.sum.1 == level_total(pixels@, 1),
        sums.sum.2 == level_total(pixels@, 2),
        sums.square_sum.0 == square_total(pixels@, 0),
        sums.square_sum.1 == square_total(pixels@, 1),
        sums.square_sum.2 == square_total(pixels@, 2),
        sums.similar == similarity(pixels@, width as int, height as int),
        sums.pairs == pair_count(width as int, height as int),
        sums.similar <= sums.pairs,
{
    let (mut red, mut green, mut blue): (u64, u64, u64) = (0, 0, 0);
    let (mut red2, mut green2, mut blue2): (u64, u64, u64) = (0, 0, 0);
    let mut i: usize = 0;
    while i < pixels.len()
        invariant
            i <= pixels@.len(),
            65025 * pixels@.len() <= u64::MAX,
            red == level_total(pixels@.take(i as int), 0),
            green == level_total(pixels@.take(i as int), 1),
            blue == level_total(pixels@.take(i as int), 2),
            red2 == square_total(pixels@.take(i as int), 0),
            green2 == square_total(pixels@.take(i as int), 1),
            blue2 == square_total(pixels@.take(i as int), 2),
        decreases pixels@.len() - i,
    {
        let p = pixels[i];
        proof {
            let next = pixels@.take(i + 1);
            assert(next.drop_last() == pixels@.take(i as int));
            lemma_totals(next, 0);
            lemma_totals(next, 1);
            lemma_totals(next, 2);
        }
        let (r, g, b) = (p.red as u64, p.green as u64, p.blue as u64);
        assert(r * r <= 65025 && g * g <= 65025 && b * b <= 65025) by (nonlinear_arith)
            requires
                0 <= r <= 255,
                0 <= g <= 255,
                0 <= b <= 255,
        ;
        red = red + r;
        green = green + g;
        blue = blue + b;
        red2 = red2 + r * r;
        green2 = green2 + g * g;
        blue2 = blue2 + b * b;
        i += 1;
    }
    assert(pixels@.take(i as int) == pixels@);
    let similar = count_similar(pixels, width, height);
    proof {
        if width > 0 {
            lemma_similarity(pixels@, width as int, height as int);
            assert(0 <= (width - 1) * height <= width * height) by (nonlinear_arith)
                requires
                    1 <= width,
            ;
            assert(3 * (width - 1) * height == 3 * ((width - 1) * height)) by (nonlinear_arith);
        } else {
            lemma_no_columns(pixels@, height as int);
        }
    }
    let pairs: u64 = if width == 0 {
        0
    } else {
        3 * (((width - 1) * height) as u64)
    };
    let count: u64 = if pixels.len() == 0 {
        1
    } else {
        pixels.len() as u64
    };
    ImageSums {
        count,
        sum: (red, green, blue),
        square_sum: (red2, green2, blue2),
        similar,
        pairs,
    }
}

/// The squares of some samples, added up.
pub open spec fn squares(samples: Seq<i16>) -> int
    decreases samples.len(),
{
    if samples.len() == 0 {
        0
    } else {
        squares(samples.drop_last()) + samples.last() * samples.last()
    }
}

/// A channel holds every sample whose place is its own, counted round and round
/// through the channels, and all that there are.
pub proof fn law_channel_is_every_nth_sample(
    samples: Seq<i16>,
    channels: int,
    channel: int,
    k: int,
)
    requires
        0 <= channel < channels,
        0 <= k,
    ensures
        k < one_channel(samples, channels, channel).len() <==> channel + k * channels
            < samples.len(),
        k < one_channel(samples, channels, channel).len() ==> one_channel(
            samples,
            channels,
            channel,
        )[k] == samples[channel + k * channels],
{
    let left = samples.len() - channel - 1;
    if left >= 0 {
        assert(k < left / channels + 1 <==> k * channels <= left) by (nonlinear_arith)
            requires
                0 < channels,
                0 <= k,
                0 <= left,
        ;
    } else {
        assert(0 <= k * channels) by (nonlinear_arith)
            requires
                0 < channels,
                0 <= k,
        ;
    }
}

/// A sample of another channel adds no `i`-th sample to this one.
proof fn lemma_foreign_sample(samples: Seq<i16>, channels: int, channel: int, m: int, i: int)
    requires
        0 <= channel < channels,
        0 <= m < samples.len(),
        m % channels != channel,
        0 <= i,
    ensures
        i < one_channel(samples.take(m), channels, channel).len() <==> i < one_channel(
            samples.take(m + 1),
            channels,
            channel,
        ).len(),
{
    law_channel_is_every_nth_sample(samples.take(m), channels, channel, i);
    law_channel_is_every_nth_sample(samples.take(m + 1), channels, channel, i);
    if channel + i * channels == m {
        vstd::arithmetic::div_mod::lemma_fundamental_div_mod_converse_mod(m, channels, i, channel);
    }
}

proof fn lemma_energy(samples: Seq<i16>, channels: int, channel: int, n: nat)
    requires
        0 <= channel < channels,
        n <= samples.len(),
    ensures
        energy(samples, channels, channel, n) == squares(
            one_channel(samples.take(n as int), channels, channel),
        ),
    decreases n,
{
    let now = one_channel(samples.take(n as int), channels, channel);
    if n > 0 {
        let m = n - 1;
        let before = one_channel(samples.take(m), channels, channel);
        lemma_energy(samples, channels, channel, m as nat);
        let k = m / channels;
        assert(m == k * channels + m % channels && 0 <= m % channels < channels && 0 <= k)
            by (nonlinear_arith)
            requires
                0 < channels,
                0 <= m,
                k == m / channels,
        ;
        if m % channels == channel {
            law_channel_is_every_nth_sample(samples.take(m), channels, channel, k);
            law_channel_is_every_nth_sample(samples.take(n as int), channels, channel, k);
            law_channel_is_every_nth_sample(samples.take(n as int), channels, channel, k + 1);
            assert((k + 1) * channels == k * channels + channels) by (nonlinear_arith);
            if k > 0 {
                law_channel_is_every_nth_sample(samples.take(m), channels, channel, k - 1);
                assert((k - 1) * channels == k * channels - channels) by (nonlinear_arith);
            }
            assert(before.len() == k);
            assert(now.len() == k + 1);
            assert(now.drop_last() =~= before) by {
                assert forall|i: int| 0 <= i < k implies now[i] == before[i] by {
                    law_channel_is_every_nth_sample(samples.take(m), channels, channel, i);
                    law_channel_is_every_nth_sample(samples.take(n as int), channels, channel, i);
                }
            }
            assert(now.last() == samples[m]);
        } else {
            lemma_foreign_sample(samples, channels, channel, m, now.len() as int);
            lemma_foreign_sample(samples, channels, channel, m, before.len() as int);
            assert(now =~= before) by {
                assert forall|i: int| 0 <= i < now.len() implies now[i] == before[i] by {
                    law_channel_is_every_nth_sample(samples.take(m), channels, channel, i);
                    law_channel_is_every_nth_sample(samples.take(n as int), channels, channel, i);
                }
            }
        }
    } else {
        assert(now.len() == 0);
    }
}

/// The energy of a channel is that of its samples: their squares, added up.
pub proof fn law_energy_is_that_of_the_channel(samples: Seq<i16>, channels: int, channel: int)
    requires
        0 <= channel < channels,
    ensures
        energy(samples, channels, channel, samples.len()) == squares(
            one_channel(samples, channels, channel),
        ),
{
    lemma_energy(samples, channels, channel, samples.len());
    assert(samples.take(samples.len() as int) =~= samples);
}

/// No channel is louder than the loudest one, and none behind it as loud.
pub proof fn law_loudest_channel_has_the_most_energy(
    samples: Seq<i16>,
    channels: int,
    loudest: int,
    channel: int,
)
    requires
        is_loudest(samples, channels, loudest),
        0 <= channel < channels,
    ensures
        0 <= loudest < channels,
        squares(one_channel(samples, channels, channel)) <= squares(
            one_channel(samples, channels, loudest),
        ),
        channel > loudest ==> squares(one_channel(samples, channels, channel)) < squares(
            one_channel(samples, channels, loudest),
        ),
{
    law_energy_is_that_of_the_channel(samples, channels, loudest);
    law_energy_is_that_of_the_channel(samples, channels, channel);
    assert(energy(samples, channels, channel, samples.len()) <= energy(
        samples,
        channels,
        loudest,
        samples.len(),
    ));
}

/// A recording can be decoded at up to 16 MHz, if a channel of it holds fewer
/// than 2^23 samples on average, and all of it fewer than 2^33.
pub proof fn law_decodable_recordings(len: nat, channels: usize, sample_rate: u32)
    ensures
        is_decodable(len, channels, sample_rate) <==> {
            &&& 1 <= sample_rate <= 16_000_000
            &&& len < 0x2_0000_0000
            &&& channels <= 1 ==> len < 0x80_0000
            &&& channels > 1 ==> len <= 0x7F_FFFF * channels
        },
{
}

/// Every pixel adds its own levels to the totals, and their squares.
pub proof fn law_pixels_add_their_levels(pixels: Seq<RgbPixel>, pixel: RgbPixel)
    ensures
        level_total(pixels.push(pixel), 0) == level_total(pixels, 0) + pixel.red,
        level_total(pixels.push(pixel), 1) == level_total(pixels, 1) + pixel.green,
        level_total(pixels.push(pixel), 2) == level_total(pixels, 2) + pixel.blue,
        square_total(pixels.push(pixel), 0) == square_total(pixels, 0) + pixel.red * pixel.red,
        square_total(pixels.push(pixel), 1) == square_total(pixels, 1) + pixel.green * pixel.green,
        square_total(pixels.push(pixel), 2) == square_total(pixels, 2) + pixel.blue * pixel.blue,
        forall|c: int| #[trigger] level_total(Seq::empty(), c) == 0,
        forall|c: int| #[trigger] square_total(Seq::empty(), c) == 0,
{
    assert(pixels.push(pixel).drop_last() == pixels);
    assert(0 <= pixel.red * pixel.red) by (nonlinear_arith);
    assert(0 <= pixel.green * pixel.green) by (nonlinear_arith);
    assert(0 <= pixel.blue * pixel.blue) by (nonlinear_arith);
}

/// Two levels are similar if neither is more than 24 above the other.
pub proof fn law_similar_levels_are_close(a: u8, b: u8)
    ensures
        is_similar(a, b) <==> a <= b + 24 && b <= a + 24,
        is_similar(a, b) == is_similar(b, a),
{
}

/// Two pixels agree in as many channels as they are similar in.
pub proof fn law_similar_channels_are_counted(a: RgbPixel, b: RgbPixel)
    ensures
        similar_channels(a, b) <= 3,
        similar_channels(a, b) == 3 <==> is_similar(a.red, b.red) && is_similar(a.green, b.green)
            && is_similar(a.blue, b.blue),
        similar_channels(a, b) == 0 <==> !is_similar(a.red, b.red) && !is_similar(a.green, b.green)
            && !is_similar(a.blue, b.blue),
        similar_channels(a, b) == 1 <==> {
            ||| is_similar(a.red, b.red) && !is_similar(a.green, b.green) && !is_similar(
                a.blue,
                b.blue,
            )
            ||| !is_similar(a.red, b.red) && is_similar(a.green, b.green) && !is_similar(
                a.blue,
                b.blue,
            )
            ||| !is_similar(a.red, b.red) && !is_similar(a.green, b.green) && is_similar(
                a.blue,
                b.blue,
            )
        },
{
}

/// Every pixel but the first of a row is held against its left neighbour, and
/// every row adds its own count.
pub proof fn law_neighbours_are_compared(pixels: Seq<RgbPixel>, width: int, x: int, y: int)
    requires
        1 <= x < width,
        0 <= y,
    ensures
        similarity(pixels, width, 0) == 0,
        similarity(pixels, width, y + 1) == similarity(pixels, width, y) + row_similarity(
            pixels,
            width,
            y,
            width,
        ),
        row_similarity(pixels, width, y, 1) == 0,
        row_similarity(pixels, width, y, x + 1) == row_similarity(pixels, width, y, x)
            + similar_channels(pixels[y * width + x], pixels[y * width + (x - 1)]),
{
}

/// A row of pixels has a pair less than pixels, each compared in three channels.
pub proof fn law_pairs_are_counted(width: int, height: int)
    requires
        1 <= width,
        0 <= height,
    ensures
        pair_count(0, height) == 0,
        pair_count(1, height) == 0,
        pair_count(width, 0) == 0,
        pair_count(width + 1, height) == pair_count(width, height) + 3 * height,
        pair_count(width, height + 1) == pair_count(width, height) + 3 * (width - 1),
{
    assert(3 * width * height == 3 * (width - 1) * height + 3 * height) by (nonlinear_arith);
    assert(3 * (width - 1) * (height + 1) == 3 * (width - 1) * height + 3 * (width - 1))
        by (nonlinear_arith);
    assert(3 * (width - 1) * 0 == 0) by (nonlinear_arith);
    assert(3 * (1 - 1) * height == 0) by (nonlinear_arith);
}

} // verus!
