//! Thermal pictures: temperature words normalised to a robust
//! (percentile-clipped) range, mapped to greyscale and nearest-neighbour scaled
//! to the output resolution.

use vstd::multiset::Multiset;
use vstd::prelude::*;

use super::image;
use super::image::{Image, RgbPixel};

verus! {

/// `slice::sort_unstable` sorts a slice in place, into ascending order for
/// integers: the same numbers, no one ahead of a smaller one.
#[verifier::external_body]
fn sort_words(words: &mut Vec<u16>)
    ensures
        final(words)@.to_multiset() == old(words)@.to_multiset(),
        forall|i: int, j: int|
            0 <= i < j < final(words)@.len() ==> final(words)@[i] <= final(words)@[j],
{
    words.sort_unstable();
}

/// Some words in ascending order.
pub open spec fn ranked(words: Seq<u16>) -> Seq<u16> {
    words.sort_by(|a: u16, b: u16| a <= b)
}

/// How many words are trimmed at either end before the scale is chosen: one
/// percent.
pub open spec fn trimmed(words: Seq<u16>) -> int {
    words.len() as int / 100
}

/// The temperature scale of a frame: where black is, and how far it is to
/// white.
#[derive(Clone, Copy, Debug, PartialEq, Eq, Structural)]
pub struct Scale {
    /// The word that is shown black, along with every colder one.
    pub min: u16,
    /// How far above `min` white begins, at least one.
    pub range: u16,
}

/// The scale of some words: the coldest and hottest percent of pixels are
/// clipped before choosing the black and white points, since a few outliers
/// would otherwise stretch the whole range.
pub open spec fn scale_of(words: Seq<u16>) -> Scale {
    let sorted = ranked(words);
    let min = sorted[trimmed(words)];
    let max = sorted[sorted.len() - 1 - trimmed(words)];
    Scale {
        min,
        range: if max <= min {
            1
        } else {
            (max - min) as u16
        },
    }
}

proof fn lemma_ranked(words: Seq<u16>)
    ensures
        ranked(words).len() == words.len(),
        ranked(words).to_multiset() == words.to_multiset(),
        forall|i: int, j: int|
            0 <= i <= j < ranked(words).len() ==> ranked(words)[i] <= ranked(words)[j],
{
    let leq = |a: u16, b: u16| a <= b;
    words.lemma_sort_by_ensures(leq);
    words.to_multiset_ensures();
    ranked(words).to_multiset_ensures();
    assert forall|i: int, j: int| 0 <= i <= j < ranked(words).len() implies ranked(words)[i]
        <= ranked(words)[j] by {
        if i < j {
            assert(leq(ranked(words)[i], ranked(words)[j]));
        }
    }
}

impl Scale {
    /// Choose the scale of a frame.
    pub fn of(words: &[u16]) -> (scale: Self)
        requires
            words@.len() > 0,
        ensures
            scale == scale_of(words@),
            scale.range >= 1,
    {
        let mut sorted = vstd::slice::slice_to_vec(words);
        sort_words(&mut sorted);
        proof {
            lemma_ranked(words@);
            let leq = |a: u16, b: u16| a <= b;
            assert(vstd::relations::sorted_by(sorted@, leq));
            assert(vstd::relations::sorted_by(ranked(words@), leq)) by {
                words@.lemma_sort_by_ensures(leq);
            }
            vstd::seq_lib::lemma_sorted_unique(sorted@, ranked(words@), leq);
        }
        let trim: usize = sorted.len() / 100;
        let min = sorted[trim];
        let max = sorted[sorted.len() - 1 - trim];
        let range: u16 = if max <= min {
            1
        } else {
            max - min
        };
        Scale { min, range }
    }
}

proof fn lemma_filter_part(part: Seq<u16>, keep: spec_fn(u16) -> bool)
    requires
        forall|i: int| 0 <= i < part.len() ==> !keep(#[trigger] part[i]),
    ensures
        part.to_multiset().filter(keep).len() == 0,
{
    broadcast use vstd::multiset::group_multiset_axioms;

    part.to_multiset_ensures();
    let kept = part.to_multiset().filter(keep);
    assert(kept =~= Multiset::empty()) by {
        assert forall|w: u16| kept.count(w) == 0 by {
            if part.to_multiset().count(w) > 0 {
                assert(part.contains(w));
            }
        }
    }
}

proof fn lemma_filter_bound(part: Seq<u16>, keep: spec_fn(u16) -> bool)
    ensures
        part.to_multiset().filter(keep).len() <= part.len(),
{
    broadcast use vstd::multiset::group_multiset_axioms;

    part.to_multiset_ensures();
    let whole = part.to_multiset();
    let kept = whole.filter(keep);
    assert(kept.subset_of(whole));
    assert(whole.sub(kept).len() == whole.len() - kept.len());
}

/// At most one percent of the pixels are colder than black, and at most one
/// percent are hotter than white.
pub proof fn law_at_most_a_percent_is_clipped(words: Seq<u16>)
    requires
        words.len() > 0,
    ensures
        ({
            let scale = scale_of(words);
            &&& words.to_multiset().filter(|w: u16| w < scale.min).len() <= words.len() / 100
            &&& words.to_multiset().filter(|w: u16| w > scale.min + scale.range).len()
                <= words.len() / 100
        }),
{
    broadcast use vstd::multiset::group_multiset_axioms;

    lemma_ranked(words);
    let sorted = ranked(words);
    let scale = scale_of(words);
    let trim = trimmed(words);
    let cold = |w: u16| w < scale.min;
    let head = sorted.take(trim);
    let rest = sorted.skip(trim);
    assert(sorted == head + rest);
    vstd::seq_lib::lemma_multiset_commutative(head, rest);
    lemma_filter_bound(head, cold);
    lemma_filter_part(rest, cold);
    assert(sorted.to_multiset().filter(cold) =~= head.to_multiset().filter(cold).add(
        rest.to_multiset().filter(cold),
    ));

    let hot = |w: u16| w > scale.min + scale.range;
    let last = sorted.len() - trim;
    let body = sorted.take(last);
    let tail = sorted.skip(last);
    assert(sorted == body + tail);
    vstd::seq_lib::lemma_multiset_commutative(body, tail);
    lemma_filter_bound(tail, hot);
    assert forall|i: int| 0 <= i < body.len() implies !hot(#[trigger] body[i]) by {
        assert(sorted[i] <= sorted[last - 1]);
    }
    lemma_filter_part(body, hot);
    assert(sorted.to_multiset().filter(hot) =~= body.to_multiset().filter(hot).add(
        tail.to_multiset().filter(hot),
    ));
}

/// The source column behind an output column, mirrored on demand.
pub open spec fn source_column(src_w: int, out_w: int, mirror: bool, ox: int) -> int {
    if mirror {
        src_w - 1 - ox * src_w / out_w
    } else {
        ox * src_w / out_w
    }
}

/// The shade of a word: its distance above black, up to white, through the
/// shade table.
pub open spec fn shade_of(scale: Scale, shades: Seq<u8>, word: u16) -> u8 {
    let above = if word <= scale.min {
        0
    } else {
        word - scale.min
    };
    shades[if above > scale.range {
        scale.range as int
    } else {
        above
    }]
}

/// The color of an output pixel: the nearest source word's shade, in grey.
pub open spec fn thermal_pixel(
    words: Seq<u16>,
    size: (usize, usize),
    output: (usize, usize),
    mirror: bool,
    scale: Scale,
    shades: Seq<u8>,
    ox: int,
    oy: int,
) -> RgbPixel {
    let sy = oy * size.1 as int / output.1 as int;
    let sx = source_column(size.0 as int, output.0 as int, mirror, ox);
    let g = shade_of(scale, shades, words[sy * size.0 + sx]);
    RgbPixel { red: g, green: g, blue: g }
}

/// Every step of the scaling can be computed.
pub open spec fn renderable(size: (usize, usize), output: (usize, usize)) -> bool {
    &&& 0 < size.0
    &&& 0 < size.1
    &&& size.0 * size.1 <= usize::MAX
    &&& output.0 * output.1 <= usize::MAX
    &&& output.0 * size.0 <= usize::MAX
    &&& output.1 * size.1 <= usize::MAX
}

/// Whether a grid of `size` can be scaled to `output`.
pub fn can_render(size: (usize, usize), output: (usize, usize)) -> (able: bool)
    ensures
        able == renderable(size, output),
{
    0 < size.0 && 0 < size.1 && size.0.checked_mul(size.1).is_some() && output.0.checked_mul(
        output.1,
    ).is_some() && output.0.checked_mul(size.0).is_some() && output.1.checked_mul(
        size.1,
    ).is_some()
}

proof fn lemma_nearest(o: int, out: int, src: int)
    requires
        0 <= o < out,
        0 < src,
    ensures
        0 <= o * src <= out * src,
        0 <= o * src / out < src,
{
    assert(0 <= o * src <= out * src) by (nonlinear_arith)
        requires
            0 <= o < out,
            0 < src,
    ;
    assert(0 <= o * src / out < src) by (nonlinear_arith)
        requires
            0 <= o < out,
            0 < src,
    ;
}

/// The source pixel behind every output pixel lies within the sensor grid.
pub proof fn law_source_is_in_grid(size: (usize, usize), output: (usize, usize), mirror: bool, ox: int, oy: int)
    requires
        renderable(size, output),
        0 <= ox < output.0,
        0 <= oy < output.1,
    ensures
        0 <= source_column(size.0 as int, output.0 as int, mirror, ox) < size.0,
        0 <= (oy * size.1 as int / output.1 as int) < size.1,
{
    lemma_nearest(ox, output.0 as int, size.0 as int);
    lemma_nearest(oy, output.1 as int, size.1 as int);
}

/// Mirroring flips the picture left to right at the sensor: the mirrored column
/// is as far from the right edge as the plain one is from the left.
pub proof fn law_mirror_flips(src_w: int, out_w: int, ox: int)
    ensures
        source_column(src_w, out_w, true, ox) == src_w - 1 - source_column(
            src_w,
            out_w,
            false,
            ox,
        ),
{
}

/// Turn an averaged temperature frame into a greyscale, nearest-neighbour
/// scaled [`Image`], optionally flipped horizontally. `shades` gives the grey
/// level of every distance above black, up to white.
pub fn build_image(
    words: &[u16],
    size: (usize, usize),
    output: (usize, usize),
    mirror: bool,
    scale: Scale,
    shades: &[u8],
) -> (image: Image)
    requires
        renderable(size, output),
        words@.len() == size.0 * size.1,
        shades@.len() == scale.range + 1,
    ensures
        image@ == image::drawn(
            output.0 as nat,
            output.1 as nat,
            |ox: int, oy: int|
                thermal_pixel(words@, size, output, mirror, scale, shades@, ox, oy),
        ),
{
    let (src_w, src_h) = size;
    let (out_w, out_h) = output;
    let ghost color = |ox: int, oy: int|
        thermal_pixel(words@, size, output, mirror, scale, shades@, ox, oy);
    let mut pixels: Vec<RgbPixel> = Vec::new();
    let mut oy: usize = 0;
    assert(0 * out_w == 0);
    while oy < out_h
        invariant
            size == (src_w, src_h),
            output == (out_w, out_h),
            renderable(size, output),
            words@.len() == src_w * src_h,
            shades@.len() == scale.range + 1,
            color == |ox: int, oy: int|
                thermal_pixel(words@, size, output, mirror, scale, shades@, ox, oy),
            oy <= out_h,
            pixels@.len() == oy * out_w,
            forall|i: int|
                0 <= i < pixels@.len() ==> pixels@[i] == color(
                    i % out_w as int,
                    i / out_w as int,
                ),
        decreases out_h - oy,
    {
        proof {
            lemma_nearest(oy as int, out_h as int, src_h as int);
        }
        let sy: usize = oy * src_h / out_h;
        let mut ox: usize = 0;
        while ox < out_w
            invariant
                size == (src_w, src_h),
                output == (out_w, out_h),
                renderable(size, output),
                words@.len() == src_w * src_h,
                shades@.len() == scale.range + 1,
                color == |ox: int, oy: int|
                    thermal_pixel(words@, size, output, mirror, scale, shades@, ox, oy),
                oy < out_h,
                ox <= out_w,
                sy == oy * src_h / out_h as int,
                sy < src_h,
                pixels@.len() == oy * out_w + ox,
                forall|i: int|
                    0 <= i < pixels@.len() ==> pixels@[i] == color(
                        i % out_w as int,
                        i / out_w as int,
                    ),
            decreases out_w - ox,
        {
            proof {
                lemma_nearest(ox as int, out_w as int, src_w as int);
                image::lemma_index(out_w as nat, out_h as nat, ox as int, oy as int);
            }
            let nearest: usize = ox * src_w / out_w;
            let sx: usize = if mirror {
                (src_w - 1) - nearest
            } else {
                nearest
            };
            proof {
                image::lemma_index(src_w as nat, src_h as nat, sx as int, sy as int);
            }
            let word = words[sy * src_w + sx];
            let above: u16 = word.saturating_sub(scale.min);
            let g = if above > scale.range {
                shades[scale.range as usize]
            } else {
                shades[above as usize]
            };
            pixels.push(RgbPixel::new(g, g, g));
            ox += 1;
        }
        assert(oy * out_w + out_w == (oy + 1) * out_w) by (nonlinear_arith);
        oy += 1;
    }
    assert(out_h * out_w == out_w * out_h) by (nonlinear_arith);
    assert(pixels@ == image::raster(out_w as nat, out_h as nat, color));
    Image::from_pixels(out_w, out_h, pixels)
}

/// Every pixel of the picture shows the word of the sensor that covers its
/// place: the share of the height that the word's row takes up holds the
/// pixel's row, and likewise for columns, counted from the right if the picture
/// is mirrored. The pixel is grey, and its level is the shade of how far the
/// word lies above black, black for everything colder and white for everything
/// hotter. Returns the word's column and row.
pub proof fn law_picture_shows_the_nearest_word(
    words: Seq<u16>,
    size: (usize, usize),
    output: (usize, usize),
    mirror: bool,
    scale: Scale,
    shades: Seq<u8>,
    ox: int,
    oy: int,
) -> (source: (int, int))
    requires
        renderable(size, output),
        words.len() == size.0 * size.1,
        shades.len() == scale.range + 1,
        0 <= ox < output.0,
        0 <= oy < output.1,
    ensures
        ({
            let (sx, sy) = source;
            let from_edge = if mirror {
                size.0 - 1 - sx
            } else {
                sx
            };
            &&& 0 <= sx < size.0
            &&& 0 <= sy < size.1
            &&& from_edge * output.0 <= ox * size.0 < (from_edge + 1) * output.0
            &&& sy * output.1 <= oy * size.1 < (sy + 1) * output.1
        }),
        ({
            let picture = image::drawn(
                output.0 as nat,
                output.1 as nat,
                |x: int, y: int| thermal_pixel(words, size, output, mirror, scale, shades, x, y),
            );
            let pixel = picture.pixels[oy * output.0 + ox];
            let word = words[source.1 * size.0 + source.0] as int;
            &&& picture.width == output.0
            &&& picture.height == output.1
            &&& picture.pixels.len() == output.0 * output.1
            &&& pixel.red == pixel.green == pixel.blue
            &&& word <= scale.min ==> pixel.red == shades[0]
            &&& scale.min <= word <= scale.min + scale.range ==> pixel.red == shades[word
                - scale.min]
            &&& word >= scale.min + scale.range ==> pixel.red == shades[scale.range as int]
        }),
{
    lemma_nearest(ox, output.0 as int, size.0 as int);
    lemma_nearest(oy, output.1 as int, size.1 as int);
    lemma_share(ox, output.0 as int, size.0 as int);
    lemma_share(oy, output.1 as int, size.1 as int);
    image::lemma_index(output.0 as nat, output.1 as nat, ox, oy);
    let near = ox * size.0 as int / output.0 as int;
    (
        if mirror {
            size.0 - 1 - near
        } else {
            near
        },
        oy * size.1 as int / output.1 as int,
    )
}

proof fn lemma_share(o: int, out: int, src: int)
    requires
        0 <= o < out,
        0 < src,
    ensures
        (o * src / out) * out <= o * src < (o * src / out + 1) * out,
{
    let n = o * src;
    assert((n / out) * out <= n < (n / out + 1) * out) by (nonlinear_arith)
        requires
            out > 0,
    ;
}

/// Black and white are where the coldest and the hottest percent end: the
/// pixels colder than black are at most a percent, but with those as cold as
/// black they are more; likewise at the hot end. Only a frame without contrast
/// gets a range that no pixel asks for.
pub proof fn law_scale_ends_where_the_outliers_do(words: Seq<u16>)
    requires
        words.len() > 0,
    ensures
        ({
            let scale = scale_of(words);
            let white = scale.min + scale.range;
            let percent = words.len() / 100;
            let all = words.to_multiset();
            &&& all.filter(|w: u16| w < scale.min).len() <= percent
            &&& all.filter(|w: u16| w <= scale.min).len() > percent
            &&& all.filter(|w: u16| w > white).len() <= percent
            &&& all.filter(|w: u16| w >= white).len() > percent || (scale.range == 1
                && all.filter(|w: u16| w > scale.min).len() <= percent)
        }),
{
    broadcast use vstd::multiset::group_multiset_axioms;

    law_at_most_a_percent_is_clipped(words);
    lemma_ranked(words);
    let sorted = ranked(words);
    let scale = scale_of(words);
    let trim = trimmed(words);
    let max = sorted[sorted.len() - 1 - trim];
    let white = scale.min + scale.range;
    lemma_filter_reaches(words, sorted, 0, trim + 1, |w: u16| w <= scale.min);
    if max > scale.min {
        lemma_filter_reaches(words, sorted, sorted.len() - 1 - trim, trim + 1, |w: u16| w >= white);
    } else {
        let hot = |w: u16| w > scale.min;
        let last = sorted.len() - trim;
        let body = sorted.take(last);
        let tail = sorted.skip(last);
        assert(sorted == body + tail);
        vstd::seq_lib::lemma_multiset_commutative(body, tail);
        lemma_filter_bound(tail, hot);
        assert forall|i: int| 0 <= i < body.len() implies !hot(#[trigger] body[i]) by {
            assert(sorted[i] <= sorted[last - 1]);
        }
        lemma_filter_part(body, hot);
        assert(sorted.to_multiset().filter(hot) =~= body.to_multiset().filter(hot).add(
            tail.to_multiset().filter(hot),
        ));
    }
}

/// If a run of the ranked words is kept, at least as many words are.
proof fn lemma_filter_reaches(
    words: Seq<u16>,
    sorted: Seq<u16>,
    from: int,
    n: int,
    keep: spec_fn(u16) -> bool,
)
    requires
        sorted.to_multiset() == words.to_multiset(),
        0 <= from <= from + n <= sorted.len(),
        forall|i: int| from <= i < from + n ==> keep(#[trigger] sorted[i]),
    ensures
        words.to_multiset().filter(keep).len() >= n,
{
    broadcast use vstd::multiset::group_multiset_axioms;

    let run = sorted.subrange(from, from + n);
    let head = sorted.take(from);
    let tail = sorted.skip(from + n);
    assert(sorted == head + (run + tail));
    vstd::seq_lib::lemma_multiset_commutative(head, run + tail);
    vstd::seq_lib::lemma_multiset_commutative(run, tail);
    run.to_multiset_ensures();
    assert(run.to_multiset().filter(keep) =~= run.to_multiset()) by {
        assert forall|w: u16| run.to_multiset().filter(keep).count(w) == run.to_multiset().count(
            w,
        ) by {
            if run.to_multiset().count(w) > 0 {
                assert(run.contains(w));
                let i = run.index_of(w);
                assert(keep(sorted[from + i]));
            }
        }
    }
    let rest = head.to_multiset().add(tail.to_multiset());
    assert(sorted.to_multiset() =~= run.to_multiset().add(rest));
    assert(sorted.to_multiset().filter(keep) =~= run.to_multiset().filter(keep).add(
        rest.filter(keep),
    ));
}

/// Every grid and every picture whose sides fit into 16 bits can be rendered,
/// and only a grid without words cannot for any other reason than that its
/// places cannot be counted.
pub proof fn law_ordinary_sizes_are_rendered(size: (usize, usize), output: (usize, usize))
    ensures
        0 < size.0 <= 0xFFFF && 0 < size.1 <= 0xFFFF && output.0 <= 0xFFFF && output.1 <= 0xFFFF
            ==> renderable(size, output),
        renderable(size, output) ==> size.0 > 0 && size.1 > 0,
        !renderable(size, output) ==> size.0 == 0 || size.1 == 0 || size.0 * size.1 > usize::MAX
            || output.0 * output.1 > usize::MAX || output.0 * size.0 > usize::MAX || output.1
            * size.1 > usize::MAX,
{
    let (a, b, c, d) = (size.0 as int, size.1 as int, output.0 as int, output.1 as int);
    if a <= 0xFFFF && b <= 0xFFFF && c <= 0xFFFF && d <= 0xFFFF {
        assert(a * b <= 0xFFFF_FFFF && c * d <= 0xFFFF_FFFF && c * a <= 0xFFFF_FFFF && d * b
            <= 0xFFFF_FFFF) by (nonlinear_arith)
            requires
                0 <= a <= 0xFFFF,
                0 <= b <= 0xFFFF,
                0 <= c <= 0xFFFF,
                0 <= d <= 0xFFFF,
        ;
    }
}

} // verus!
