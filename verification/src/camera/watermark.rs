//! The watermark in the lower right corner of every picture: a one-bit mask,
//! packed most significant bit first, row by row without padding.

use vstd::prelude::*;

use super::image::RgbPixel;
use crate::bytes;

verus! {

/// Width of the pictures that carry the mark.
pub const OUTPUT_WIDTH: usize = 320;

/// Height of the pictures that carry the mark.
pub const OUTPUT_HEIGHT: usize = 240;

/// Distance of the mark from the right and lower edge.
pub const MARGIN: usize = 5;

/// A channel above this level is bright.
pub const BRIGHT: u8 = 128;

/// The `i`-th bit of a packed mask.
pub open spec fn mask_bit(mask: Seq<u8>, i: int) -> bool {
    (mask[i / 8] >> ((7 - i % 8) as u8)) & 1u8 == 1u8
}

/// The width of a packed mark: its first two bytes, little-endian.
pub open spec fn mark_width(data: Seq<u8>) -> nat {
    bytes::little_endian(data.subrange(0, 2))
}

/// The height of a packed mark: the two bytes behind the width, little-endian.
pub open spec fn mark_height(data: Seq<u8>) -> nat {
    bytes::little_endian(data.subrange(2, 4))
}

/// The data is a packed mark that fits into the picture: its size, then a bit
/// for every pixel.
pub open spec fn is_mark(data: Seq<u8>) -> bool {
    &&& data.len() >= 4
    &&& mark_width(data) + MARGIN <= OUTPUT_WIDTH
    &&& mark_height(data) + MARGIN <= OUTPUT_HEIGHT
    &&& data.len() >= 4 + (mark_width(data) * mark_height(data) + 7) / 8
}

/// The mark is white at a place of the picture: the place lies within the mark,
/// and the bit for it is set.
pub open spec fn white_at(data: Seq<u8>, dx: int, dy: int) -> bool {
    let (w, h) = (mark_width(data) as int, mark_height(data) as int);
    let (x, y) = (dx - (OUTPUT_WIDTH - w - MARGIN), dy - (OUTPUT_HEIGHT - h - MARGIN));
    0 <= x < w && 0 <= y < h && mask_bit(data.skip(4), y * w + x)
}

/// Whether some data is a packed mark that fits into the picture.
pub fn fits_picture(data: &[u8]) -> (fits: bool)
    ensures
        fits == is_mark(data@),
{
    if data.len() < 4 {
        return false;
    }
    let w: usize = bytes::read_u16_le(data, 0) as usize;
    let h: usize = bytes::read_u16_le(data, 2) as usize;
    if w > OUTPUT_WIDTH - MARGIN || h > OUTPUT_HEIGHT - MARGIN {
        return false;
    }
    assert(w * h <= 320 * 240) by (nonlinear_arith)
        requires
            0 <= w <= 320,
            0 <= h <= 240,
    ;
    data.len() - 4 >= (w * h + 7) / 8
}

/// A watermark, placed in the picture.
pub struct Watermark {
    data: Vec<u8>,
    w: usize,
    h: usize,
    x0: usize,
    y0: usize,
}

impl View for Watermark {
    type V = Seq<u8>;

    closed spec fn view(&self) -> Seq<u8> {
        self.data@
    }
}

impl Watermark {
    /// The mark is placed where its size puts it.
    pub closed spec fn wf(&self) -> bool {
        &&& is_mark(self@)
        &&& self.w == mark_width(self@)
        &&& self.h == mark_height(self@)
        &&& self.x0 == OUTPUT_WIDTH - self.w - MARGIN
        &&& self.y0 == OUTPUT_HEIGHT - self.h - MARGIN
    }

    /// Place a packed mark in the picture.
    pub fn new(data: Vec<u8>) -> (mark: Self)
        requires
            is_mark(data@),
        ensures
            mark.wf(),
            mark@ == data@,
    {
        let w = bytes::read_u16_le(data.as_slice(), 0) as usize;
        let h = bytes::read_u16_le(data.as_slice(), 2) as usize;
        Watermark {
            data,
            w,
            h,
            x0: OUTPUT_WIDTH - w - MARGIN,
            y0: OUTPUT_HEIGHT - h - MARGIN,
        }
    }
}

proof fn lemma_inside(w: int, h: int, x: int, y: int)
    requires
        0 <= x < w,
        0 <= y < h,
    ensures
        0 <= y * w,
        y * w + x < w * h,
{
    assert(0 <= y * w) by (nonlinear_arith)
        requires
            0 <= y,
            0 < w,
    ;
    assert(y * w + x < w * h) by (nonlinear_arith)
        requires
            0 <= x < w,
            0 <= y < h,
    ;
}

/// Whether the mark is white at a place of the picture.
pub fn is_white_at(mark: &Watermark, dx: usize, dy: usize) -> (white: bool)
    requires
        mark.wf(),
    ensures
        white == white_at(mark@, dx as int, dy as int),
{
    if dx < mark.x0 || dx >= mark.x0 + mark.w || dy < mark.y0 || dy >= mark.y0 + mark.h {
        return false;
    }
    proof {
        let (w, h) = (mark.w as int, mark.h as int);
        lemma_inside(w, h, dx - mark.x0, dy - mark.y0);
        assert(w * h <= 320 * 240) by (nonlinear_arith)
            requires
                0 <= w <= 320,
                0 <= h <= 240,
        ;
    }
    let idx: usize = (dy - mark.y0) * mark.w + (dx - mark.x0);
    let byte = mark.data[4 + idx / 8];
    assert(byte == mark@.skip(4)[idx as int / 8]);
    (byte >> ((7 - idx % 8) as u8)) & 1 == 1
}

/// A pixel is white if all its channels are bright.
pub open spec fn is_bright(pixel: RgbPixel) -> bool {
    pixel.red > BRIGHT && pixel.green > BRIGHT && pixel.blue > BRIGHT
}

/// Setting one bit of a byte leaves the others as they were.
proof fn lemma_set_bit(byte: u8, k: u8, j: u8)
    requires
        k < 8,
        j < 8,
    ensures
        ((byte | (1u8 << ((7 - k) as u8))) >> ((7 - j) as u8)) & 1u8 == if j == k {
            1u8
        } else {
            (byte >> ((7 - j) as u8)) & 1u8
        },
        (0u8 >> ((7 - j) as u8)) & 1u8 == 0u8,
{
    let a = (7 - k) as u8;
    let b = (7 - j) as u8;
    assert(a <= 7 && b <= 7 ==> ((byte | (1u8 << a)) >> b) & 1u8 == if a == b {
        1u8
    } else {
        (byte >> b) & 1u8
    }) by (bit_vector);
    assert(b <= 7 ==> (0u8 >> b) & 1u8 == 0u8) by (bit_vector);
}

/// The bits of a mask are the brightness of the first `n` pixels, and clear
/// behind them.
pub open spec fn masks(mask: Seq<u8>, pixels: Seq<RgbPixel>, n: int) -> bool {
    &&& mask.len() == (pixels.len() + 7) / 8
    &&& forall|i: int|
        0 <= i < 8 * mask.len() ==> #[trigger] mask_bit(mask, i) == (i < n && is_bright(pixels[i]))
}

/// Pack a `w`x`h` grid of pixels as a mark: its size, then one bit for every
/// pixel, set where the pixel is white.
pub fn pack_watermark(w: u16, h: u16, pixels: &[RgbPixel]) -> (data: Vec<u8>)
    requires
        pixels@.len() == w * h,
        pixels@.len() + 7 <= usize::MAX,
    ensures
        data@.take(4) == bytes::little_endian_digits(w as nat, 2) + bytes::little_endian_digits(
            h as nat,
            2,
        ),
        data@.len() >= 4,
        masks(data@.skip(4), pixels@, pixels@.len() as int),
{
    let count = pixels.len();
    let mut mask: Vec<u8> = Vec::new();
    let len: usize = (count + 7) / 8;
    let mut k: usize = 0;
    while k < len
        invariant
            k <= len,
            mask@.len() == k,
            forall|i: int| 0 <= i < k ==> #[trigger] mask@[i] == 0,
        decreases len - k,
    {
        mask.push(0);
        k += 1;
    }
    assert forall|i: int| 0 <= i < 8 * mask@.len() implies #[trigger] mask_bit(mask@, i)
        == false by {
        lemma_set_bit(0, 0, (i % 8) as u8);
        assert(mask@[i / 8] == 0);
    }
    let mut idx: usize = 0;
    while idx < count
        invariant
            idx <= count,
            count == pixels@.len(),
            masks(mask@, pixels@, idx as int),
        decreases count - idx,
    {
        let pixel = pixels[idx];
        let ghost before = mask@;
        if pixel.red > BRIGHT && pixel.green > BRIGHT && pixel.blue > BRIGHT {
            let byte = mask[idx / 8] | (1u8 << ((7 - idx % 8) as u8));
            mask.set(idx / 8, byte);
        }
        proof {
            assert forall|i: int| 0 <= i < 8 * mask@.len() implies #[trigger] mask_bit(mask@, i)
                == (i < idx + 1 && is_bright(pixels@[i])) by {
                assert(mask_bit(before, i) == (i < idx && is_bright(pixels@[i])));
                if i / 8 == idx as int / 8 {
                    lemma_set_bit(before[i / 8], (idx % 8) as u8, (i % 8) as u8);
                }
            }
        }
        idx += 1;
    }
    let mut data: Vec<u8> = Vec::new();
    bytes::push_u16_le(&mut data, w);
    bytes::push_u16_le(&mut data, h);
    let ghost head = data@;
    proof {
        reveal_with_fuel(bytes::little_endian_digits, 3);
    }
    data.extend_from_slice(mask.as_slice());
    assert(data@.take(4) == head);
    assert(data@.skip(4) == mask@);
    data
}

/// The width of a mark: a third of the picture's.
pub const MARK_WIDTH: u16 = 106;

/// The pixels of an image of `width` by `height` pixels, scaled to `w` by `h`
/// pixels with a triangle filter; all row by row.
pub uninterp spec fn triangle_scaled(
    pixels: Seq<RgbPixel>,
    width: u32,
    height: u32,
    w: u32,
    h: u32,
) -> Seq<RgbPixel>;

/// An image can be scaled: no side is longer than 16 bits tell, and the buffers
/// can be allocated. The one in between is as wide as the source and as high as
/// the result, with four numbers of 32 bits for every pixel.
pub open spec fn resizable(width: u32, height: u32, w: u32, h: u32) -> bool {
    &&& width <= 0xFFFF
    &&& height <= 0xFFFF
    &&& w <= 0xFFFF
    &&& h <= 0xFFFF
    &&& 3 * (width * height) <= isize::MAX
    &&& 16 * (width * h) <= isize::MAX
    &&& 3 * (w * h) <= isize::MAX
}

/// `image::imageops::resize` with `FilterType::Triangle` gives every pixel of
/// the size asked for, and they depend on the arguments alone. It panics if a
/// buffer cannot be allocated, and if a side is so long that its pixels cannot
/// be told apart in single precision.
#[verifier::external_body]
fn scale(pixels: &Vec<RgbPixel>, width: u32, height: u32, w: u32, h: u32) -> (scaled: Vec<
    RgbPixel,
>)
    requires
        pixels@.len() == width * height,
        resizable(width, height, w, h),
    ensures
        scaled@ == triangle_scaled(pixels@, width, height, w, h),
        scaled@.len() == w * h,
{
    let bytes = pixels.iter().flat_map(|p| [p.red, p.green, p.blue]).collect();
    let source = image::RgbImage::from_raw(width, height, bytes).unwrap_or_default();
    image::imageops::resize(&source, w, h, image::imageops::FilterType::Triangle)
        .pixels()
        .map(|p| RgbPixel { red: p[0], green: p[1], blue: p[2] })
        .collect()
}

/// Whether an image can be scaled.
pub fn can_resize(width: u32, height: u32, w: u32, h: u32) -> (able: bool)
    ensures
        able == resizable(width, height, w, h),
{
    if width > 0xFFFF || height > 0xFFFF || w > 0xFFFF || h > 0xFFFF {
        return false;
    }
    let most: u64 = isize::MAX as u64;
    proof {
        lemma_area(width as int, height as int);
        lemma_area(width as int, h as int);
        lemma_area(w as int, h as int);
    }
    3 * (width as u64 * height as u64) <= most && 16 * (width as u64 * h as u64) <= most && 3 * (
    w as u64 * h as u64) <= most
}

proof fn lemma_area(a: int, b: int)
    requires
        0 <= a <= 0xFFFF,
        0 <= b <= 0xFFFF,
    ensures
        0 <= a * b <= 0xFFFF * 0xFFFF,
{
    assert(0 <= a * b <= 0xFFFF * 0xFFFF) by (nonlinear_arith)
        requires
            0 <= a <= 0xFFFF,
            0 <= b <= 0xFFFF,
    ;
}

/// Make a mark of `w` by `h` pixels out of an image of any size: it is scaled
/// and packed.
pub fn build_watermark(pixels: &Vec<RgbPixel>, width: u32, height: u32, w: u16, h: u16) -> (data:
    Vec<u8>)
    requires
        pixels@.len() == width * height,
        resizable(width, height, w as u32, h as u32),
    ensures
        data@.take(4) == bytes::little_endian_digits(w as nat, 2) + bytes::little_endian_digits(
            h as nat,
            2,
        ),
        data@.len() >= 4,
        masks(
            data@.skip(4),
            triangle_scaled(pixels@, width, height, w as u32, h as u32),
            w * h,
        ),
{
    let scaled = scale(pixels, width, height, w as u32, h as u32);
    pack_watermark(w, h, scaled.as_slice())
}

/// What was packed is what is seen: a packed grid that fits into the picture is
/// a mark, and the mark is white exactly where its pixels are.
pub proof fn law_packed_mark_is_seen(
    w: u16,
    h: u16,
    pixels: Seq<RgbPixel>,
    data: Seq<u8>,
    x: int,
    y: int,
)
    requires
        pixels.len() == w * h,
        w + MARGIN <= OUTPUT_WIDTH,
        h + MARGIN <= OUTPUT_HEIGHT,
        data.len() >= 4,
        data.take(4) == bytes::little_endian_digits(w as nat, 2) + bytes::little_endian_digits(
            h as nat,
            2,
        ),
        masks(data.skip(4), pixels, pixels.len() as int),
        0 <= x < w,
        0 <= y < h,
    ensures
        is_mark(data),
        white_at(data, OUTPUT_WIDTH - MARGIN - w + x, OUTPUT_HEIGHT - MARGIN - h + y)
            == is_bright(pixels[y * w + x]),
{
    reveal_with_fuel(vstd::arithmetic::power::pow, 3);
    reveal_with_fuel(bytes::little_endian_digits, 3);
    bytes::law_little_endian_round_trip(w as nat, 2);
    bytes::law_little_endian_round_trip(h as nat, 2);
    assert(data.subrange(0, 2) == data.take(4).subrange(0, 2));
    assert(data.subrange(0, 2) == bytes::little_endian_digits(w as nat, 2));
    assert(data.subrange(2, 4) == data.take(4).subrange(2, 4));
    assert(data.subrange(2, 4) == bytes::little_endian_digits(h as nat, 2));
    lemma_inside(w as int, h as int, x, y);
    assert(mask_bit(data.skip(4), y * w + x) == is_bright(pixels[y * w + x]));
}

/// The bits of a byte stand in the order of their weight, the heaviest first.
pub proof fn law_bits_are_most_significant_first(mask: Seq<u8>, j: int)
    requires
        0 <= j < mask.len(),
    ensures
        mask_bit(mask, 8 * j) <==> mask[j] / 128 % 2 == 1,
        mask_bit(mask, 8 * j + 1) <==> mask[j] / 64 % 2 == 1,
        mask_bit(mask, 8 * j + 2) <==> mask[j] / 32 % 2 == 1,
        mask_bit(mask, 8 * j + 3) <==> mask[j] / 16 % 2 == 1,
        mask_bit(mask, 8 * j + 4) <==> mask[j] / 8 % 2 == 1,
        mask_bit(mask, 8 * j + 5) <==> mask[j] / 4 % 2 == 1,
        mask_bit(mask, 8 * j + 6) <==> mask[j] / 2 % 2 == 1,
        mask_bit(mask, 8 * j + 7) <==> mask[j] % 2 == 1,
{
    let byte = mask[j];
    assert((byte >> 7u8) & 1u8 == byte / 128 % 2 && (byte >> 6u8) & 1u8 == byte / 64 % 2 && (byte
        >> 5u8) & 1u8 == byte / 32 % 2 && (byte >> 4u8) & 1u8 == byte / 16 % 2 && (byte >> 3u8)
        & 1u8 == byte / 8 % 2 && (byte >> 2u8) & 1u8 == byte / 4 % 2 && (byte >> 1u8) & 1u8 == byte
        / 2 % 2 && (byte >> 0u8) & 1u8 == byte % 2) by (bit_vector);
}

/// A pixel counts as white if none of its channels is in the darker half.
pub proof fn law_white_pixels_are_bright(pixel: RgbPixel)
    ensures
        is_bright(pixel) <==> pixel.red >= 129 && pixel.green >= 129 && pixel.blue >= 129,
{
}

/// The size of a mark stands in its first four bytes, and data is a mark if this
/// size leaves the margin free and there is a bit for every pixel.
pub proof fn law_size_stands_ahead(data: Seq<u8>)
    requires
        data.len() >= 4,
    ensures
        mark_width(data) == data[0] + 256 * data[1],
        mark_height(data) == data[2] + 256 * data[3],
        is_mark(data) <==> data[0] + 256 * data[1] <= 315 && data[2] + 256 * data[3] <= 235 && 8 * (
        data.len() - 4) >= mark_width(data) * mark_height(data),
{
    bytes::law_little_endian_weights(data, 0);
    bytes::law_little_endian_weights(data, 2);
}

/// The mark ends five pixels from the right and the lower edge, its bits are
/// read row by row from behind the size, and nothing is white beside it.
pub proof fn law_mark_lies_in_the_corner(data: Seq<u8>, x: int, y: int)
    ensures
        ({
            let (w, h) = (mark_width(data) as int, mark_height(data) as int);
            white_at(data, 315 - w + x, 235 - h + y) <==> 0 <= x < w && 0 <= y < h && mask_bit(
                data.skip(4),
                y * w + x,
            )
        }),
{
}

/// A mask has a bit for every pixel and less than a byte to spare; the bits tell
/// which pixels are white, and the spare ones are clear.
pub proof fn law_masks_tell_white_pixels(mask: Seq<u8>, pixels: Seq<RgbPixel>, i: int)
    requires
        masks(mask, pixels, pixels.len() as int),
        0 <= i < 8 * mask.len(),
    ensures
        8 * mask.len() - 8 < pixels.len() <= 8 * mask.len(),
        mask_bit(mask, i) <==> i < pixels.len() && pixels[i].red >= 129 && pixels[i].green >= 129
            && pixels[i].blue >= 129,
{
}

/// An image of up to 2048 by 2048 pixels can be scaled to any size within that;
/// no image can of which a side does not fit into 16 bits.
pub proof fn law_ordinary_images_are_scaled(width: u32, height: u32, w: u32, h: u32)
    ensures
        width <= 2048 && height <= 2048 && w <= 2048 && h <= 2048 ==> resizable(
            width,
            height,
            w,
            h,
        ),
        resizable(width, height, w, h) ==> width <= 0xFFFF && height <= 0xFFFF && w <= 0xFFFF && h
            <= 0xFFFF,
        width <= 0xFFFF && height <= 0xFFFF && w <= 0xFFFF && h <= 0xFFFF && !resizable(
            width,
            height,
            w,
            h,
        ) ==> 3 * (width * height) > isize::MAX || 16 * (width * h) > isize::MAX || 3 * (w * h)
            > isize::MAX,
{
    if width <= 2048 && height <= 2048 && w <= 2048 && h <= 2048 {
        assert(width * height <= 0x40_0000 && width * h <= 0x40_0000 && w * h <= 0x40_0000)
            by (nonlinear_arith)
            requires
                0 <= width <= 2048,
                0 <= height <= 2048,
                0 <= w <= 2048,
                0 <= h <= 2048,
        ;
    }
}

} // verus!
