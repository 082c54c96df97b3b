//! The image every camera produces.

use vstd::prelude::*;

verus! {

/// An RGB pixel, eight bits per channel.
#[derive(Clone, Copy, Debug, PartialEq, Eq, Structural)]
pub struct RgbPixel {
    /// Red level.
    pub red: u8,
    /// Green level.
    pub green: u8,
    /// Blue level.
    pub blue: u8,
}

impl RgbPixel {
    /// A pixel of the given levels.
    pub fn new(red: u8, green: u8, blue: u8) -> (pixel: Self)
        ensures
            pixel == (RgbPixel { red, green, blue }),
    {
        RgbPixel { red, green, blue }
    }
}

/// An image as a plain value: a row-major grid of pixels, and how many of them
/// were handed out.
pub struct Picture {
    /// Pixels per row.
    pub width: nat,
    /// Rows.
    pub height: nat,
    /// The pixels, row by row.
    pub pixels: Seq<RgbPixel>,
    /// How many pixels were asked for so far.
    pub taken: nat,
}

impl Picture {
    /// The grid is full.
    pub open spec fn wf(self) -> bool {
        self.pixels.len() == self.width * self.height
    }

    /// The pixels not handed out yet.
    pub open spec fn upcoming(self) -> Seq<RgbPixel> {
        if self.taken <= self.pixels.len() {
            self.pixels.skip(self.taken as int)
        } else {
            seq![]
        }
    }

    /// The pixel at a column and row.
    pub open spec fn at(self, x: int, y: int) -> RgbPixel {
        self.pixels[y * self.width + x]
    }
}

/// The row-major pixels of a `width`x`height` grid whose pixel at column `x` and
/// row `y` is `color(x, y)`.
pub open spec fn raster(
    width: nat,
    height: nat,
    color: spec_fn(int, int) -> RgbPixel,
) -> Seq<RgbPixel> {
    Seq::new(width * height, |i: int| color(i % width as int, i / width as int))
}

/// A picture drawn pixel by pixel, none of it handed out yet.
pub open spec fn drawn(width: nat, height: nat, color: spec_fn(int, int) -> RgbPixel) -> Picture {
    Picture { width, height, pixels: raster(width, height, color), taken: 0 }
}

/// The pixel of a drawn picture at a column and row is the color drawn there.
pub proof fn law_drawn_pixel(
    width: nat,
    height: nat,
    color: spec_fn(int, int) -> RgbPixel,
    x: int,
    y: int,
)
    requires
        0 <= x < width,
        0 <= y < height,
    ensures
        drawn(width, height, color).wf(),
        drawn(width, height, color).at(x, y) == color(x, y),
{
    lemma_index(width, height, x, y);
}

/// The place of a column and row in a row-major grid.
pub proof fn lemma_index(width: nat, height: nat, x: int, y: int)
    requires
        0 <= x < width,
        0 <= y < height,
    ensures
        0 <= y * width + x < width * height,
        (y * width + x) % width as int == x,
        (y * width + x) / width as int == y,
{
    vstd::arithmetic::div_mod::lemma_fundamental_div_mod_converse(
        y * width + x,
        width as int,
        y,
        x,
    );
    assert(0 <= y * width) by (nonlinear_arith)
        requires
            0 <= y,
            0 <= width,
    ;
    assert(y * width + x < width * height) by (nonlinear_arith)
        requires
            0 <= x < width,
            0 <= y < height,
    ;
}

/// A ready-to-encode image: a row-major grid of RGB pixels, produced by any
/// camera.
///
/// Each camera builds its own pixels (RGB demosaic vs. grayscale thermal) at
/// its configured output resolution and hands them here via
/// [`Image::from_pixels`].
#[derive(Debug)]
pub struct Image {
    pixels: Vec<RgbPixel>,
    index: usize,
    width: usize,
    height: usize,
}

impl View for Image {
    type V = Picture;

    closed spec fn view(&self) -> Picture {
        Picture {
            width: self.width as nat,
            height: self.height as nat,
            pixels: self.pixels@,
            taken: self.index as nat,
        }
    }
}

impl Image {
    /// Wrap an already-built, row-major `width`x`height` pixel buffer.
    pub fn from_pixels(width: usize, height: usize, pixels: Vec<RgbPixel>) -> (image: Self)
        requires
            pixels@.len() == width * height,
        ensures
            image@ == (Picture {
                width: width as nat,
                height: height as nat,
                pixels: pixels@,
                taken: 0,
            }),
            image@.wf(),
    {
        Image { pixels, index: 0, width, height }
    }

    /// Pixels per row.
    pub fn width(&self) -> (width: usize)
        ensures
            width == self@.width,
    {
        self.width
    }

    /// Rows.
    pub fn height(&self) -> (height: usize)
        ensures
            height == self@.height,
    {
        self.height
    }

    /// The row-major pixel grid.
    pub fn pixels(&self) -> (pixels: &[RgbPixel])
        ensures
            pixels@ == self@.pixels,
    {
        self.pixels.as_slice()
    }

    /// Mutable access to the row-major pixel grid, e.g. for overlays.
    pub fn pixels_mut(&mut self) -> (pixels: &mut [RgbPixel])
        ensures
            pixels@ == old(self)@.pixels,
            final(self)@ == (Picture { pixels: final(pixels)@, ..old(self)@ }),
    {
        self.pixels.as_mut_slice()
    }

    /// Hand out the next pixel, or `None` once every pixel was handed out.
    pub fn next(&mut self) -> (pixel: Option<RgbPixel>)
        requires
            old(self)@.taken < usize::MAX,
        ensures
            final(self)@ == (Picture { taken: old(self)@.taken + 1, ..old(self)@ }),
            pixel == if old(self)@.taken < old(self)@.pixels.len() {
                Some(old(self)@.pixels[old(self)@.taken as int])
            } else {
                None
            },
    {
        let pixel = if self.index < self.pixels.len() {
            Some(self.pixels[self.index])
        } else {
            None
        };
        self.index = self.index + 1;
        pixel
    }

    /// The pixels not handed out yet.
    pub fn into_upcoming(self) -> (pixels: Vec<RgbPixel>)
        ensures
            pixels@ == self@.upcoming(),
    {
        if self.index <= self.pixels.len() {
            vstd::slice::slice_to_vec(
                vstd::slice::slice_subrange(
                    self.pixels.as_slice(),
                    self.index,
                    self.pixels.len(),
                ),
            )
        } else {
            Vec::new()
        }
    }
}

/// A drawn picture is stored row by row: the pixel of column `x` and row `y`
/// stands behind `y` whole rows and `x` pixels. It is full, and all of it is
/// still to be handed out.
pub proof fn law_pictures_are_stored_by_rows(
    width: nat,
    height: nat,
    color: spec_fn(int, int) -> RgbPixel,
)
    ensures
        ({
            let picture = drawn(width, height, color);
            &&& picture.width == width
            &&& picture.height == height
            &&& picture.pixels.len() == width * height
            &&& picture.upcoming() == picture.pixels
            &&& forall|x: int, y: int|
                #![trigger color(x, y)]
                0 <= x < width && 0 <= y < height ==> picture.pixels[y * width + x] == color(x, y)
        }),
{
    let picture = drawn(width, height, color);
    assert forall|x: int, y: int| #![trigger color(x, y)] 0 <= x < width && 0 <= y
        < height implies picture.pixels[y * width + x] == color(x, y) by {
        lemma_index(width, height, x, y);
    }
    assert(picture.upcoming() =~= picture.pixels);
}

/// What is still to be handed out are the pixels behind those that were.
pub proof fn law_upcoming_pixels_follow(picture: Picture)
    requires
        picture.taken <= picture.pixels.len(),
    ensures
        picture.upcoming().len() == picture.pixels.len() - picture.taken,
        forall|i: int|
            0 <= i < picture.upcoming().len() ==> picture.upcoming()[i]
                == picture.pixels[picture.taken + i],
{
}

/// A picture that was handed out in full, and asked for more since, has nothing
/// left.
pub proof fn law_nothing_follows_the_last_pixel(picture: Picture)
    requires
        picture.taken >= picture.pixels.len(),
    ensures
        picture.upcoming().len() == 0,
{
}

} // verus!
