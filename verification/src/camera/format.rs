//! Raw frame formats: color-filter layout, pixel packing and frame sizes.

use vstd::prelude::*;

verus! {

/// Color-filter-array layout of a Bayer sensor, named by the colors of the
/// top-left 2x2 quad in row-major order.
#[derive(Clone, Copy, Debug, PartialEq, Eq, Structural)]
pub enum BayerOrder {
    /// Red first, blue diagonally opposite.
    Rggb,
    /// Blue first, red diagonally opposite.
    Bggr,
    /// Green first, red beside it.
    Grbg,
    /// Green first, blue beside it.
    Gbrg,
}

/// One color site of a Bayer mosaic.
#[derive(Clone, Copy, Debug, PartialEq, Eq, Structural)]
pub enum BayerChannel {
    /// A red site.
    Red,
    /// A green site.
    Green,
    /// A blue site.
    Blue,
}

impl BayerOrder {
    /// Row and column parity of the red sites.
    pub open spec fn red_site(self) -> (int, int) {
        match self {
            BayerOrder::Rggb => (0, 0),
            BayerOrder::Bggr => (1, 1),
            BayerOrder::Grbg => (0, 1),
            BayerOrder::Gbrg => (1, 0),
        }
    }

    /// The color at a row and column. Red and blue sites lie diagonally across
    /// each quad; the others are green.
    pub open spec fn channel(self, row: int, col: int) -> BayerChannel {
        let (red_row, red_col) = self.red_site();
        if row % 2 == red_row && col % 2 == red_col {
            BayerChannel::Red
        } else if row % 2 != red_row && col % 2 != red_col {
            BayerChannel::Blue
        } else {
            BayerChannel::Green
        }
    }

    /// The color at a pixel given its row and column; only their parity
    /// matters.
    pub fn channel_at(self, row: usize, col: usize) -> (channel: BayerChannel)
        ensures
            channel == self.channel(row as int, col as int),
    {
        match (self, row % 2, col % 2) {
            (BayerOrder::Rggb, 0, 0) | (BayerOrder::Bggr, 1, 1) => BayerChannel::Red,
            (BayerOrder::Rggb, 1, 1) | (BayerOrder::Bggr, 0, 0) => BayerChannel::Blue,
            (BayerOrder::Grbg, 0, 1) | (BayerOrder::Gbrg, 1, 0) => BayerChannel::Red,
            (BayerOrder::Grbg, 1, 0) | (BayerOrder::Gbrg, 0, 1) => BayerChannel::Blue,
            _ => BayerChannel::Green,
        }
    }

    /// Column parity of the green sites on even rows (every order has green on
    /// exactly one column parity there), used for green-only luma sampling.
    pub fn green_col_parity_on_even_rows(self) -> (parity: usize)
        ensures
            parity < 2,
            forall|row: int, col: int|
                row % 2 == 0 ==> (#[trigger] self.channel(row, col) is Green <==> col % 2 == parity),
    {
        match self {
            BayerOrder::Rggb | BayerOrder::Bggr => 1,
            BayerOrder::Grbg | BayerOrder::Gbrg => 0,
        }
    }
}

/// How many sites of the 2x2 quad at a row and column have the given color.
pub open spec fn quad_count(order: BayerOrder, row: int, col: int, color: BayerChannel) -> int {
    let one = |r: int, c: int| if order.channel(r, c) == color { 1int } else { 0int };
    one(row, col) + one(row, col + 1) + one(row + 1, col) + one(row + 1, col + 1)
}

/// Every 2x2 quad holds one red, one blue and two green sites, wherever it
/// starts.
pub proof fn law_quad_is_balanced(order: BayerOrder, row: int, col: int)
    ensures
        quad_count(order, row, col, BayerChannel::Red) == 1,
        quad_count(order, row, col, BayerChannel::Blue) == 1,
        quad_count(order, row, col, BayerChannel::Green) == 2,
{
}

/// Pixel layout of the raw frames a sensor emits on its data interface.
#[derive(Clone, Copy, Debug, PartialEq, Eq, Structural)]
pub enum PixelFormat {
    /// 8-bit raw Bayer mosaic, one byte per pixel.
    Raw8(BayerOrder),
    /// Packed 10-bit raw Bayer mosaic: 4 pixels per 5-byte group, with each
    /// pixel's 8 most significant bits in bytes 0 to 3 and the four 2-bit
    /// remainders in byte 4.
    Raw10(BayerOrder),
    /// 16-bit grayscale samples, most significant byte first on the wire
    /// (e.g. thermal temperature counts).
    Gray16,
}

/// What a sensor puts on the wire: the pairing contract between a sensor (which
/// declares it) and a transport (which is configured with it).
#[derive(Clone, Copy, Debug, PartialEq, Eq, Structural)]
pub struct FrameFormat {
    /// Width of the frame in pixels.
    pub width: usize,
    /// Height of the frame in pixels.
    pub height: usize,
    /// Layout of the pixel data.
    pub pixel: PixelFormat,
}

impl FrameFormat {
    /// Bytes per row of raw frame data.
    pub open spec fn row_len(self) -> nat {
        match self.pixel {
            PixelFormat::Raw8(_) => self.width as nat,
            PixelFormat::Raw10(_) => (self.width * 10 / 8) as nat,
            PixelFormat::Gray16 => (self.width * 2) as nat,
        }
    }

    /// Total bytes in one raw frame.
    pub open spec fn frame_len(self) -> nat {
        self.row_len() * self.height as nat
    }

    /// The bits of a row and the bytes of a frame can be counted.
    pub open spec fn countable(self) -> bool {
        &&& match self.pixel {
            PixelFormat::Raw8(_) => true,
            PixelFormat::Raw10(_) => self.width * 10 <= usize::MAX,
            PixelFormat::Gray16 => self.width * 2 <= usize::MAX,
        }
        &&& self.frame_len() <= usize::MAX
    }

    /// Bytes per row of raw frame data.
    pub fn row_bytes(&self) -> (bytes: usize)
        requires
            match self.pixel {
                PixelFormat::Raw8(_) => true,
                PixelFormat::Raw10(_) => self.width * 10 <= usize::MAX,
                PixelFormat::Gray16 => self.width * 2 <= usize::MAX,
            },
        ensures
            bytes == self.row_len(),
    {
        match self.pixel {
            PixelFormat::Raw8(_) => self.width,
            PixelFormat::Raw10(_) => self.width * 10 / 8,
            PixelFormat::Gray16 => self.width * 2,
        }
    }

    /// Total bytes in one raw frame.
    pub fn bytes_per_frame(&self) -> (bytes: usize)
        requires
            self.countable(),
        ensures
            bytes == self.frame_len(),
    {
        self.row_bytes() * self.height
    }
}

/// A packed row of whole groups takes five bytes for every four pixels.
pub proof fn law_packed_rows_are_whole_groups(format: FrameFormat)
    requires
        format.pixel is Raw10,
        format.width % 4 == 0,
    ensures
        format.row_len() == format.width / 4 * 5,
{
}

/// An order is named after the colors of its quads, row by row: the mosaic
/// repeats them in both directions, all over the frame.
pub proof fn law_mosaic_repeats_its_name(order: BayerOrder, row: int, col: int)
    requires
        0 <= row,
        0 <= col,
    ensures
        ({
            let (r, g, b) = (BayerChannel::Red, BayerChannel::Green, BayerChannel::Blue);
            let name: Seq<BayerChannel> = match order {
                BayerOrder::Rggb => seq![r, g, g, b],
                BayerOrder::Bggr => seq![b, g, g, r],
                BayerOrder::Grbg => seq![g, r, b, g],
                BayerOrder::Gbrg => seq![g, b, r, g],
            };
            order.channel(row, col) == name[2 * (row % 2) + col % 2]
        }),
        order.channel(row + 2, col) == order.channel(row, col),
        order.channel(row, col + 2) == order.channel(row, col),
{
}

/// A row takes up as many whole bytes as its pixels have bits for, and a frame
/// is its rows.
pub proof fn law_rows_hold_their_bits(format: FrameFormat)
    ensures
        ({
            let bits = match format.pixel {
                PixelFormat::Raw8(_) => 8int,
                PixelFormat::Raw10(_) => 10,
                PixelFormat::Gray16 => 16,
            };
            &&& 8 * format.row_len() <= format.width * bits < 8 * format.row_len() + 8
            &&& format.frame_len() == format.height * format.row_len()
        }),
{
    assert(format.row_len() * format.height as nat == format.height * format.row_len())
        by (nonlinear_arith);
}

/// Every frame whose sides fit into 15 bits can be counted.
pub proof fn law_ordinary_frames_are_countable(format: FrameFormat)
    requires
        format.width <= 0x7FFF,
        format.height <= 0x7FFF,
    ensures
        format.countable(),
{
    let (w, h) = (format.row_len() as int, format.height as int);
    assert(w * h <= 0xFFFF_FFFF) by (nonlinear_arith)
        requires
            0 <= w <= 0x1_0000,
            0 <= h <= 0x7FFF,
    ;
}

} // verus!
