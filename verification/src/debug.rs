//! The USB debug link: a capture trigger typed by the host, and frames sent to
//! it.

use vstd::prelude::*;
#[allow(unused_imports)]
use vstd::string::*;

use crate::bytes;
use crate::camera::downscale;
use crate::camera::image::RgbPixel;

verus! {

/// Marks the start of a frame for the host.
pub const FRAME_MAGIC: [u8; 4] = [0xFF, 0xFE, 0xFD, 0xFC];

/// The most bytes kept while waiting for the trigger.
pub const RX_LIMIT: usize = 256;

/// The token the host sends to request a capture: `CAPTURE` in ASCII.
pub const TRIGGER: [u8; 7] = [0x43, 0x41, 0x50, 0x54, 0x55, 0x52, 0x45];

/// The token starts at `at`.
pub open spec fn token_at(rx: Seq<u8>, at: int) -> bool {
    0 <= at && at + TRIGGER@.len() <= rx.len() && rx.subrange(at, at + TRIGGER@.len() as int)
        == TRIGGER@
}

/// The last bytes of what was received, as far as they are kept.
pub open spec fn newest(rx: Seq<u8>) -> Seq<u8> {
    if rx.len() > RX_LIMIT {
        rx.skip(rx.len() - RX_LIMIT)
    } else {
        rx
    }
}

/// The debug link's receiving side: bytes read from the host, scanned for the
/// trigger.
pub struct DebugChannel {
    rx: Vec<u8>,
}

impl View for DebugChannel {
    type V = Seq<u8>;

    closed spec fn view(&self) -> Seq<u8> {
        self.rx@
    }
}

/// Find the first place where the token starts.
fn find_token(rx: &Vec<u8>) -> (at: Option<usize>)
    ensures
        at is None ==> forall|i: int| !token_at(rx@, i),
        at matches Some(i) ==> token_at(rx@, i as int) && forall|k: int|
            k < i ==> !token_at(rx@, k),
{
    let n = TRIGGER.len();
    let mut i: usize = 0;
    while i < rx.len() && rx.len() - i >= n
        invariant
            n == TRIGGER@.len(),
            i <= rx@.len(),
            forall|k: int| k < i ==> !token_at(rx@, k),
        decreases rx@.len() - i,
    {
        let mut matched: usize = 0;
        while matched < n && rx[i + matched] == TRIGGER[matched]
            invariant
                n == TRIGGER@.len(),
                matched <= n,
                i + n <= rx.len(),
                forall|k: int| 0 <= k < matched ==> rx@[i + k] == #[trigger] TRIGGER@[k],
            decreases n - matched,
        {
            matched += 1;
        }
        if matched == n {
            assert(rx@.subrange(i as int, i + n) == TRIGGER@);
            return Some(i);
        }
        proof {
            assert(rx@.subrange(i as int, i + n)[matched as int] != TRIGGER@[matched as int]);
        }
        i += 1;
    }
    None
}

impl DebugChannel {
    /// Nothing received yet.
    pub fn new() -> (channel: Self)
        ensures
            channel@ == Seq::<u8>::empty(),
    {
        let channel = DebugChannel { rx: Vec::new() };
        assert(channel@ =~= Seq::<u8>::empty());
        channel
    }

    /// Take in what the host sent and report whether the capture trigger has
    /// arrived since the last call. Only the newest bytes are kept, so stray
    /// console input cannot grow the buffer; a trigger is used up along with
    /// everything ahead of it.
    pub fn poll_trigger(&mut self, received: &[u8]) -> (triggered: bool)
        ensures
            final(self)@.len() <= RX_LIMIT,
            ({
                let kept = newest(old(self)@ + received@);
                if triggered {
                    exists|at: int|
                        {
                            &&& #[trigger] token_at(kept, at)
                            &&& forall|k: int| k < at ==> !token_at(kept, k)
                            &&& final(self)@ == kept.skip(at + TRIGGER@.len())
                        }
                } else {
                    (forall|at: int| !token_at(kept, at)) && final(self)@ == kept
                }
            }),
    {
        self.rx.extend_from_slice(received);
        let ghost all = self.rx@;
        assert(all == old(self)@ + received@);
        if self.rx.len() > RX_LIMIT {
            let excess: usize = self.rx.len() - RX_LIMIT;
            self.rx = self.rx.split_off(excess);
        }
        let ghost kept = self.rx@;
        assert(kept == newest(all));
        match find_token(&self.rx) {
            Some(at) => {
                assert(token_at(kept, at as int));
                self.rx = self.rx.split_off(at + TRIGGER.len());
                assert(self.rx@ == kept.skip(at + TRIGGER@.len()));
                true
            },
            None => false,
        }
    }
}

/// A number of pixels as the 16 bits that the header has for it.
pub open spec fn header_u16(n: nat) -> Seq<u8> {
    bytes::little_endian_digits(n % 0x1_0000, 2)
}

/// The size of a frame of `width` by `height` pixels, as the header gives it:
/// width and height in 16 bits each, then the bytes that follow in 32 bits.
pub open spec fn size_fields(width: nat, height: nat) -> Seq<u8> {
    header_u16(width) + header_u16(height) + bytes::little_endian_digits(
        width * height * 3 % 0x1_0000_0000,
        4,
    )
}

/// The header of a frame.
pub open spec fn frame_header(width: nat, height: nat) -> Seq<u8> {
    FRAME_MAGIC@ + size_fields(width, height)
}

/// The header of a frame that names its source: the name's length in one byte
/// and the name stand ahead of the size.
pub open spec fn named_header(name: Seq<u8>, width: nat, height: nat) -> Seq<u8> {
    FRAME_MAGIC@ + seq![(name.len() % 256) as u8] + name + size_fields(width, height)
}

fn push_size(out: &mut Vec<u8>, width: usize, height: usize)
    requires
        width * height * 3 <= usize::MAX,
    ensures
        final(out)@ == old(out)@ + size_fields(width as nat, height as nat),
{
    assert(width * height <= usize::MAX) by (nonlinear_arith)
        requires
            width * height * 3 <= usize::MAX,
    ;
    let len: u64 = (width * height * 3) as u64;
    bytes::push_u16_le(out, (width as u64 % 0x1_0000) as u16);
    bytes::push_u16_le(out, (height as u64 % 0x1_0000) as u16);
    bytes::push_u32_le(out, (len % 0x1_0000_0000) as u32);
}

/// The header of a frame of `width` by `height` pixels.
pub fn encode_header(width: usize, height: usize) -> (header: Vec<u8>)
    requires
        width * height * 3 <= usize::MAX,
    ensures
        header@ == frame_header(width as nat, height as nat),
{
    let mut header = vstd::slice::slice_to_vec(FRAME_MAGIC.as_slice());
    push_size(&mut header, width, height);
    header
}

/// The header of a frame of `width` by `height` pixels from the camera called
/// `name`.
pub fn encode_named_header(name: &str, width: usize, height: usize) -> (header: Vec<u8>)
    requires
        width * height * 3 <= usize::MAX,
    ensures
        header@ == named_header(vstd::utf8::encode_utf8(name@), width as nat, height as nat),
{
    let name = name.as_bytes();
    let mut header = vstd::slice::slice_to_vec(FRAME_MAGIC.as_slice());
    header.push((name.len() % 256) as u8);
    header.extend_from_slice(name);
    push_size(&mut header, width, height);
    header
}

/// The bytes of a frame's pixels: red, green and blue for each.
pub fn encode_pixels(pixels: &[RgbPixel]) -> (data: Vec<u8>)
    ensures
        data@ == downscale::rgb_bytes(pixels@),
{
    let mut data: Vec<u8> = Vec::new();
    let mut i: usize = 0;
    while i < pixels.len()
        invariant
            i <= pixels@.len(),
            data@ == downscale::rgb_bytes(pixels@.take(i as int)),
        decreases pixels@.len() - i,
    {
        let pixel = pixels[i];
        data.push(pixel.red);
        data.push(pixel.green);
        data.push(pixel.blue);
        assert(pixels@.take(i + 1).drop_last() == pixels@.take(i as int));
        i += 1;
    }
    assert(pixels@.take(i as int) == pixels@);
    data
}

/// The host reads the size of a frame back from its header, as long as the
/// fields can hold it.
pub proof fn law_header_gives_the_size(width: nat, height: nat)
    requires
        width < 0x1_0000,
        height < 0x1_0000,
        width * height * 3 < 0x1_0000_0000,
    ensures
        ({
            let header = frame_header(width, height);
            &&& header.len() == 12
            &&& header.take(4) == FRAME_MAGIC@
            &&& bytes::little_endian(header.subrange(4, 6)) == width
            &&& bytes::little_endian(header.subrange(6, 8)) == height
            &&& bytes::little_endian(header.subrange(8, 12)) == width * height * 3
        }),
{
    reveal_with_fuel(vstd::arithmetic::power::pow, 5);
    bytes::law_little_endian_round_trip(width, 2);
    bytes::law_little_endian_round_trip(height, 2);
    bytes::law_little_endian_round_trip(width * height * 3, 4);
    let header = frame_header(width, height);
    assert(header.take(4) == FRAME_MAGIC@);
    assert(header.subrange(4, 6) == header_u16(width));
    assert(header.subrange(6, 8) == header_u16(height));
    assert(header.subrange(8, 12) == bytes::little_endian_digits(width * height * 3, 4));
}

/// As many bytes follow a header as it says.
pub proof fn law_frame_length(pixels: Seq<RgbPixel>)
    ensures
        downscale::rgb_bytes(pixels).len() == 3 * pixels.len(),
    decreases pixels.len(),
{
    if pixels.len() > 0 {
        law_frame_length(pixels.drop_last());
    }
}

/// The token is the word the host types, letter by letter.
pub proof fn law_token_is_the_word(rx: Seq<u8>, at: int)
    ensures
        token_at(rx, at) <==> {
            &&& 0 <= at <= rx.len() - 7
            &&& rx[at] == 'C' as u8
            &&& rx[at + 1] == 'A' as u8
            &&& rx[at + 2] == 'P' as u8
            &&& rx[at + 3] == 'T' as u8
            &&& rx[at + 4] == 'U' as u8
            &&& rx[at + 5] == 'R' as u8
            &&& rx[at + 6] == 'E' as u8
        },
{
    if 0 <= at <= rx.len() - 7 {
        let word = rx.subrange(at, at + 7);
        assert(word[0] == rx[at] && word[1] == rx[at + 1] && word[2] == rx[at + 2] && word[3]
            == rx[at + 3] && word[4] == rx[at + 4] && word[5] == rx[at + 5] && word[6] == rx[at
            + 6]);
        if rx[at] == 0x43 && rx[at + 1] == 0x41 && rx[at + 2] == 0x50 && rx[at + 3] == 0x54 && rx[at
            + 4] == 0x55 && rx[at + 5] == 0x52 && rx[at + 6] == 0x45 {
            assert(word =~= TRIGGER@);
        }
    }
}

/// Of what was received all is kept up to 256 bytes, and of more the last 256.
pub proof fn law_newest_bytes_are_kept(rx: Seq<u8>, i: int)
    requires
        0 <= i < newest(rx).len(),
    ensures
        newest(rx).len() == rx.len() || newest(rx).len() == 256 && rx.len() > 256,
        newest(rx).len() <= 256,
        newest(rx)[newest(rx).len() - 1 - i] == rx[rx.len() - 1 - i],
{
}

/// The bytes of a header, each in its place: the mark of a frame, the size of
/// the picture and the length of its data, as far as the fields hold them.
pub proof fn law_header_bytes(width: nat, height: nat)
    ensures
        ({
            let h = frame_header(width, height);
            &&& h.len() == 12
            &&& h[0] == 0xFF && h[1] == 0xFE && h[2] == 0xFD && h[3] == 0xFC
            &&& h[4] + 256 * h[5] == width % 65536
            &&& h[6] + 256 * h[7] == height % 65536
            &&& h[8] + 256 * h[9] + 65536 * h[10] + 16777216 * h[11] == width * height * 3
                % 4294967296
        }),
{
    bytes::law_digits_add_up((width % 65536) as u16, (width * height * 3 % 4294967296) as u32);
    bytes::law_digits_add_up((height % 65536) as u16, 0);
}

/// A named header tells the length of the name and the name between the mark
/// and the size, which are as without a name.
pub proof fn law_named_header_bytes(name: Seq<u8>, width: nat, height: nat)
    ensures
        ({
            let h = named_header(name, width, height);
            let plain = frame_header(width, height);
            &&& h.len() == 13 + name.len()
            &&& h.take(4) == plain.take(4)
            &&& h[4] == name.len() % 256
            &&& h.subrange(5, 5 + name.len() as int) == name
            &&& h.skip(5 + name.len() as int) == plain.skip(4)
        }),
{
    law_header_bytes(width, height);
    let h = named_header(name, width, height);
    let plain = frame_header(width, height);
    bytes::law_digits_add_up((width % 65536) as u16, (width * height * 3 % 4294967296) as u32);
    bytes::law_digits_add_up((height % 65536) as u16, 0);
    assert(h.take(4) =~= plain.take(4));
    assert(h.subrange(5, 5 + name.len() as int) =~= name);
    assert(h.skip(5 + name.len() as int) =~= plain.skip(4));
}

} // verus!
