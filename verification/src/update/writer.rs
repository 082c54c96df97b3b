//! Where the bytes of a firmware package belong: relay overhead is stripped,
//! the rest is cut into the chunks that go to flash one by one.

use vstd::prelude::*;

use crate::error::{Error, Result};

verus! {

/// The progress of an open update session that writes an image sequentially.
#[derive(Clone, Copy, Debug, PartialEq, Eq, Structural)]
pub struct Writer {
    /// The length of the image.
    pub total: u32,
    /// The bytes flashed so far.
    pub received: u32,
    /// The announced chunk size, or zero if none was announced.
    pub chunk_size: u16,
}

/// The smaller of two lengths.
pub open spec fn least(a: nat, b: nat) -> nat {
    if a <= b {
        a
    } else {
        b
    }
}

/// How many bytes of a package of `len` bytes are firmware as far as the
/// relay's framing tells, when `remaining` bytes of the image are still to
/// come: the whole chunks of a package in mid-transfer (or all of it, if it
/// holds none), the rest of the image for the final chunk, and everything if no
/// chunk size was announced.
pub open spec fn kept(remaining: nat, chunk_size: nat, len: nat) -> nat {
    if chunk_size == 0 {
        len
    } else if remaining <= chunk_size {
        least(remaining, len)
    } else if len < chunk_size {
        len
    } else {
        (len - len % chunk_size) as nat
    }
}

/// What comes next for the kept bytes of a package.
pub enum Cut {
    /// Nothing: the package or the image is used up.
    Done,
    /// A chunk of this many bytes.
    Chunk(nat),
    /// A chunk with too few bytes: how many there are, how many it needs.
    Short(nat, nat),
}

impl Writer {
    /// An image that is cut into chunks never grows past its length.
    pub open spec fn wf(self) -> bool {
        self.chunk_size > 0 ==> self.received <= self.total
    }

    /// The bytes of the image that are still to come.
    pub open spec fn remaining(self) -> nat {
        if self.received < self.total {
            (self.total - self.received) as nat
        } else {
            0
        }
    }

    /// The length of the next chunk of the image: a full chunk or, at the end,
    /// what remains; `left` if no chunk size was announced.
    pub open spec fn expected(self, left: nat) -> nat {
        if self.chunk_size == 0 {
            left
        } else {
            least(self.remaining(), self.chunk_size as nat)
        }
    }

    /// How to go on when `left` bytes of a package are not flashed yet.
    pub open spec fn cut(self, left: nat) -> Cut {
        if left == 0 || self.remaining() == 0 {
            Cut::Done
        } else if left < self.expected(left) {
            Cut::Short(left, self.expected(left))
        } else {
            Cut::Chunk(self.expected(left))
        }
    }

    /// The progress after `n` more bytes.
    pub open spec fn advanced(self, n: nat) -> Writer {
        Writer { received: (self.received + n) as u32, ..self }
    }

    /// Flashing `left` bytes at once, without cutting them to the image, stays
    /// within the range of an offset.
    pub open spec fn has_room(self, left: nat) -> bool {
        self.chunk_size == 0 && self.received < self.total ==> self.received + left <= u32::MAX
    }

    /// A session for an image of `total` bytes, with nothing flashed yet.
    pub fn begin(total: u32, chunk_size: u16) -> (writer: Self)
        ensures
            writer == (Writer { total, received: 0, chunk_size }),
            writer.wf(),
    {
        Writer { total, received: 0, chunk_size }
    }

    /// Strip the trailing bytes of a package that are relay overhead: anything
    /// beyond the last complete chunk, unless the remaining firmware bytes are
    /// no more than a chunk (final chunk).
    pub fn strip_relay_overhead<'a>(&self, raw: &'a [u8]) -> (payload: &'a [u8])
        ensures
            payload@ == raw@.take(
                kept(self.remaining(), self.chunk_size as nat, raw@.len()) as int,
            ),
    {
        let chunk_size = self.chunk_size as usize;
        if chunk_size == 0 {
            assert(raw@.take(raw@.len() as int) == raw@);
            return raw;
        }
        let remaining: usize = self.total.saturating_sub(self.received) as usize;
        if remaining <= chunk_size {
            let end: usize = if remaining <= raw.len() {
                remaining
            } else {
                raw.len()
            };
            vstd::slice::slice_subrange(raw, 0, end)
        } else if raw.len() / chunk_size > 0 {
            assert(raw.len() >= chunk_size) by (nonlinear_arith)
                requires
                    raw.len() / chunk_size > 0,
                    chunk_size > 0,
            ;
            let end: usize = raw.len() - raw.len() % chunk_size;
            vstd::slice::slice_subrange(raw, 0, end)
        } else {
            assert(raw.len() < chunk_size) by (nonlinear_arith)
                requires
                    raw.len() / chunk_size == 0,
                    chunk_size > 0,
            ;
            assert(raw@.take(raw@.len() as int) == raw@);
            raw
        }
    }

    /// A chunk shorter than expected is only acceptable as the image's last
    /// chunk.
    pub fn check_chunk_complete(&self, got: usize, expected: usize) -> (complete: Result<()>)
        requires
            self.received + got <= u32::MAX,
            expected <= u32::MAX,
        ensures
            complete == if self.chunk_size > 0 && got < expected && self.received + got
                < self.total {
                Err::<(), Error>(
                    Error::UpdateChunkIncomplete(self.received, got as u32, expected as u32),
                )
            } else {
                Ok(())
            },
    {
        let is_last = self.received + got as u32 >= self.total;
        let chunk_is_incomplete = self.chunk_size > 0 && got < expected;
        if chunk_is_incomplete && !is_last {
            return Err(
                Error::UpdateChunkIncomplete(self.received, got as u32, expected as u32),
            );
        }
        Ok(())
    }

    /// The length of the next chunk when `left` bytes of a package are not
    /// flashed yet, or `None` when the package or the image is used up. The
    /// bytes beyond the image are relay overhead.
    pub fn next_chunk(&self, left: usize) -> (chunk: Result<Option<usize>>)
        requires
            self.wf(),
            self.has_room(left as nat),
        ensures
            match self.cut(left as nat) {
                Cut::Done => chunk == Ok::<Option<usize>, Error>(None),
                Cut::Chunk(n) => n <= left && chunk == Ok::<Option<usize>, Error>(
                    Some(n as usize),
                ),
                Cut::Short(got, expected) => chunk == Err::<Option<usize>, Error>(
                    Error::UpdateChunkIncomplete(self.received, got as u32, expected as u32),
                ),
            },
    {
        let remaining: u32 = self.total.saturating_sub(self.received);
        if left == 0 || remaining == 0 {
            return Ok(None);
        }
        let expected: usize = if self.chunk_size == 0 {
            left
        } else if remaining <= self.chunk_size as u32 {
            remaining as usize
        } else {
            self.chunk_size as usize
        };
        let got: usize = if expected <= left {
            expected
        } else {
            left
        };
        match self.check_chunk_complete(got, expected) {
            Ok(()) => Ok(Some(got)),
            Err(e) => Err(e),
        }
    }

    /// Whether flashing `left` bytes stays within the range of an offset.
    pub fn is_room_for(&self, left: usize) -> (room: bool)
        ensures
            room == self.has_room(left as nat),
    {
        self.chunk_size > 0 || self.received >= self.total || left <= (u32::MAX
            - self.received) as usize
    }

    /// Count `n` more bytes as flashed.
    pub fn advance(&mut self, n: usize)
        requires
            old(self).received + n <= u32::MAX,
        ensures
            *final(self) == old(self).advanced(n as nat),
    {
        self.received = self.received + n as u32;
    }
}

/// In mid-transfer, relay overhead shorter than a chunk behind a whole number
/// of chunks is stripped, and nothing else is.
pub proof fn law_overhead_is_stripped(remaining: nat, chunk_size: nat, chunks: nat, overhead: nat)
    requires
        0 < chunk_size < remaining,
        chunks > 0,
        overhead < chunk_size,
    ensures
        kept(remaining, chunk_size, chunks * chunk_size + overhead) == chunks * chunk_size,
{
    let len = chunks * chunk_size + overhead;
    assert(chunks * chunk_size >= chunk_size) by (nonlinear_arith)
        requires
            chunks > 0,
    ;
    vstd::arithmetic::div_mod::lemma_fundamental_div_mod_converse(
        len as int,
        chunk_size as int,
        chunks as int,
        overhead as int,
    );
}

/// In the package of the final chunk, everything behind the image is stripped.
pub proof fn law_final_overhead_is_stripped(remaining: nat, chunk_size: nat, overhead: nat)
    requires
        remaining <= chunk_size,
        0 < chunk_size,
    ensures
        kept(remaining, chunk_size, remaining + overhead) == remaining,
{
}

/// Every chunk is a full one, except the one that completes the image.
pub proof fn law_chunks_are_full(writer: Writer, left: nat)
    requires
        writer.chunk_size > 0,
        writer.cut(left) is Chunk,
    ensures
        writer.cut(left) == Cut::Chunk(writer.chunk_size as nat) || writer.cut(left)
            == Cut::Chunk(writer.remaining()),
{
}

/// The lesser of two numbers is one of them, and no greater than either.
pub proof fn law_least_is_the_lesser(a: nat, b: nat)
    ensures
        least(a, b) <= a,
        least(a, b) <= b,
        least(a, b) == a || least(a, b) == b,
{
}

/// What is left of a package without its overhead: all of it if the chunk size
/// is unknown or the package is no longer than what is asked for; whole chunks
/// only, and as many as came, if more than a chunk is missing; never more than
/// is missing if that is a chunk at most.
pub proof fn law_kept_is_what_was_asked_for(remaining: nat, chunk_size: nat, len: nat)
    ensures
        chunk_size == 0 ==> kept(remaining, chunk_size, len) == len,
        0 < chunk_size < remaining && len < chunk_size ==> kept(remaining, chunk_size, len) == len,
        0 < chunk_size < remaining && len >= chunk_size ==> {
            let n = kept(remaining, chunk_size, len);
            n % chunk_size == 0 && n <= len < n + chunk_size
        },
        remaining <= chunk_size && 0 < chunk_size && len <= remaining ==> kept(
            remaining,
            chunk_size,
            len,
        ) == len,
        remaining <= chunk_size && 0 < chunk_size && len > remaining ==> kept(
            remaining,
            chunk_size,
            len,
        ) == remaining,
{
    if 0 < chunk_size < remaining && len >= chunk_size {
        vstd::arithmetic::div_mod::lemma_fundamental_div_mod(len as int, chunk_size as int);
        let q = len as int / chunk_size as int;
        vstd::arithmetic::div_mod::lemma_mod_multiples_basic(q, chunk_size as int);
        assert(chunk_size * q == q * chunk_size) by (nonlinear_arith);
        vstd::arithmetic::div_mod::lemma_mod_bound(len as int, chunk_size as int);
        assert(kept(remaining, chunk_size, len) == q * chunk_size);
    }
}

/// What is missing of an image, together with what was received, makes it up;
/// of an image that is complete nothing is missing.
pub proof fn law_remaining_completes_the_image(writer: Writer)
    ensures
        writer.received < writer.total ==> writer.received + writer.remaining() == writer.total,
        writer.received >= writer.total ==> writer.remaining() == 0,
{
}

/// The next chunk is a whole one, or all that is missing if that is less, or all
/// that came if the chunk size is unknown. One that is shorter is refused, and
/// there is none once nothing is left or missing.
pub proof fn law_chunks_are_whole(writer: Writer, left: nat)
    ensures
        left == 0 || writer.received >= writer.total <==> writer.cut(left) is Done,
        left > 0 && writer.received < writer.total ==> {
            let missing = writer.total - writer.received;
            let size = writer.chunk_size;
            &&& size == 0 ==> writer.cut(left) == Cut::Chunk(left)
            &&& 0 < size <= missing && left >= size ==> writer.cut(left) == Cut::Chunk(size as nat)
            &&& 0 < size <= missing && left < size ==> writer.cut(left) == Cut::Short(
                left,
                size as nat,
            )
            &&& missing < size && left >= missing ==> writer.cut(left) == Cut::Chunk(
                missing as nat,
            )
            &&& missing < size && left < missing ==> writer.cut(left) == Cut::Short(
                left,
                missing as nat,
            )
        },
{
}

/// A chunk adds its length to what was received, and nothing else changes.
pub proof fn law_chunks_add_up(writer: Writer, n: nat)
    requires
        writer.received + n <= u32::MAX,
    ensures
        writer.advanced(n).received == writer.received + n,
        writer.advanced(n).total == writer.total,
        writer.advanced(n).chunk_size == writer.chunk_size,
{
}

/// Only a package without a chunk size can be too long to count, and only while
/// something is missing.
pub proof fn law_room_ends_with_the_counter(writer: Writer, left: nat)
    ensures
        writer.has_room(left) <==> writer.chunk_size > 0 || writer.received >= writer.total
            || writer.received + left <= 0xFFFF_FFFF,
{
}

} // verus!
