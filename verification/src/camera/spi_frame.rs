//! Reading a frame over SPI in chunks: a full frame exceeds what one
//! transaction can carry.

use vstd::prelude::*;

verus! {

/// One SPI transaction of a readout.
#[derive(Clone, Copy, Debug, PartialEq, Eq, Structural)]
pub struct Chunk {
    /// Where in the frame the chunk goes.
    pub offset: usize,
    /// How many bytes it has.
    pub bytes: usize,
    /// How many bits the transaction clocks.
    pub bits: usize,
}

/// The chunk that is read at an offset.
pub open spec fn chunk_at(offset: nat, frame_bytes: nat, chunk_bytes: nat) -> Chunk {
    let bytes = if frame_bytes - offset < chunk_bytes {
        frame_bytes - offset
    } else {
        chunk_bytes as int
    };
    Chunk { offset: offset as usize, bytes: bytes as usize, bits: (bytes * 8) as usize }
}

/// The progress of reading one frame. The slave stays selected throughout: it
/// pauses between the chunks and goes on with the same frame.
pub struct Readout {
    frame_bytes: usize,
    chunk_bytes: usize,
    offset: usize,
}

impl View for Readout {
    /// How many bytes were read.
    type V = nat;

    closed spec fn view(&self) -> nat {
        self.offset as nat
    }
}

impl Readout {
    /// The size of the frame.
    pub closed spec fn frame(&self) -> nat {
        self.frame_bytes as nat
    }

    /// The most bytes of one transaction.
    pub closed spec fn chunk(&self) -> nat {
        self.chunk_bytes as nat
    }

    /// Chunks hold something, their bits can be counted, and no more was read
    /// than the frame has.
    pub closed spec fn wf(&self) -> bool {
        &&& 0 < self.chunk_bytes
        &&& self.chunk_bytes * 8 <= usize::MAX || self.frame_bytes * 8 <= usize::MAX
        &&& self.offset <= self.frame_bytes
    }

    /// About to read the first chunk of a frame.
    pub fn new(frame_bytes: usize, chunk_bytes: usize) -> (readout: Self)
        requires
            0 < chunk_bytes,
            chunk_bytes * 8 <= usize::MAX || frame_bytes * 8 <= usize::MAX,
        ensures
            readout.wf(),
            readout@ == 0,
            readout.frame() == frame_bytes,
            readout.chunk() == chunk_bytes,
    {
        Readout { frame_bytes, chunk_bytes, offset: 0 }
    }

    /// The next chunk to read, or `None` at the end of the frame.
    pub fn next_chunk(&mut self) -> (next: Option<Chunk>)
        requires
            old(self).wf(),
        ensures
            final(self).wf(),
            final(self).frame() == old(self).frame(),
            final(self).chunk() == old(self).chunk(),
            next is None <==> old(self)@ == old(self).frame(),
            next is None ==> final(self)@ == old(self)@,
            next matches Some(chunk) ==> {
                &&& chunk == chunk_at(old(self)@, old(self).frame(), old(self).chunk())
                &&& chunk.offset == old(self)@
                &&& chunk.bits == 8 * chunk.bytes
                &&& 0 < chunk.bytes
                &&& final(self)@ == old(self)@ + chunk.bytes
                &&& final(self)@ <= old(self).frame()
            },
    {
        if self.offset == self.frame_bytes {
            return None;
        }
        let left: usize = self.frame_bytes - self.offset;
        let bytes: usize = if left < self.chunk_bytes {
            left
        } else {
            self.chunk_bytes
        };
        let chunk = Chunk { offset: self.offset, bytes, bits: bytes * 8 };
        self.offset = self.offset + bytes;
        Some(chunk)
    }
}

/// The chunks that are read from an offset on.
pub open spec fn chunks_from(offset: nat, frame_bytes: nat, chunk_bytes: nat) -> Seq<Chunk>
    decreases frame_bytes - offset,
{
    if offset >= frame_bytes || chunk_bytes == 0 {
        seq![]
    } else {
        let end = if frame_bytes - offset < chunk_bytes {
            frame_bytes
        } else {
            offset + chunk_bytes
        };
        seq![chunk_at(offset, frame_bytes, chunk_bytes)] + chunks_from(
            end,
            frame_bytes,
            chunk_bytes,
        )
    }
}

/// The chunks of a readout follow one another without gap or overlap, and end
/// with the frame: each byte of the frame is read exactly once.
pub proof fn law_chunks_cover_the_frame(offset: nat, frame_bytes: nat, chunk_bytes: nat)
    requires
        0 < chunk_bytes,
        chunk_bytes <= usize::MAX,
        offset <= frame_bytes <= usize::MAX,
    ensures
        ({
            let chunks = chunks_from(offset, frame_bytes, chunk_bytes);
            &&& forall|i: int|
                0 <= i < chunks.len() ==> 0 < (#[trigger] chunks[i]).bytes <= chunk_bytes
            &&& chunks.len() > 0 ==> chunks[0].offset == offset && chunks.last().offset
                + chunks.last().bytes == frame_bytes
            &&& chunks.len() == 0 <==> offset == frame_bytes
            &&& forall|i: int, j: int|
                0 <= i && j == i + 1 && j < chunks.len() ==> (#[trigger] chunks[j]).offset == (
                #[trigger] chunks[i]).offset + chunks[i].bytes
        }),
    decreases frame_bytes - offset,
{
    if offset < frame_bytes {
        let end = if frame_bytes - offset < chunk_bytes {
            frame_bytes
        } else {
            offset + chunk_bytes
        };
        law_chunks_cover_the_frame(end, frame_bytes, chunk_bytes);
        let chunks = chunks_from(offset, frame_bytes, chunk_bytes);
        let rest = chunks_from(end, frame_bytes, chunk_bytes);
        assert(chunks.len() == rest.len() + 1);
        assert(forall|i: int| 0 < i < chunks.len() ==> #[trigger] chunks[i] == rest[i - 1]);
        assert(chunks[0] == chunk_at(offset, frame_bytes, chunk_bytes));
        assert forall|i: int, j: int| 0 <= i && j == i + 1 && j < chunks.len() implies (
        #[trigger] chunks[j]).offset == (#[trigger] chunks[i]).offset + chunks[i].bytes by {
            assert(chunks[j] == rest[j - 1]);
            if i > 0 {
                assert(chunks[i] == rest[i - 1]);
            }
        }
    }
}

/// A chunk is as large as a transaction can carry, unless less than that is
/// left of the frame: then it is all that is left.
pub proof fn law_chunks_are_as_large_as_possible(offset: nat, frame_bytes: nat, chunk_bytes: nat)
    requires
        0 < chunk_bytes,
        chunk_bytes * 8 <= usize::MAX || frame_bytes * 8 <= usize::MAX,
        chunk_bytes <= usize::MAX,
        offset < frame_bytes <= usize::MAX,
    ensures
        ({
            let chunk = chunk_at(offset, frame_bytes, chunk_bytes);
            &&& chunk.offset == offset
            &&& chunk.bytes <= chunk_bytes
            &&& offset + chunk.bytes <= frame_bytes
            &&& chunk.bytes == chunk_bytes || offset + chunk.bytes == frame_bytes
            &&& chunk.bits == 8 * chunk.bytes
        }),
{
}

} // verus!
