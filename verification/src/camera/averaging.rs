//! Averaging of thermal frames. Random per-pixel sensor noise is uncorrelated
//! between frames, so the mean of several converges to the true temperature.

use vstd::prelude::*;

use crate::bytes;

verus! {

/// The `i`-th 16-bit word of a frame, most significant byte first.
pub open spec fn word(frame: Seq<u8>, i: int) -> nat {
    bytes::big_endian(frame.subrange(2 * i, 2 * i + 2))
}

/// The sum of the `i`-th words of some frames.
pub open spec fn word_sum(frames: Seq<Seq<u8>>, i: int) -> nat
    decreases frames.len(),
{
    if frames.len() == 0 {
        0
    } else {
        word_sum(frames.drop_last(), i) + word(frames.last(), i)
    }
}

/// The average of some frames, word by word and rounded down; all zero if there
/// are none.
pub open spec fn averaged(frames: Seq<Seq<u8>>, words: nat) -> Seq<u16> {
    Seq::new(
        words,
        |i: int|
            if frames.len() == 0 {
                0u16
            } else {
                (word_sum(frames, i) / frames.len()) as u16
            },
    )
}

/// A word is a 16-bit number.
proof fn lemma_word(frame: Seq<u8>, i: int)
    requires
        0 <= i,
        2 * i + 2 <= frame.len(),
    ensures
        word(frame, i) <= 0xFFFF,
{
    reveal_with_fuel(bytes::big_endian, 3);
}

proof fn lemma_word_sum(frames: Seq<Seq<u8>>, i: int, words: nat)
    requires
        0 <= i < words,
        forall|k: int| 0 <= k < frames.len() ==> (#[trigger] frames[k]).len() >= 2 * words,
    ensures
        word_sum(frames, i) <= 0xFFFF * frames.len(),
    decreases frames.len(),
{
    if frames.len() > 0 {
        let before = frames.drop_last();
        assert forall|k: int| 0 <= k < before.len() implies (#[trigger] before[k]).len() >= 2
            * words by {
            assert(before[k] == frames[k]);
        }
        lemma_word_sum(before, i, words);
        assert(frames[frames.len() - 1].len() >= 2 * words);
        lemma_word(frames.last(), i);
    }
}

/// The average of equal frames is the frame.
pub proof fn law_average_of_equal_frames(frame: Seq<u8>, n: nat, words: nat)
    requires
        n > 0,
        frame.len() >= 2 * words,
    ensures
        averaged(Seq::new(n, |k: int| frame), words) == Seq::new(
            words,
            |i: int| word(frame, i) as u16,
        ),
{
    let frames = Seq::new(n, |k: int| frame);
    assert forall|i: int| 0 <= i < words implies averaged(frames, words)[i] == word(
        frame,
        i,
    ) as u16 by {
        lemma_repeated(frame, n, i);
        let w = word(frame, i);
        assert((n * w) / n == w) by (nonlinear_arith)
            requires
                n > 0,
        ;
    }
}

proof fn lemma_repeated(frame: Seq<u8>, n: nat, i: int)
    ensures
        word_sum(Seq::new(n, |k: int| frame), i) == n * word(frame, i),
    decreases n,
{
    if n > 0 {
        let before = (n - 1) as nat;
        lemma_repeated(frame, before, i);
        assert(Seq::new(n, |k: int| frame).drop_last() == Seq::new(before, |k: int| frame));
        assert(n * word(frame, i) == before * word(frame, i) + word(frame, i)) by (nonlinear_arith)
            requires
                n == before + 1,
        ;
    } else {
        assert(0 * word(frame, i) == 0);
    }
}

/// Sums thermal frames word by word.
pub struct FrameAverage {
    acc: Vec<u32>,
    n: u32,
    frames: Ghost<Seq<Seq<u8>>>,
}

impl View for FrameAverage {
    type V = Seq<Seq<u8>>;

    closed spec fn view(&self) -> Seq<Seq<u8>> {
        self.frames@
    }
}

impl FrameAverage {
    /// Words per frame.
    pub closed spec fn words(self) -> nat {
        self.acc@.len()
    }

    /// The sums are those of the frames taken in.
    pub closed spec fn wf(self) -> bool {
        &&& self.n == self@.len()
        &&& self.n <= 0xFFFF
        &&& forall|k: int| 0 <= k < self@.len() ==> (#[trigger] self@[k]).len() >= 2 * self.words()
        &&& forall|i: int|
            0 <= i < self.words() ==> #[trigger] self.acc@[i] == word_sum(self@, i)
    }

    /// No frames yet, of `words` words each.
    pub fn new(words: usize) -> (average: Self)
        ensures
            average.wf(),
            average.words() == words,
            average@ == Seq::<Seq<u8>>::empty(),
    {
        let mut acc: Vec<u32> = Vec::new();
        let mut i: usize = 0;
        while i < words
            invariant
                i <= words,
                acc@.len() == i,
                forall|k: int| 0 <= k < i ==> #[trigger] acc@[k] == 0,
            decreases words - i,
        {
            acc.push(0);
            i += 1;
        }
        FrameAverage { acc, n: 0, frames: Ghost(Seq::empty()) }
    }

    /// Take in one frame; one that is too short is left out.
    pub fn add_frame(&mut self, frame: &[u8])
        requires
            old(self).wf(),
            old(self)@.len() < 0xFFFF,
        ensures
            final(self).wf(),
            final(self).words() == old(self).words(),
            final(self)@ == if frame@.len() >= 2 * old(self).words() {
                old(self)@.push(frame@)
            } else {
                old(self)@
            },
    {
        let words = self.acc.len();
        if frame.len() / 2 < words {
            return;
        }
        let ghost frames = self@;
        let mut i: usize = 0;
        while i < words
            invariant
                i <= words,
                words == self.acc@.len(),
                frame@.len() >= 2 * words,
                frames == old(self)@,
                self.frames == old(self).frames,
                self.n == old(self).n,
                frames.len() < 0xFFFF,
                forall|k: int| 0 <= k < frames.len() ==> (#[trigger] frames[k]).len() >= 2 * words,
                forall|k: int|
                    0 <= k < words ==> #[trigger] self.acc@[k] == word_sum(frames, k) + if k < i {
                        word(frame@, k)
                    } else {
                        0
                    },
            decreases words - i,
        {
            proof {
                lemma_word_sum(frames, i as int, words as nat);
                lemma_word(frame@, i as int);
            }
            assert(2 * i + 2 <= frame.len());
            let w = bytes::read_u16_be(frame, 2 * i);
            let sum: u32 = self.acc[i] + w as u32;
            self.acc.set(i, sum);
            i += 1;
        }
        self.n = self.n + 1;
        self.frames = Ghost(frames.push(frame@));
        assert(frames.push(frame@).drop_last() == frames);
    }

    /// The average of the frames taken in.
    pub fn finish(&self) -> (words: Vec<u16>)
        requires
            self.wf(),
        ensures
            words@ == averaged(self@, self.words()),
    {
        let mut words: Vec<u16> = Vec::new();
        let mut i: usize = 0;
        while i < self.acc.len()
            invariant
                self.wf(),
                i <= self.acc@.len(),
                words@ == averaged(self@, self.words()).take(i as int),
            decreases self.acc@.len() - i,
        {
            let w: u16 = if self.n == 0 {
                0
            } else {
                proof {
                    lemma_word_sum(self@, i as int, self.words());
                    let sum = self.acc@[i as int];
                    assert(sum / self.n <= 0xFFFF) by (nonlinear_arith)
                        requires
                            sum <= 0xFFFF * self.n,
                            self.n > 0,
                    ;
                }
                (self.acc[i] / self.n) as u16
            };
            words.push(w);
            i += 1;
        }
        words
    }
}

/// A word is two bytes of its frame, the first of which counts 256 times as
/// much.
pub proof fn law_words_are_big_endian(frame: Seq<u8>, i: int)
    requires
        0 <= i,
        2 * i + 2 <= frame.len(),
    ensures
        word(frame, i) == 256 * frame[2 * i] + frame[2 * i + 1],
{
    reveal_with_fuel(bytes::big_endian, 3);
}

/// Every frame adds its own word to the sum, and no frames add up to nothing.
pub proof fn law_every_frame_counts(frames: Seq<Seq<u8>>, frame: Seq<u8>, i: int)
    requires
        0 <= i,
        2 * i + 2 <= frame.len(),
    ensures
        word_sum(Seq::empty(), i) == 0,
        word_sum(frames.push(frame), i) == word_sum(frames, i) + 256 * frame[2 * i] + frame[2 * i
            + 1],
{
    law_words_are_big_endian(frame, i);
    assert(frames.push(frame).drop_last() == frames);
}

/// The average is the mean of the frames, word by word, rounded down.
pub proof fn law_average_is_the_mean(frames: Seq<Seq<u8>>, words: nat, i: int)
    requires
        0 <= i < words,
        forall|k: int| 0 <= k < frames.len() ==> (#[trigger] frames[k]).len() >= 2 * words,
    ensures
        averaged(frames, words).len() == words,
        frames.len() == 0 ==> averaged(frames, words)[i] == 0,
        frames.len() > 0 ==> {
            let mean = averaged(frames, words)[i];
            mean * frames.len() <= word_sum(frames, i) < (mean + 1) * frames.len()
        },
{
    if frames.len() > 0 {
        lemma_word_sum(frames, i, words);
        let (sum, n) = (word_sum(frames, i), frames.len());
        assert(sum / n <= 0xFFFF && (sum / n) * n <= sum < (sum / n + 1) * n)
            by (nonlinear_arith)
            requires
                sum <= 0xFFFF * n,
                n > 0,
        ;
    }
}

} // verus!
