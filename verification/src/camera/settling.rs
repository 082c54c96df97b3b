//! Settling before the kept capture: converge auto-exposure within a fixed
//! frame budget, then discard a few warm-up frames so the stream stabilises.

use vstd::prelude::*;

verus! {

/// Frame budget for auto-exposure convergence: at most this many metered frames
/// before the capture proceeds with whatever operating point was reached.
pub const AUTO_EXPOSURE_MAX_ITERS: u32 = 6;

/// Frames to capture and discard before the kept capture.
pub const WARMUP_FRAMES: u32 = 2;

/// What metering a frame came to.
#[derive(Clone, Copy, Debug, PartialEq, Eq, Structural)]
pub enum Metered {
    /// No frame arrived.
    Missed,
    /// The frame is within the converged band.
    Converged,
    /// The operating point was moved.
    Adjusted,
}

/// What to do next.
#[derive(Clone, Copy, Debug, PartialEq, Eq, Structural)]
pub enum SettleStep {
    /// Meter a frame and move the operating point if need be.
    Meter,
    /// Let a frame pass.
    Discard,
    /// Nothing: the camera has settled.
    Done,
}

/// The progress of settling.
#[derive(Clone, Copy, Debug, PartialEq, Eq, Structural)]
pub struct Settling {
    /// Frames metered so far, or missed.
    pub metered: u32,
    /// Auto-exposure has converged.
    pub converged: bool,
    /// Frames discarded so far.
    pub discarded: u32,
}

impl Settling {
    /// The budgets are kept.
    pub open spec fn wf(self) -> bool {
        &&& self.metered <= AUTO_EXPOSURE_MAX_ITERS
        &&& self.discarded <= WARMUP_FRAMES
        &&& self.discarded > 0 ==> self.converged || self.metered == AUTO_EXPOSURE_MAX_ITERS
    }

    /// Frames that may still be used, at most.
    pub open spec fn budget(self) -> int {
        WARMUP_FRAMES - self.discarded + if self.converged {
            0
        } else {
            AUTO_EXPOSURE_MAX_ITERS - self.metered
        }
    }

    /// What comes next: metering until it converges or its budget is used up,
    /// then the warm-up frames.
    pub open spec fn upcoming(self) -> SettleStep {
        if !self.converged && self.metered < AUTO_EXPOSURE_MAX_ITERS {
            SettleStep::Meter
        } else if self.discarded < WARMUP_FRAMES {
            SettleStep::Discard
        } else {
            SettleStep::Done
        }
    }

    /// Nothing metered or discarded yet.
    pub fn new() -> (settling: Self)
        ensures
            settling == (Settling { metered: 0, converged: false, discarded: 0 }),
            settling.wf(),
    {
        Settling { metered: 0, converged: false, discarded: 0 }
    }

    /// What to do next.
    pub fn next_step(&self) -> (step: SettleStep)
        requires
            self.wf(),
        ensures
            step == self.upcoming(),
            step is Done <==> self.budget() == 0,
    {
        if !self.converged && self.metered < AUTO_EXPOSURE_MAX_ITERS {
            SettleStep::Meter
        } else if self.discarded < WARMUP_FRAMES {
            SettleStep::Discard
        } else {
            SettleStep::Done
        }
    }

    /// Take in the outcome of metering a frame.
    pub fn record(&mut self, outcome: Metered)
        requires
            old(self).wf(),
            old(self).upcoming() is Meter,
        ensures
            final(self).wf(),
            *final(self) == (Settling {
                metered: (old(self).metered + 1) as u32,
                converged: outcome is Converged,
                discarded: old(self).discarded,
            }),
            final(self).budget() < old(self).budget(),
    {
        self.metered = self.metered + 1;
        if let Metered::Converged = outcome {
            self.converged = true;
        }
    }

    /// Count a discarded frame.
    pub fn record_discard(&mut self)
        requires
            old(self).wf(),
            old(self).upcoming() is Discard,
        ensures
            final(self).wf(),
            *final(self) == (Settling {
                discarded: (old(self).discarded + 1) as u32,
                ..*old(self)
            }),
            final(self).budget() == old(self).budget() - 1,
    {
        self.discarded = self.discarded + 1;
    }
}

/// The progress after `n` steps from the start, when metering the `i`-th frame
/// comes to `outcome(i)`.
pub open spec fn settled(n: nat, outcome: spec_fn(int) -> Metered) -> Settling
    decreases n,
{
    if n == 0 {
        Settling { metered: 0, converged: false, discarded: 0 }
    } else {
        let before = settled((n - 1) as nat, outcome);
        match before.upcoming() {
            SettleStep::Meter => Settling {
                metered: (before.metered + 1) as u32,
                converged: outcome(before.metered as int) is Converged,
                ..before
            },
            SettleStep::Discard => Settling {
                discarded: (before.discarded + 1) as u32,
                ..before
            },
            SettleStep::Done => before,
        }
    }
}

proof fn lemma_settled(n: nat, outcome: spec_fn(int) -> Metered)
    ensures
        settled(n, outcome).wf(),
        0 <= settled(n, outcome).budget(),
        settled(n, outcome).budget() <= AUTO_EXPOSURE_MAX_ITERS + WARMUP_FRAMES - n
            || settled(n, outcome).upcoming() is Done,
    decreases n,
{
    if n > 0 {
        lemma_settled((n - 1) as nat, outcome);
    }
}

/// Whatever the frames show, settling ends within the frame budget, and always
/// with both warm-up frames.
pub proof fn law_settling_ends(outcome: spec_fn(int) -> Metered)
    ensures
        ({
            let end = settled((AUTO_EXPOSURE_MAX_ITERS + WARMUP_FRAMES) as nat, outcome);
            &&& end.upcoming() is Done
            &&& end.metered <= AUTO_EXPOSURE_MAX_ITERS
            &&& end.discarded == WARMUP_FRAMES
        }),
{
    lemma_settled((AUTO_EXPOSURE_MAX_ITERS + WARMUP_FRAMES) as nat, outcome);
}

/// Frames are metered until one is right or six were metered; then two are let
/// pass; then the camera has settled.
pub proof fn law_settling_meters_then_discards(settling: Settling)
    ensures
        settling.upcoming() is Meter <==> !settling.converged && settling.metered < 6,
        settling.upcoming() is Discard <==> (settling.converged || settling.metered >= 6)
            && settling.discarded < 2,
        settling.upcoming() is Done <==> (settling.converged || settling.metered >= 6)
            && settling.discarded >= 2,
{
}

} // verus!
