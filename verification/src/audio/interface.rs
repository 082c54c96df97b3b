//! The platform transport a DAC driver writes its packed bytes to.

use vstd::prelude::*;

use super::AudioError;

verus! {

/// The platform transport a DAC driver writes its packed bytes to; the DAC
/// driver carries no platform code.
pub trait AudioInterface {
    /// Every write so far, oldest first: the bytes, and whether the hardware
    /// accepted them.
    open spec fn writes(&self) -> Seq<(Seq<u8>, Result<(), AudioError>)> {
        arbitrary()
    }

    /// Write packed audio bytes to the hardware, blocking until all are
    /// accepted.
    fn write(&mut self, bytes: &[u8]) -> (outcome: Result<(), AudioError>)
        ensures
            final(self).writes() == old(self).writes().push((bytes@, outcome)),
    ;
}

} // verus!
