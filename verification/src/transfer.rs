//! Writing a buffer to a device that takes it piece by piece.

use vstd::prelude::*;

verus! {

/// The progress of writing a buffer: the device is offered what is left until
/// it has taken everything.
pub struct Transfer<'a> {
    data: &'a [u8],
    sent: usize,
}

impl<'a> View for Transfer<'a> {
    type V = Seq<u8>;

    /// The bytes not taken yet.
    closed spec fn view(&self) -> Seq<u8> {
        self.data@.skip(self.sent as int)
    }
}

impl<'a> Transfer<'a> {
    /// No more was taken than there is.
    pub closed spec fn wf(&self) -> bool {
        self.sent <= self.data@.len()
    }

    /// A transfer of all of `data`.
    pub fn new(data: &'a [u8]) -> (transfer: Self)
        ensures
            transfer.wf(),
            transfer@ == data@,
    {
        let transfer = Transfer { data, sent: 0 };
        assert(transfer@ == data@);
        transfer
    }

    /// The bytes to offer next, or `None` once everything was taken.
    pub fn remaining(&self) -> (left: Option<&'a [u8]>)
        requires
            self.wf(),
        ensures
            left is None <==> self@.len() == 0,
            left matches Some(bytes) ==> bytes@ == self@,
    {
        if self.sent < self.data.len() {
            let left = vstd::slice::slice_subrange(self.data, self.sent, self.data.len());
            assert(left@ == self@);
            Some(left)
        } else {
            None
        }
    }

    /// Count `taken` more bytes as taken.
    pub fn advance(&mut self, taken: usize)
        requires
            old(self).wf(),
            taken <= old(self)@.len(),
        ensures
            final(self).wf(),
            final(self)@ == old(self)@.skip(taken as int),
    {
        assert(self.sent + taken <= self.data.len());
        self.sent = self.sent + taken;
        assert(self@ == old(self)@.skip(taken as int));
    }
}

/// What is left of `data` after the device took so many bytes at a time.
pub open spec fn left_after(data: Seq<u8>, taken: Seq<nat>) -> Seq<u8>
    decreases taken.len(),
{
    if taken.len() == 0 {
        data
    } else {
        left_after(data, taken.drop_last()).skip(taken.last() as int)
    }
}

/// The pieces the device took, put together.
pub open spec fn taken_pieces(data: Seq<u8>, taken: Seq<nat>) -> Seq<u8>
    decreases taken.len(),
{
    if taken.len() == 0 {
        seq![]
    } else {
        taken_pieces(data, taken.drop_last()) + left_after(data, taken.drop_last()).take(
            taken.last() as int,
        )
    }
}

/// The device never took more than it was offered.
pub open spec fn within_offers(data: Seq<u8>, taken: Seq<nat>) -> bool
    decreases taken.len(),
{
    taken.len() > 0 ==> within_offers(data, taken.drop_last()) && taken.last() <= left_after(
        data,
        taken.drop_last(),
    ).len()
}

/// However the device splits a buffer, the pieces it took and what is left make
/// up the buffer, in order: nothing is lost and nothing is written twice.
pub proof fn law_pieces_make_up_the_buffer(data: Seq<u8>, taken: Seq<nat>)
    requires
        within_offers(data, taken),
    ensures
        taken_pieces(data, taken) + left_after(data, taken) == data,
    decreases taken.len(),
{
    if taken.len() == 0 {
        assert(Seq::<u8>::empty() + data == data);
    } else {
        law_pieces_make_up_the_buffer(data, taken.drop_last());
        let left = left_after(data, taken.drop_last());
        let n = taken.last() as int;
        assert(left == left.take(n) + left.skip(n));
        assert(taken_pieces(data, taken) + left_after(data, taken) == taken_pieces(
            data,
            taken.drop_last(),
        ) + left);
    }
}

} // verus!
