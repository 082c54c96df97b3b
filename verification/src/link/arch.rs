//! The operating-system primitives a CSP runtime asks for, single-threaded:
//! queues never block, mutexes and semaphores are flags.

use std::collections::VecDeque;

use vstd::prelude::*;

use crate::bytes;

verus! {

/// A first-in first-out queue of items of one size.
pub struct EspQueue {
    buf: VecDeque<Vec<u8>>,
    item_size: usize,
}

impl View for EspQueue {
    type V = Seq<Seq<u8>>;

    closed spec fn view(&self) -> Seq<Seq<u8>> {
        bytes::contents(self.buf@)
    }
}

impl EspQueue {
    /// The size of an item, in bytes.
    pub closed spec fn spec_item_size(self) -> nat {
        self.item_size as nat
    }

    /// Every item has the queue's item size.
    pub open spec fn wf(self) -> bool {
        forall|i: int| 0 <= i < self@.len() ==> (#[trigger] self@[i]).len() == self.spec_item_size()
    }

    /// The size of an item, in bytes.
    pub fn item_size(&self) -> (size: usize)
        ensures
            size == self.spec_item_size(),
    {
        self.item_size
    }
}

/// The single-threaded runtime: time, semaphores, mutexes and queues.
pub struct EspArch;

impl EspArch {
    /// Milliseconds of a clock that counts microseconds, as far as 32 bits
    /// reach.
    pub fn get_ms(&self, clock_us: u64) -> (ms: u32)
        ensures
            ms == clock_us / 1_000 % 0x1_0000_0000,
    {
        (clock_us / 1_000 % 0x1_0000_0000) as u32
    }

    /// Seconds of a clock that counts microseconds, as far as 32 bits reach.
    pub fn get_s(&self, clock_us: u64) -> (s: u32)
        ensures
            s == clock_us / 1_000_000 % 0x1_0000_0000,
    {
        (clock_us / 1_000_000 % 0x1_0000_0000) as u32
    }

    /// A semaphore that nobody has posted yet.
    pub fn bin_sem_create(&self) -> (sem: bool)
        ensures
            !sem,
    {
        false
    }

    /// Take the semaphore if it was posted; never waits.
    pub fn bin_sem_wait(&self, sem: &mut bool) -> (taken: bool)
        ensures
            taken == *old(sem),
            !*final(sem),
    {
        let taken = *sem;
        *sem = false;
        taken
    }

    /// Post the semaphore.
    pub fn bin_sem_post(&self, sem: &mut bool) -> (posted: bool)
        ensures
            posted,
            *final(sem),
    {
        *sem = true;
        true
    }

    /// A mutex; with one thread nobody ever holds it.
    pub fn mutex_create(&self) -> (mutex: bool)
        ensures
            mutex,
    {
        true
    }

    /// Locking always succeeds.
    pub fn mutex_lock(&self, mutex: &bool) -> (locked: bool)
        ensures
            locked,
    {
        true
    }

    /// Unlocking always succeeds.
    pub fn mutex_unlock(&self, mutex: &bool) -> (unlocked: bool)
        ensures
            unlocked,
    {
        true
    }

    /// An empty queue of items of the given size. It grows as needed.
    pub fn queue_create(&self, item_size: usize) -> (queue: EspQueue)
        ensures
            queue.wf(),
            queue@.len() == 0,
            queue.spec_item_size() == item_size,
    {
        EspQueue { buf: VecDeque::new(), item_size }
    }

    /// Append a copy of `item`; never refuses.
    pub fn queue_enqueue(&self, queue: &mut EspQueue, item: &[u8]) -> (accepted: bool)
        requires
            old(queue).wf(),
            item@.len() == old(queue).spec_item_size(),
        ensures
            accepted,
            final(queue).wf(),
            final(queue).spec_item_size() == old(queue).spec_item_size(),
            final(queue)@ == old(queue)@.push(item@),
    {
        let copy = vstd::slice::slice_to_vec(item);
        proof {
            bytes::lemma_contents_push(queue.buf@, copy);
        }
        queue.buf.push_back(copy);
        assert(queue@ == old(queue)@.push(item@));
        assert forall|i: int| 0 <= i < queue@.len() implies (#[trigger] queue@[i]).len()
            == queue.spec_item_size() by {
            if i < old(queue)@.len() {
                assert(queue@[i] == old(queue)@[i]);
            }
        }
        true
    }

    /// Take the oldest item, if there is one.
    pub fn queue_dequeue(&self, queue: &mut EspQueue) -> (item: Option<Vec<u8>>)
        requires
            old(queue).wf(),
        ensures
            final(queue).wf(),
            final(queue).spec_item_size() == old(queue).spec_item_size(),
            item is None <==> old(queue)@.len() == 0,
            item is None ==> final(queue)@ == old(queue)@,
            item matches Some(taken) ==> taken@ == old(queue)@[0] && taken@.len()
                == old(queue).spec_item_size() && final(queue)@ == old(queue)@.drop_first(),
    {
        let item = queue.buf.pop_front();
        assert(item is Some ==> queue@ =~= old(queue)@.drop_first());
        assert(item is None ==> queue@ =~= old(queue)@);
        item
    }

    /// How many items are queued.
    pub fn queue_size(&self, queue: &EspQueue) -> (size: usize)
        ensures
            size == queue@.len(),
    {
        queue.buf.len()
    }
}

/// What `n` removals take off a queue, and what they leave.
pub open spec fn taken_off(queue: Seq<Seq<u8>>, n: nat) -> (Seq<Seq<u8>>, Seq<Seq<u8>>)
    decreases n,
{
    if n == 0 {
        (seq![], queue)
    } else {
        let (taken, rest) = taken_off(queue, (n - 1) as nat);
        (taken.push(rest[0]), rest.drop_first())
    }
}

/// Items leave in the order they came: of a queue and what is appended to it,
/// the first `n` removals take the oldest `n`, oldest first.
pub proof fn law_items_leave_in_order(waiting: Seq<Seq<u8>>, more: Seq<Seq<u8>>, n: nat)
    requires
        n <= waiting.len() + more.len(),
    ensures
        taken_off(waiting + more, n).0 == (waiting + more).take(n as int),
        taken_off(waiting + more, n).1 == (waiting + more).skip(n as int),
    decreases n,
{
    let queue = waiting + more;
    if n == 0 {
        assert(queue.skip(0) == queue);
        assert(queue.take(0) == Seq::<Seq<u8>>::empty());
    } else {
        let before = (n - 1) as nat;
        law_items_leave_in_order(waiting, more, before);
        assert(queue.skip(before as int).drop_first() == queue.skip(n as int));
        assert(queue.take(before as int).push(queue[before as int]) == queue.take(n as int));
    }
}

} // verus!
