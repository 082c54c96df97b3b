//! Letting time pass: between transmissions, and so that a long computation
//! does not starve the scheduler.

use vstd::prelude::*;

verus! {

/// The rows of a picture that are worked on before others may run.
pub const ROWS_PER_NAP: usize = 40;

/// How long others may run, in milliseconds.
pub const NAP_MS: u32 = 1;

/// A task that can sleep. Implemented by the platform.
pub trait Sleeper {
    /// Every sleep asked for so far in milliseconds, oldest first.
    open spec fn sleeps(&self) -> Seq<u32> {
        arbitrary()
    }

    /// Block the current task.
    fn sleep_ms(&mut self, millis: u32)
        ensures
            final(self).sleeps() == old(self).sleeps().push(millis),
    ;
}

/// A task on a host, where nothing has to be waited for and nobody is starved.
pub struct Awake {
    asked: Ghost<Seq<u32>>,
}

impl Awake {
    /// A task that was not asked to sleep yet.
    pub fn new() -> (task: Self)
        ensures
            task.sleeps() == Seq::<u32>::empty(),
    {
        Awake { asked: Ghost(Seq::empty()) }
    }
}

impl Sleeper for Awake {
    closed spec fn sleeps(&self) -> Seq<u32> {
        self.asked@
    }

    fn sleep_ms(&mut self, millis: u32) {
        self.asked = Ghost(self.asked@.push(millis));
    }
}

/// `n` sleeps of the same length.
pub open spec fn sleeps_of(n: nat, millis: u32) -> Seq<u32> {
    Seq::new(n, |i: int| millis)
}

/// The sleeps while the first `rows` rows of a picture are worked on: one ahead
/// of each group of rows.
pub open spec fn naps(rows: nat) -> Seq<u32> {
    sleeps_of(((rows + ROWS_PER_NAP - 1) / ROWS_PER_NAP as int) as nat, NAP_MS)
}

/// The sleep ahead of a row: only the first of a group of rows has one.
pub open spec fn nap_before(row: nat) -> Seq<u32> {
    if row % ROWS_PER_NAP as nat == 0 {
        seq![NAP_MS]
    } else {
        seq![]
    }
}

/// One more row adds the sleep ahead of it.
pub proof fn lemma_naps(before: Seq<u32>, row: nat)
    ensures
        before + naps(row + 1) == before + naps(row) + nap_before(row),
{
    assert(naps(row + 1) == naps(row) + nap_before(row));
}

/// Sleep ahead of a row, if it is the first of a group of rows.
pub fn nap_before_row<S: Sleeper>(row: usize, sleeper: &mut S)
    ensures
        final(sleeper).sleeps() == old(sleeper).sleeps() + nap_before(row as nat),
{
    if row % ROWS_PER_NAP == 0 {
        sleeper.sleep_ms(NAP_MS);
    }
    assert(sleeper.sleeps() == old(sleeper).sleeps() + nap_before(row as nat));
}

/// Nobody waits for more than forty rows: the sleeps are as many as there are
/// groups of that many rows, the last of which may be smaller, and each lasts a
/// millisecond.
pub proof fn law_naps_come_every_forty_rows(rows: nat)
    ensures
        40 * naps(rows).len() >= rows,
        rows > 0 ==> 40 * (naps(rows).len() - 1) < rows,
        rows == 0 ==> naps(rows).len() == 0,
        forall|i: int| 0 <= i < naps(rows).len() ==> #[trigger] naps(rows)[i] == 1,
{
}

/// A nap is taken ahead of the first row and of every fortieth behind it, and
/// the naps of some rows are those ahead of each of them.
pub proof fn law_naps_are_taken_ahead_of_rows(row: nat)
    ensures
        nap_before(row) == if row % 40 == 0 {
            seq![1u32]
        } else {
            seq![]
        },
        naps(row + 1) == naps(row) + nap_before(row),
{
    law_naps_come_every_forty_rows(row);
    law_naps_come_every_forty_rows(row + 1);
    assert(naps(row + 1) =~= naps(row) + nap_before(row));
}

} // verus!
