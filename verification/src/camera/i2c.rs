//! The control bus: which transfer a list of operations stands for, which
//! devices are known, and what a scan of the bus says about it.

use vstd::prelude::*;

use crate::text;

verus! {

/// The lowest address of seven bits.
pub const FIRST_ADDRESS: u8 = 0x00;

/// The highest address of seven bits.
pub const LAST_ADDRESS: u8 = 0x7f;

/// How many addresses of seven bits there are.
pub const ADDRESS_COUNT: usize = 128;

/// How many devices can plausibly share the bus.
pub const MAX_DEVICES: usize = 8;

/// How long a device may take to answer a probe, in milliseconds: wide enough
/// for one that is still booting.
pub const PROBE_TIMEOUT_MS: i32 = 100;

/// The direction of one part of a transaction.
#[derive(Clone, Copy, Debug, PartialEq, Eq, Structural)]
pub enum Direction {
    /// Bytes go to the device.
    Write,
    /// Bytes come from the device.
    Read,
}

/// The transfers the bus driver can make.
#[derive(Clone, Copy, Debug, PartialEq, Eq, Structural)]
pub enum Shape {
    /// Nothing is transferred.
    Empty,
    /// Bytes are sent.
    Transmit,
    /// Bytes are received.
    Receive,
    /// Bytes are sent, and a reply is received.
    TransmitReceive,
}

/// The transfer that a transaction stands for, or `None` if the bus driver
/// cannot make it.
pub fn shape(parts: &[Direction]) -> (shape: Option<Shape>)
    ensures
        shape == Some(Shape::Empty) <==> parts@ =~= Seq::<Direction>::empty(),
        shape == Some(Shape::Transmit) <==> parts@ =~= seq![Direction::Write],
        shape == Some(Shape::Receive) <==> parts@ =~= seq![Direction::Read],
        shape == Some(Shape::TransmitReceive) <==> parts@ =~= seq![
            Direction::Write,
            Direction::Read,
        ],
{
    if parts.len() == 0 {
        return Some(Shape::Empty);
    }
    let first = parts[0];
    if parts.len() == 1 {
        match first {
            Direction::Write => Some(Shape::Transmit),
            Direction::Read => Some(Shape::Receive),
        }
    } else if parts.len() == 2 && first == Direction::Write && parts[1] == Direction::Read {
        Some(Shape::TransmitReceive)
    } else {
        None
    }
}

/// The devices a bus was asked to talk to, each known by the position at which
/// it was first used.
pub struct DeviceTable {
    addresses: Vec<u8>,
}

impl View for DeviceTable {
    /// The addresses, oldest first.
    type V = Seq<u8>;

    closed spec fn view(&self) -> Seq<u8> {
        self.addresses@
    }
}

impl DeviceTable {
    /// No address is listed twice.
    pub open spec fn wf(&self) -> bool {
        self@.no_duplicates()
    }

    /// A table of no devices.
    pub fn new() -> (table: Self)
        ensures
            table.wf(),
            table@ == Seq::<u8>::empty(),
    {
        DeviceTable { addresses: Vec::new() }
    }

    /// Where a device is listed, or `None` if it still has to be added.
    pub fn find(&self, address: u8) -> (position: Option<usize>)
        ensures
            position is None <==> !self@.contains(address),
            position matches Some(i) ==> i < self@.len() && self@[i as int] == address,
    {
        let mut i: usize = 0;
        while i < self.addresses.len()
            invariant
                i <= self.addresses@.len(),
                forall|j: int| 0 <= j < i ==> self.addresses@[j] != address,
            decreases self.addresses@.len() - i,
        {
            if self.addresses[i] == address {
                return Some(i);
            }
            i += 1;
        }
        None
    }

    /// List a device that was added to the bus.
    pub fn insert(&mut self, address: u8)
        requires
            old(self).wf(),
            !old(self)@.contains(address),
        ensures
            final(self).wf(),
            final(self)@ == old(self)@.push(address),
    {
        self.addresses.push(address);
    }
}

/// The addresses that answered, given the answer of each address in turn.
pub open spec fn answering(answers: Seq<bool>) -> Seq<u8>
    decreases answers.len(),
{
    if answers.len() == 0 {
        seq![]
    } else {
        let before = answering(answers.drop_last());
        if answers.last() {
            before.push((FIRST_ADDRESS + answers.len() - 1) as u8)
        } else {
            before
        }
    }
}

/// The addresses that answered a probe, given the answer of each address of the
/// whole 7-bit address space, from [`FIRST_ADDRESS`] to [`LAST_ADDRESS`].
pub fn scan(answers: &[bool]) -> (found: Vec<u8>)
    requires
        answers@.len() == ADDRESS_COUNT,
    ensures
        found@ == answering(answers@),
{
    let mut found: Vec<u8> = Vec::new();
    let mut i: usize = 0;
    while i < answers.len()
        invariant
            i <= answers@.len(),
            answers@.len() == ADDRESS_COUNT,
            found@ == answering(answers@.take(i as int)),
        decreases answers@.len() - i,
    {
        assert(answers@.take(i + 1).drop_last() == answers@.take(i as int));
        if answers[i] {
            found.push(FIRST_ADDRESS + i as u8);
        }
        i += 1;
    }
    assert(answers@.take(i as int) == answers@);
    found
}

/// A scan finds exactly the addresses that answered, in ascending order.
pub proof fn law_scan_finds_who_answered(answers: Seq<bool>)
    requires
        answers.len() <= ADDRESS_COUNT,
    ensures
        forall|address: u8|
            answering(answers).contains(address) <==> FIRST_ADDRESS <= address < FIRST_ADDRESS
                + answers.len() && answers[address - FIRST_ADDRESS],
        forall|i: int, j: int|
            0 <= i < j < answering(answers).len() ==> answering(answers)[i] < answering(
                answers,
            )[j],
    decreases answers.len(),
{
    if answers.len() > 0 {
        let shorter = answers.drop_last();
        law_scan_finds_who_answered(shorter);
        let before = answering(shorter);
        let last = (FIRST_ADDRESS + answers.len() - 1) as u8;
        assert forall|i: int| 0 <= i < before.len() implies #[trigger] before[i] < last by {
            assert(before.contains(before[i]));
        }
        assert forall|address: u8|
            answering(answers).contains(address) <==> FIRST_ADDRESS <= address < FIRST_ADDRESS
                + answers.len() && answers[address - FIRST_ADDRESS] by {
            if before.contains(address) {
                let i = before.index_of(address);
                assert(answering(answers)[i] == address);
            }
            if address == last && answers.last() {
                assert(answering(answers).last() == address);
            }
            if answering(answers).contains(address) {
                let i = answering(answers).index_of(address);
                if i < before.len() {
                    assert(before[i] == address);
                }
            }
        }
    } else {
        assert(answering(answers).len() == 0);
    }
}

/// What a scan of the bus says about it.
pub enum Diagnosis {
    /// Nobody answered: wiring, address or pull-ups are wrong.
    Silent,
    /// The listed devices answered.
    Devices(String),
    /// More addresses answered than there can be devices: a fault of the bus
    /// lines.
    Faulty(usize),
}

/// The addresses as text, separated by commas.
pub open spec fn address_list(found: Seq<u8>) -> Seq<char>
    decreases found.len(),
{
    if found.len() == 0 {
        seq![]
    } else {
        let last = seq!['0', 'x'] + text::hex_byte(found.last());
        if found.len() == 1 {
            last
        } else {
            address_list(found.drop_last()) + seq![',', ' '] + last
        }
    }
}

/// Tell a working bus from an empty and from a faulty one.
pub fn diagnose(found: &[u8]) -> (diagnosis: Diagnosis)
    ensures
        diagnosis is Silent <==> found@.len() == 0,
        diagnosis is Devices <==> 1 <= found@.len() <= MAX_DEVICES,
        diagnosis matches Diagnosis::Devices(list) ==> list@ == address_list(found@),
        diagnosis matches Diagnosis::Faulty(count) ==> count == found@.len(),
{
    if found.len() == 0 {
        return Diagnosis::Silent;
    }
    if found.len() > MAX_DEVICES {
        return Diagnosis::Faulty(found.len());
    }
    let mut list: String = String::new();
    let mut i: usize = 0;
    while i < found.len()
        invariant
            i <= found@.len(),
            list@ == address_list(found@.take(i as int)),
        decreases found@.len() - i,
    {
        assert(found@.take(i + 1).drop_last() == found@.take(i as int));
        if i > 0 {
            list.push(',');
            list.push(' ');
        }
        list.push('0');
        list.push('x');
        text::push_hex_byte(&mut list, found[i]);
        assert(list@ == address_list(found@.take(i + 1)));
        i += 1;
    }
    assert(found@.take(i as int) == found@);
    Diagnosis::Devices(list)
}

/// Every address of a list is written as `0x` and two digits, with a comma and a
/// space ahead of all but the first.
pub proof fn law_address_list_places(found: Seq<u8>, i: int)
    requires
        0 <= i < found.len(),
    ensures
        address_list(found).len() == 6 * found.len() - 2,
        address_list(found)[6 * i] == '0',
        address_list(found)[6 * i + 1] == 'x',
        address_list(found).subrange(6 * i + 2, 6 * i + 4) == text::hex_byte(found[i]),
        i > 0 ==> address_list(found)[6 * i - 2] == ',' && address_list(found)[6 * i - 1] == ' ',
    decreases found.len(),
{
    let last = found.len() - 1;
    let list = address_list(found);
    if found.len() > 1 {
        let shorter = found.drop_last();
        law_address_list_places(shorter, if i < last { i } else { 0 });
        if i < last {
            assert(list.subrange(6 * i + 2, 6 * i + 4) =~= address_list(shorter).subrange(
                6 * i + 2,
                6 * i + 4,
            ));
        }
    }
    if i == last {
        assert(list.subrange(6 * i + 2, 6 * i + 4) =~= text::hex_byte(found[i]));
    }
}

/// The scanned addresses are all that seven bits can tell.
pub proof fn law_all_addresses_are_scanned()
    ensures
        FIRST_ADDRESS == 0,
        LAST_ADDRESS == 127,
        ADDRESS_COUNT == LAST_ADDRESS - FIRST_ADDRESS + 1,
        MAX_DEVICES == 8,
{
}

} // verus!
