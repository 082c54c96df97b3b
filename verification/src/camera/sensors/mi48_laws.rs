//! Laws of the MI48: what goes over its bus, in numbers.

use vstd::prelude::*;

use super::mi48;
use super::mi48::Mi48;
use crate::camera::interface;
use crate::camera::interface::{BusCall, CameraInterface, Timeout};

verus! {

/// The chip answered a read of its status register, and the bit of this weight
/// was so in what it answered.
pub open spec fn tells(call: BusCall, address: u8, weight: int, bit: int) -> bool {
    call matches BusCall::WriteRead(to, data, Some(reply)) && to == address && data == seq![0xB6u8]
        && reply.len() == 1 && reply[0] as int / weight % 2 == bit
}

/// A frame is ready exactly if the chip answered with the bit of weight 16 set
/// in its status, and the chip has booted exactly if it answered with that of
/// weight 32 clear.
pub proof fn law_status_bits(call: BusCall, address: u8)
    ensures
        mi48::status_set(call, address, mi48::STATUS_DATA_READY) <==> tells(call, address, 16, 1),
        mi48::status_clear(call, address, mi48::STATUS_BOOTING_UP) <==> tells(
            call,
            address,
            32,
            0,
        ),
{
    if mi48::is_read(call, address, mi48::REG_STATUS) && mi48::value_read(call) is Some {
        let status = mi48::value_read(call)->0;
        assert((status & 0x10u8 != 0) <==> status / 16 % 2 == 1) by (bit_vector);
        assert((status & 0x20u8 == 0) <==> status / 32 % 2 == 0) by (bit_vector);
    }
}

/// The status is read at `at`, and a pause follows.
pub open spec fn polled_in_vain(calls: Seq<BusCall>, at: int, address: u8, pause: u32) -> bool {
    &&& calls[at] matches BusCall::WriteRead(to, data, _) && to == address && data == seq![0xB6u8]
    &&& calls[at + 1] == BusCall::Delay(pause)
}

/// A shot triggers one frame, asks the chip at most 401 times whether it is
/// ready, with five milliseconds behind every time that it is not, and reads
/// the frame once it is. A shot without a frame puts the chip to rest, and comes
/// of a frame that could not be read or of a chip that was never ready.
pub proof fn law_shot_waits_for_its_frame(
    calls: Seq<BusCall>,
    address: u8,
    frame: Option<Seq<u8>>,
) -> (polls: int)
    requires
        mi48::is_shot(calls, address, frame),
    ensures
        0 <= polls <= 400,
        calls.len() >= 3 + 2 * polls,
        calls[0] matches BusCall::Write(to, data, _) && to == address && data == seq![
            0xB1u8,
            0x21,
        ],
        forall|i: int|
            #![trigger calls[1 + 2 * i]]
            0 <= i < polls ==> polled_in_vain(calls, 1 + 2 * i, address, 5) && !tells(
                calls[1 + 2 * i],
                address,
                16,
                1,
            ),
        frame is Some ==> {
            &&& calls.len() == 3 + 2 * polls
            &&& tells(calls[1 + 2 * polls], address, 16, 1)
            &&& calls[2 + 2 * polls] == BusCall::Frame(Timeout::Millis(0), frame)
        },
        frame is None ==> {
            &&& calls.last() matches BusCall::Write(to, data, _) && to == address && data == seq![
                0xB1u8,
                0x00,
            ]
            &&& {
                ||| calls.len() == 4 + 2 * polls && calls[2 + 2 * polls] == BusCall::Frame(
                    Timeout::Millis(0),
                    None,
                ) && tells(calls[1 + 2 * polls], address, 16, 1)
                ||| calls.len() == 3 + 2 * polls && polls == 400 && !tells(
                    calls[1 + 2 * polls],
                    address,
                    16,
                    1,
                )
            }
        },
{
    let n = (calls.len() - 3) / 2;
    let waits = calls.subrange(1, 1 + 2 * n);
    let tail = calls.skip(1 + 2 * n);
    assert(tail[0] == calls[1 + 2 * n]);
    assert(tail[1] == calls[2 + 2 * n]);
    assert(tail.last() == calls.last());
    assert forall|i: int| #![trigger calls[1 + 2 * i]] 0 <= i < n implies polled_in_vain(
        calls,
        1 + 2 * i,
        address,
        5,
    ) && !tells(calls[1 + 2 * i], address, 16, 1) by {
        let call = waits[2 * i];
        assert(call == calls[1 + 2 * i]);
        assert(waits[2 * i + 1] == calls[2 + 2 * i]);
        law_status_bits(call, address);
    }
    law_status_bits(tail[0], address);
    n
}

/// Booting puts the chip to rest and asks at most 300 times whether it is up,
/// with ten milliseconds behind every time that it is not. It ends once the chip
/// is up, or with the last of these pauses.
pub proof fn law_boot_is_awaited(calls: Seq<BusCall>, address: u8) -> (polls: int)
    requires
        mi48::is_boot_wait(calls, address),
    ensures
        0 <= polls <= 300,
        calls.len() == if polls == 300 {
            601int
        } else {
            2 + 2 * polls
        },
        calls[0] matches BusCall::Write(to, data, _) && to == address && data == seq![
            0xB1u8,
            0x00,
        ],
        forall|i: int|
            #![trigger calls[1 + 2 * i]]
            0 <= i < polls ==> polled_in_vain(calls, 1 + 2 * i, address, 10) && !tells(
                calls[1 + 2 * i],
                address,
                32,
                0,
            ),
        polls < 300 ==> tells(calls.last(), address, 32, 0),
{
    let n = (calls.len() - 1) / 2;
    let waits = calls.subrange(1, 1 + 2 * n);
    assert forall|i: int| #![trigger calls[1 + 2 * i]] 0 <= i < n implies polled_in_vain(
        calls,
        1 + 2 * i,
        address,
        10,
    ) && !tells(calls[1 + 2 * i], address, 32, 0) by {
        let call = waits[2 * i];
        assert(call == calls[1 + 2 * i]);
        assert(waits[2 * i + 1] == calls[2 + 2 * i]);
        law_status_bits(call, address);
    }
    if n < 300 {
        law_status_bits(calls.last(), address);
    }
    n
}

/// The filters are set by four registers, and given 60 milliseconds.
pub proof fn law_filters_are_four_registers(calls: Seq<BusCall>, address: u8)
    requires
        mi48::is_filter_setup(calls, address),
    ensures
        calls.len() == 5,
        calls[0] matches BusCall::Write(to, data, _) && to == address && data == seq![
            0xD1u8,
            0x80,
        ],
        calls[1] matches BusCall::Write(to, data, _) && to == address && data == seq![
            0xD2u8,
            0x00,
        ],
        calls[2] matches BusCall::Write(to, data, _) && to == address && data == seq![
            0xD0u8,
            0x03,
        ],
        calls[3] matches BusCall::Write(to, data, _) && to == address && data == seq![
            0x30u8,
            0x01,
        ],
        calls[4] == BusCall::Delay(60),
{
}

/// The identity is what three registers answer: the halves of the first are the
/// version, the others the build and the module. One that does not answer leaves
/// it unknown.
pub proof fn law_identity_is_read_from_three_registers(calls: Seq<BusCall>, address: u8)
    requires
        mi48::is_identity_read(calls, address),
    ensures
        calls.len() == 3,
        calls[0] matches BusCall::WriteRead(to, data, _) && to == address && data == seq![0xB2u8],
        calls[1] matches BusCall::WriteRead(to, data, _) && to == address && data == seq![0xB3u8],
        calls[2] matches BusCall::WriteRead(to, data, _) && to == address && data == seq![0xBBu8],
        mi48::identity_in(calls) is None <==> exists|i: int|
            0 <= i < 3 && #[trigger] calls[i]->WriteRead_2 is None,
        mi48::identity_in(calls) matches Some(identity) ==> {
            &&& identity.minor < 16
            &&& calls[0]->WriteRead_2 == Some(seq![(16 * identity.major + identity.minor) as u8])
            &&& calls[1]->WriteRead_2 == Some(seq![identity.build])
            &&& calls[2]->WriteRead_2 == Some(seq![identity.module])
        },
{
    let (a, b, c) = (calls[0]->WriteRead_2, calls[1]->WriteRead_2, calls[2]->WriteRead_2);
    if mi48::identity_in(calls) is Some {
        assert(a->0 =~= seq![a->0[0]]);
        assert(b->0 =~= seq![b->0[0]]);
        assert(c->0 =~= seq![c->0[0]]);
    } else {
        assert(calls[0]->WriteRead_2 is None || calls[1]->WriteRead_2 is None
            || calls[2]->WriteRead_2 is None);
    }
}

/// The chip is asked for its status first, then booted, then asked who it is,
/// and its filters are set last.
pub proof fn law_init_comes_in_order(calls: Seq<BusCall>, address: u8)
    requires
        mi48::is_init(calls, address),
    ensures
        calls.len() >= 10,
        calls[0] matches BusCall::WriteRead(to, data, _) && to == address && data == seq![0xB6u8],
        mi48::is_boot_wait(calls.subrange(1, calls.len() - 8), address),
        mi48::is_identity_read(calls.subrange(calls.len() - 8, calls.len() - 5), address),
        mi48::is_filter_setup(calls.subrange(calls.len() - 5, calls.len() as int), address),
{
    let n = calls.len() as int;
    assert(calls.subrange(n - 5, n) =~= calls.skip(n - 5));
}

/// How often a frame was triggered.
pub open spec fn triggers(calls: Seq<BusCall>) -> nat
    decreases calls.len(),
{
    if calls.len() == 0 {
        0
    } else {
        triggers(calls.drop_last()) + match calls.last() {
            BusCall::Write(_, data, _) => if data == seq![0xB1u8, 0x21] {
                1nat
            } else {
                0
            },
            _ => 0,
        }
    }
}

proof fn lemma_triggers_concat(a: Seq<BusCall>, b: Seq<BusCall>)
    ensures
        triggers(a + b) == triggers(a) + triggers(b),
    decreases b.len(),
{
    if b.len() == 0 {
        assert(a + b =~= a);
    } else {
        lemma_triggers_concat(a, b.drop_last());
        assert((a + b).drop_last() =~= a + b.drop_last());
        assert((a + b).last() == b.last());
    }
}

proof fn lemma_no_triggers(calls: Seq<BusCall>)
    requires
        forall|i: int|
            0 <= i < calls.len() ==> (#[trigger] calls[i] matches BusCall::Write(_, data, _)
                ==> data == seq![0xB1u8, 0x00]),
    ensures
        triggers(calls) == 0,
    decreases calls.len(),
{
    if calls.len() > 0 {
        assert(calls.last() == calls[calls.len() - 1]);
        lemma_no_triggers(calls.drop_last());
        assert(seq![0xB1u8, 0x00][1] != seq![0xB1u8, 0x21][1]);
    }
}

/// Every shot triggers one frame, so a row of shots triggers as many.
pub proof fn law_every_shot_triggers_once(calls: Seq<BusCall>, address: u8, n: nat)
    requires
        mi48::is_shots(calls, address, n),
    ensures
        triggers(calls) == n,
    decreases n,
{
    if n > 0 {
        let (m, frame) = choose|m: int, frame: Option<Seq<u8>>|
            #![trigger mi48::is_shot(calls.skip(m), address, frame)]
            {
                &&& 0 <= m <= calls.len()
                &&& mi48::is_shots(calls.take(m), address, (n - 1) as nat)
                &&& mi48::is_shot(calls.skip(m), address, frame)
            };
        let shot = calls.skip(m);
        law_every_shot_triggers_once(calls.take(m), address, (n - 1) as nat);
        let polls = law_shot_waits_for_its_frame(shot, address, frame);
        let rest = shot.skip(1);
        assert forall|i: int| 0 <= i < rest.len() implies (
        #[trigger] rest[i] matches BusCall::Write(_, data, _) ==> data == seq![0xB1u8, 0x00]) by {
            assert(rest[i] == shot[1 + i]);
            if i < 2 * polls {
                let k = i / 2;
                assert(polled_in_vain(shot, 1 + 2 * k, address, 5)) by {
                    let call = shot[1 + 2 * k];
                }
                assert(i == 2 * k || i == 2 * k + 1);
            } else if frame is None {
                assert(rest.last() == shot.last());
                lemma_tail_kinds(shot, address, frame);
            } else {
                lemma_tail_kinds(shot, address, frame);
            }
        }
        lemma_no_triggers(rest);
        let first = shot.take(1);
        assert(shot =~= first + rest);
        lemma_triggers_concat(first, rest);
        reveal_with_fuel(triggers, 2);
        assert(first.last() == shot[0]);
        assert(triggers(first) == 1);
        assert(calls =~= calls.take(m) + shot);
        lemma_triggers_concat(calls.take(m), shot);
    }
}

proof fn lemma_tail_kinds(calls: Seq<BusCall>, address: u8, frame: Option<Seq<u8>>)
    requires
        mi48::is_shot(calls, address, frame),
    ensures
        forall|i: int|
            1 + 2 * ((calls.len() - 3) / 2) <= i < calls.len() && i < calls.len() - 1
                ==> !(#[trigger] calls[i] is Write),
        frame is Some ==> !(calls.last() is Write),
{
    let n = (calls.len() - 3) / 2;
    let tail = calls.skip(1 + 2 * n);
    assert(tail[0] == calls[1 + 2 * n]);
    assert(tail[1] == calls[2 + 2 * n]);
    assert(tail.last() == calls.last());
}

/// A camera that goes on keeps its address, the size of its frames and pictures
/// and which way round they are, and what it did earlier stays done.
pub proof fn law_a_camera_stays_itself<I: CameraInterface>(now: Mi48<I>, then: Mi48<I>)
    requires
        now.goes_on_from(&then),
    ensures
        now.bus_address() == then.bus_address(),
        now.grid() == then.grid(),
        now.target() == then.target(),
        now.flipped() == then.flipped(),
        now.calls() == then.calls() + now.used_since(&then),
{
    interface::law_uses_are_never_undone(now.calls(), then.calls());
}

} // verus!
