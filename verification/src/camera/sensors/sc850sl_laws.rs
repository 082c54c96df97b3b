//! Laws of the SC850SL: what reaches its registers, in numbers.

use vstd::prelude::*;

use super::sc850sl;
use super::sc850sl::{Sc850sl, Step};
use crate::camera::format::BayerOrder;
use crate::camera::image;
use crate::camera::image::RgbPixel;
use crate::camera::interface;
use crate::camera::interface::{BusCall, CameraInterface, Timeout};
use crate::camera::raw10;
use crate::camera::raw10::{Mosaic, ToneCurves};
use crate::camera::CameraError;

verus! {

/// What devices took off the bus, oldest first: to whom it was sent, and its
/// bytes.
pub open spec fn delivered(calls: Seq<BusCall>) -> Seq<(u8, Seq<u8>)>
    decreases calls.len(),
{
    if calls.len() == 0 {
        seq![]
    } else {
        let before = delivered(calls.drop_last());
        match calls.last() {
            BusCall::Write(address, data, true) => before.push((address, data)),
            _ => before,
        }
    }
}

proof fn lemma_delivered_concat(a: Seq<BusCall>, b: Seq<BusCall>)
    ensures
        delivered(a + b) == delivered(a) + delivered(b),
    decreases b.len(),
{
    if b.len() == 0 {
        assert(a + b =~= a);
        assert(delivered(a) + delivered(b) =~= delivered(a));
    } else {
        lemma_delivered_concat(a, b.drop_last());
        assert((a + b).drop_last() =~= a + b.drop_last());
        assert((a + b).last() == b.last());
        assert(delivered(a + b) =~= delivered(a) + delivered(b));
    }
}

/// A register is sent as its address and its value, the high byte of the address
/// first.
pub proof fn law_register_bytes(reg: u16, val: u8)
    ensures
        sc850sl::reg_bytes(reg, val).len() == 3,
        256 * sc850sl::reg_bytes(reg, val)[0] + sc850sl::reg_bytes(reg, val)[1] == reg,
        sc850sl::reg_bytes(reg, val)[2] == val,
{
}

/// A register is sent once, twice or three times, with five milliseconds between
/// two attempts; only the last attempt can succeed, and only the third can be
/// the last one to fail.
pub proof fn law_register_is_sent_up_to_three_times(
    calls: Seq<BusCall>,
    address: u8,
    reg: u16,
    val: u8,
    ok: bool,
)
    requires
        sc850sl::is_reg_write(calls, address, reg, val, ok),
    ensures
        calls.len() == 1 || calls.len() == 3 || calls.len() == 5,
        !ok ==> calls.len() == 5,
        calls.last() == BusCall::Write(address, sc850sl::reg_bytes(reg, val), ok),
        calls.len() > 1 ==> calls[0] == BusCall::Write(
            address,
            sc850sl::reg_bytes(reg, val),
            false,
        ) && calls[1] == BusCall::Delay(5),
        calls.len() > 3 ==> calls[2] == BusCall::Write(
            address,
            sc850sl::reg_bytes(reg, val),
            false,
        ) && calls[3] == BusCall::Delay(5),
        delivered(calls) == if ok {
            seq![(address, sc850sl::reg_bytes(reg, val))]
        } else {
            seq![]
        },
{
    let attempts = (calls.len() + 1) / 2;
    let last = attempts - 1;
    assert(calls[2 * last] == calls.last());
    assert(calls[2 * 0int] == calls[0]);
    if attempts > 1 {
        assert(calls[2 * 0int + 1] == calls[1]);
        assert(calls[2 * 1int] == calls[2]);
    }
    if attempts > 2 {
        assert(calls[2 * 1int + 1] == calls[3]);
        assert(calls[2 * 2int] == calls[4]);
    }
    reveal_with_fuel(delivered, 6);
    assert(delivered(calls) =~= if ok {
        seq![(address, sc850sl::reg_bytes(reg, val))]
    } else {
        seq![]
    });
}

/// What a list of steps delivers if all of them are taken.
pub open spec fn registers(address: u8, steps: Seq<Step>) -> Seq<(u8, Seq<u8>)> {
    steps.map_values(|step: Step| (address, sc850sl::reg_bytes(step.reg, step.val)))
}

/// A step delivers its register, and lets its pause pass behind that.
pub proof fn law_step_delivers_and_pauses(calls: Seq<BusCall>, address: u8, step: Step)
    requires
        sc850sl::is_step(calls, address, step),
    ensures
        delivered(calls) == seq![(address, sc850sl::reg_bytes(step.reg, step.val))],
        step.pause > 0 ==> calls.last() == BusCall::Delay(step.pause),
        step.pause == 0 ==> calls.last() == BusCall::Write(
            address,
            sc850sl::reg_bytes(step.reg, step.val),
            true,
        ),
        forall|i: int| 0 <= i < calls.len() ==> !(#[trigger] calls[i] is Frame),
{
    let writes = if step.pause == 0 {
        calls
    } else {
        calls.drop_last()
    };
    law_register_is_sent_up_to_three_times(writes, address, step.reg, step.val, true);
    lemma_no_frames(writes, address, step.reg, step.val, true);
    assert forall|i: int| 0 <= i < calls.len() implies !(#[trigger] calls[i] is Frame) by {
        if i < writes.len() {
            assert(calls[i] == writes[i]);
        }
    }
}

proof fn lemma_no_frames(calls: Seq<BusCall>, address: u8, reg: u16, val: u8, ok: bool)
    requires
        sc850sl::is_reg_write(calls, address, reg, val, ok),
    ensures
        forall|i: int| 0 <= i < calls.len() ==> !(#[trigger] calls[i] is Frame),
{
    assert forall|i: int| 0 <= i < calls.len() implies !(#[trigger] calls[i] is Frame) by {
        let k = i / 2;
        if i % 2 == 0 {
            assert(calls[2 * k] == calls[i]);
        } else {
            assert(calls[2 * k + 1] == calls[i]);
        }
    }
}

proof fn lemma_steps(calls: Seq<BusCall>, address: u8, steps: Seq<Step>, n: nat)
    requires
        n <= steps.len(),
        sc850sl::is_steps(calls, address, steps, n),
    ensures
        delivered(calls) == registers(address, steps.take(n as int)),
        forall|i: int| 0 <= i < calls.len() ==> !(#[trigger] calls[i] is Frame),
    decreases n,
{
    if n == 0 {
        assert(delivered(calls) =~= registers(address, steps.take(0)));
    } else {
        let m = choose|m: int|
            #![trigger calls.take(m)]
            {
                &&& 0 <= m <= calls.len()
                &&& sc850sl::is_steps(calls.take(m), address, steps, (n - 1) as nat)
                &&& sc850sl::is_step(calls.skip(m), address, steps[n - 1])
            };
        lemma_steps(calls.take(m), address, steps, (n - 1) as nat);
        law_step_delivers_and_pauses(calls.skip(m), address, steps[n - 1]);
        assert(calls =~= calls.take(m) + calls.skip(m));
        lemma_delivered_concat(calls.take(m), calls.skip(m));
        assert(delivered(calls) =~= registers(address, steps.take(n as int)));
        assert forall|i: int| 0 <= i < calls.len() implies !(#[trigger] calls[i] is Frame) by {
            if i < m {
                assert(calls[i] == calls.take(m)[i]);
            } else {
                assert(calls[i] == calls.skip(m)[i - m]);
            }
        }
    }
}

/// A sequence of steps delivers every register in order. One that fails ends
/// with an attempt that failed, and delivered the registers ahead of that one.
pub proof fn law_sequence_delivers_in_order(
    calls: Seq<BusCall>,
    address: u8,
    steps: Seq<Step>,
    ok: bool,
) -> (n: nat)
    requires
        sc850sl::is_sequence(calls, address, steps, ok),
    ensures
        n <= steps.len(),
        ok <==> n == steps.len(),
        delivered(calls) == registers(address, steps.take(n as int)),
        !ok ==> calls.len() > 0 && calls.last() == BusCall::Write(
            address,
            sc850sl::reg_bytes(steps[n as int].reg, steps[n as int].val),
            false,
        ),
        forall|i: int| 0 <= i < calls.len() ==> !(#[trigger] calls[i] is Frame),
{
    if ok {
        lemma_steps(calls, address, steps, steps.len());
        steps.len()
    } else {
        let (n, m) = choose|n: nat, m: int|
            #![trigger sc850sl::is_steps(calls.take(m), address, steps, n)]
            {
                &&& n < steps.len()
                &&& 0 <= m <= calls.len()
                &&& sc850sl::is_steps(calls.take(m), address, steps, n)
                &&& sc850sl::is_reg_write(
                    calls.skip(m),
                    address,
                    steps[n as int].reg,
                    steps[n as int].val,
                    false,
                )
            };
        let (reg, val) = (steps[n as int].reg, steps[n as int].val);
        lemma_steps(calls.take(m), address, steps, n);
        law_register_is_sent_up_to_three_times(calls.skip(m), address, reg, val, false);
        lemma_no_frames(calls.skip(m), address, reg, val, false);
        assert(calls =~= calls.take(m) + calls.skip(m));
        lemma_delivered_concat(calls.take(m), calls.skip(m));
        assert(delivered(calls) =~= registers(address, steps.take(n as int)));
        assert(calls.last() == calls.skip(m).last());
        assert forall|i: int| 0 <= i < calls.len() implies !(#[trigger] calls[i] is Frame) by {
            if i < m {
                assert(calls[i] == calls.take(m)[i]);
            } else {
                assert(calls[i] == calls.skip(m)[i - m]);
            }
        }
        n
    }
}

/// Programming tries every step, whatever became of those ahead of it: every
/// step that did not fail delivered its register.
pub proof fn law_programming_goes_on(
    calls: Seq<BusCall>,
    address: u8,
    steps: Seq<Step>,
    n: nat,
    failures: int,
)
    requires
        n <= steps.len(),
        sc850sl::is_program(calls, address, steps, n, failures),
    ensures
        0 <= failures <= n,
        delivered(calls).len() == n - failures,
        failures == 0 ==> delivered(calls) == registers(address, steps.take(n as int)),
        n > 0 ==> ({
            let step = steps[n - 1];
            let last = if step.pause > 0 {
                calls.len() - 2
            } else {
                calls.len() - 1
            };
            &&& 0 <= last
            &&& calls[last] matches BusCall::Write(to, data, _) && to == address && data
                == sc850sl::reg_bytes(step.reg, step.val)
            &&& step.pause > 0 ==> calls.last() == BusCall::Delay(step.pause)
        }),
    decreases n,
{
    if n == 0 {
        assert(delivered(calls) =~= registers(address, steps.take(0)));
    } else {
        let step = steps[n - 1];
        let (m, ok) = choose|m: int, ok: bool|
            #![trigger sc850sl::is_tried(calls.skip(m), address, step, ok)]
            {
                &&& 0 <= m <= calls.len()
                &&& sc850sl::is_program(
                    calls.take(m),
                    address,
                    steps,
                    (n - 1) as nat,
                    if ok {
                        failures
                    } else {
                        failures - 1
                    },
                )
                &&& sc850sl::is_tried(calls.skip(m), address, step, ok)
            };
        let tail = calls.skip(m);
        let writes = if step.pause > 0 {
            tail.drop_last()
        } else {
            tail
        };
        law_programming_goes_on(
            calls.take(m),
            address,
            steps,
            (n - 1) as nat,
            if ok {
                failures
            } else {
                failures - 1
            },
        );
        law_register_is_sent_up_to_three_times(writes, address, step.reg, step.val, ok);
        assert(delivered(tail) =~= delivered(writes));
        assert(calls =~= calls.take(m) + tail);
        lemma_delivered_concat(calls.take(m), tail);
        assert(calls.last() == tail.last());
        assert(writes.last() == calls[m + writes.len() - 1]);
        if failures == 0 {
            assert(delivered(calls) =~= registers(address, steps.take(n as int)));
        }
    }
}

/// Streaming is enabled by two registers and disabled by one, with 200
/// milliseconds to settle once it is on.
pub proof fn law_streaming_is_a_register(address: u8)
    ensures
        registers(address, sc850sl::start_sequence()) == seq![
            (address, seq![0x30u8, 0x2c, 0x00]),
            (address, seq![0x01u8, 0x00, 0x01]),
        ],
        registers(address, sc850sl::stop_sequence()) == seq![
            (address, seq![0x01u8, 0x00, 0x00]),
        ],
        sc850sl::start_sequence()[0].pause == 0,
        sc850sl::start_sequence()[1].pause == 200,
        sc850sl::stop_sequence()[0].pause == 0,
{
    let start = registers(address, sc850sl::start_sequence());
    let stop = registers(address, sc850sl::stop_sequence());
    assert(start[0].1 =~= seq![0x30u8, 0x2c, 0x00]);
    assert(start[1].1 =~= seq![0x01u8, 0x00, 0x01]);
    assert(stop[0].1 =~= seq![0x01u8, 0x00, 0x00]);
    assert(start =~= seq![
        (address, seq![0x30u8, 0x2c, 0x00]),
        (address, seq![0x01u8, 0x00, 0x01]),
    ]);
    assert(stop =~= seq![(address, seq![0x01u8, 0x00, 0x00])]);
}

/// The init sequence is the table, register by register; the two registers that
/// latch the PLL are each followed by 20 milliseconds, no other by any.
pub proof fn law_init_follows_the_table(i: int)
    requires
        0 <= i < sc850sl::INIT_TABLE@.len(),
    ensures
        sc850sl::init_sequence().len() == 191,
        sc850sl::init_sequence()[i].reg == sc850sl::INIT_TABLE@[i].0,
        sc850sl::init_sequence()[i].val == sc850sl::INIT_TABLE@[i].1,
        sc850sl::init_sequence()[i].pause == if sc850sl::INIT_TABLE@[i].0 == 0x36e9
            || sc850sl::INIT_TABLE@[i].0 == 0x36f9 {
            20int
        } else {
            0
        },
{
}

/// An exposure within 1 to 2242 lines is taken as it is, a shorter or longer one
/// as the nearest of them.
pub proof fn law_exposure_is_the_nearest_possible(lines: u32)
    ensures
        1 <= lines <= 2242 ==> sc850sl::clamped_exposure(lines) == lines,
        lines < 1 ==> sc850sl::clamped_exposure(lines) == 1,
        lines > 2242 ==> sc850sl::clamped_exposure(lines) == 2242,
{
}

/// The exposure is written to three registers in a row: 16 bits of it, of which
/// the middle register holds eight and the ones beside it four each.
pub proof fn law_exposure_registers(lines: u32)
    requires
        1 <= lines <= 2242,
    ensures
        ({
            let steps = sc850sl::exposure_sequence(lines);
            &&& steps.len() == 3
            &&& steps[0].reg == 0x3e00 && steps[1].reg == 0x3e01 && steps[2].reg == 0x3e02
            &&& steps[0].pause == 0 && steps[1].pause == 0 && steps[2].pause == 0
            &&& 65536 * steps[0].val + 256 * steps[1].val + steps[2].val == 16 * lines
        }),
{
}

/// The gain is written to two registers, as it is.
pub proof fn law_gain_registers(coarse: u8, fine: u8)
    ensures
        ({
            let steps = sc850sl::gain_sequence(coarse, fine);
            &&& steps.len() == 2
            &&& steps[0].reg == 0x3e08 && steps[0].val == coarse && steps[0].pause == 0
            &&& steps[1].reg == 0x3e09 && steps[1].val == fine && steps[1].pause == 0
        }),
{
}

/// The coarse gain is the largest of six powers of two that the gain reaches,
/// and each of them has its code.
pub proof fn law_coarse_gain_is_the_largest_reached(whole: u32)
    ensures
        ({
            let (base, code) = sc850sl::bucket_of(whole);
            &&& base <= whole || base == 1
            &&& whole < 2 * base || base == 32
            &&& (base, code) == (1u32, 0x03u8) || (base, code) == (2u32, 0x07u8) || (base, code)
                == (4u32, 0x23u8) || (base, code) == (8u32, 0x27u8) || (base, code) == (
                16u32,
                0x2fu8,
            ) || (base, code) == (32u32, 0x3fu8)
        }),
{
}

/// An adjustment writes the exposure and then the gain, each as far as the bus
/// takes it, and lets exactly two frames pass behind that.
pub proof fn law_adjustment_writes_and_waits(
    calls: Seq<BusCall>,
    address: u8,
    lines: u32,
    coarse: u8,
    fine: u8,
) -> (taken: (nat, nat))
    requires
        sc850sl::is_adjustment(calls, address, lines, coarse, fine),
    ensures
        taken.0 <= 3,
        taken.1 <= 2,
        delivered(calls) == registers(
            address,
            sc850sl::exposure_sequence(lines).take(taken.0 as int),
        ) + registers(address, sc850sl::gain_sequence(coarse, fine).take(taken.1 as int)),
        calls.len() >= 4,
        forall|i: int|
            0 <= i < calls.len() ==> (#[trigger] calls[i] is Frame <==> i >= calls.len() - 2),
        calls[calls.len() - 2] matches BusCall::Frame(Timeout::Forever, _),
        calls[calls.len() - 1] matches BusCall::Frame(Timeout::Forever, _),
{
    let n = calls.len() - 2;
    let exposure = sc850sl::exposure_sequence(lines);
    let gain = sc850sl::gain_sequence(coarse, fine);
    let (m, exposed, gained) = choose|m: int, exposed: bool, gained: bool|
        #![trigger sc850sl::is_sequence(calls.take(m), address, exposure, exposed),
            sc850sl::is_sequence(calls.subrange(m, n), address, gain, gained)]
        {
            &&& 0 <= m <= n
            &&& sc850sl::is_sequence(calls.take(m), address, exposure, exposed)
            &&& sc850sl::is_sequence(calls.subrange(m, n), address, gain, gained)
        };
    let (head, middle, tail) = (calls.take(m), calls.subrange(m, n), calls.skip(n));
    let i = law_sequence_delivers_in_order(head, address, exposure, exposed);
    let j = law_sequence_delivers_in_order(middle, address, gain, gained);
    if head.len() == 0 {
        assert(delivered(head).len() == 0);
        assert(registers(address, exposure.take(i as int)).len() == i);
    }
    if middle.len() == 0 {
        assert(delivered(middle).len() == 0);
        assert(registers(address, gain.take(j as int)).len() == j);
    }
    assert(calls =~= head + middle + tail);
    lemma_delivered_concat(head + middle, tail);
    lemma_delivered_concat(head, middle);
    reveal_with_fuel(delivered, 3);
    assert(tail.last() == calls[n + 1]);
    assert(tail.drop_last().last() == calls[n]);
    assert(delivered(tail) =~= seq![]);
    assert(delivered(calls) =~= delivered(head) + delivered(middle));
    assert forall|k: int| 0 <= k < calls.len() implies (#[trigger] calls[k] is Frame <==> k
        >= calls.len() - 2) by {
        if k < m {
            assert(calls[k] == head[k]);
        } else if k < n {
            assert(calls[k] == middle[k - m]);
        }
    }
    (i, j)
}

/// A stream check enables streaming and asks for three frames, five seconds each
/// at most, until one does not come. It passes if all three came, and disables
/// streaming then; it asks for none if streaming could not be enabled.
pub proof fn law_stream_check_asks_for_three_frames(
    calls: Seq<BusCall>,
    address: u8,
    outcome: Result<(), CameraError>,
) -> (m: int)
    requires
        sc850sl::is_stream_check(calls, address, outcome),
    ensures
        0 <= m <= calls.len(),
        forall|i: int|
            0 <= i < calls.len() ==> (#[trigger] calls[i] is Frame <==> m <= i < m + 3),
        outcome is Ok ==> {
            &&& m + 3 < calls.len()
            &&& forall|i: int|
                m <= i < m + 3 ==> (#[trigger] calls[i] matches BusCall::Frame(
                    Timeout::Millis(5000),
                    Some(_),
                ))
        },
        outcome == Err::<(), CameraError>(CameraError::Transport) ==> {
            &&& m < calls.len() <= m + 3
            &&& calls.last() == BusCall::Frame(Timeout::Millis(5000), None)
            &&& forall|i: int|
                m <= i < calls.len() - 1 ==> (#[trigger] calls[i] matches BusCall::Frame(
                    Timeout::Millis(5000),
                    Some(_),
                ))
        },
        outcome == Err::<(), CameraError>(CameraError::Bus) ==> m == calls.len(),
        outcome != Err::<(), CameraError>(CameraError::Bus) ==> delivered(calls.take(m))
            == registers(address, sc850sl::start_sequence()),
        outcome != Err::<(), CameraError>(CameraError::UnsupportedFormat),
{
    let start = sc850sl::start_sequence();
    let stop = sc850sl::stop_sequence();
    match outcome {
        Err(CameraError::Bus) => {
            let n = law_sequence_delivers_in_order(calls, address, start, false);
            calls.len() as int
        },
        Err(CameraError::Transport) => {
            let m = choose|m: int|
                #![trigger calls.take(m)]
                {
                    &&& 0 <= m < calls.len() <= m + sc850sl::STREAM_CHECK_FRAMES
                    &&& sc850sl::is_sequence(calls.take(m), address, start, true)
                    &&& forall|i: int|
                        m <= i < calls.len() ==> sc850sl::checks_frame(
                            #[trigger] calls[i],
                            i < calls.len() - 1,
                        )
                };
            let n = law_sequence_delivers_in_order(calls.take(m), address, start, true);
            assert(start.take(n as int) =~= start);
            assert forall|i: int| 0 <= i < calls.len() implies (#[trigger] calls[i] is Frame <==> m
                <= i < m + 3) by {
                if i < m {
                    assert(calls[i] == calls.take(m)[i]);
                } else {
                    assert(sc850sl::checks_frame(calls[i], i < calls.len() - 1));
                }
            }
            m
        },
        _ => {
            let (m, stopped) = choose|m: int, stopped: bool|
                #![trigger sc850sl::is_sequence(calls.skip(m + sc850sl::STREAM_CHECK_FRAMES), address, stop, stopped)]
                {
                    &&& 0 <= m <= calls.len() - sc850sl::STREAM_CHECK_FRAMES
                    &&& sc850sl::is_sequence(calls.take(m), address, start, true)
                    &&& forall|i: int|
                        m <= i < m + sc850sl::STREAM_CHECK_FRAMES ==> sc850sl::checks_frame(
                            #[trigger] calls[i],
                            true,
                        )
                    &&& sc850sl::is_sequence(
                        calls.skip(m + sc850sl::STREAM_CHECK_FRAMES),
                        address,
                        stop,
                        stopped,
                    )
                };
            let n = law_sequence_delivers_in_order(calls.take(m), address, start, true);
            assert(start.take(n as int) =~= start);
            let tail = calls.skip(m + 3);
            let k = law_sequence_delivers_in_order(tail, address, stop, stopped);
            if tail.len() == 0 {
                assert(delivered(tail).len() == 0);
                assert(registers(address, stop.take(k as int)).len() == k);
            }
            assert forall|i: int| 0 <= i < calls.len() implies (#[trigger] calls[i] is Frame <==> m
                <= i < m + 3) by {
                if i < m {
                    assert(calls[i] == calls.take(m)[i]);
                } else if i < m + 3 {
                    assert(sc850sl::checks_frame(calls[i], true));
                } else {
                    assert(calls[i] == tail[i - m - 3]);
                }
            }
            m
        },
    }
}

/// A picture has the size asked for. Every pixel of it is developed from the
/// frame's share for it if the frame is a whole one, 2160 rows of 4800 bytes;
/// otherwise the picture is black.
pub proof fn law_picture_is_developed_from_a_whole_frame(
    frame: Option<Seq<u8>>,
    output: (usize, usize),
    curves: ToneCurves,
    dx: int,
    dy: int,
)
    requires
        0 <= dx < output.0,
        0 <= dy < output.1,
    ensures
        ({
            let picture = sc850sl::developed_picture(frame, output, curves);
            let pixel = picture.pixels[dy * output.0 + dx];
            &&& picture.width == output.0
            &&& picture.height == output.1
            &&& picture.pixels.len() == output.0 * output.1
            &&& match frame {
                Some(data) if data.len() >= 10_368_000 => pixel == raw10::developed(
                    Mosaic { frame: data, row_len: 4800, order: BayerOrder::Rggb },
                    curves,
                    raw10::region(sc850sl::sc850sl_format(), output, dx, dy),
                ),
                _ => pixel == (RgbPixel { red: 0, green: 0, blue: 0 }),
            }
        }),
{
    let color = match frame {
        Some(data) => if data.len() >= sc850sl::sc850sl_format().frame_len() {
            |x: int, y: int|
                raw10::developed(
                    Mosaic {
                        frame: data,
                        row_len: sc850sl::sc850sl_format().row_len(),
                        order: sc850sl::ORDER,
                    },
                    curves,
                    raw10::region(sc850sl::sc850sl_format(), output, x, y),
                )
        } else {
            |x: int, y: int| RgbPixel { red: 0, green: 0, blue: 0 }
        },
        None => |x: int, y: int| RgbPixel { red: 0, green: 0, blue: 0 },
    };
    assert(sc850sl::developed_picture(frame, output, curves) == image::drawn(
        output.0 as nat,
        output.1 as nat,
        color,
    ));
    image::law_pictures_are_stored_by_rows(output.0 as nat, output.1 as nat, color);
    let there = color(dx, dy);
}

/// A frame is whole if all its bytes came, 2160 rows of 4800.
pub proof fn law_whole_frames_are_complete(frame: Option<Seq<u8>>)
    ensures
        sc850sl::is_complete(frame) <==> (frame matches Some(data) && data.len() >= 10_368_000),
{
}

/// A camera that goes on keeps its address and the size of its pictures, and
/// what it did earlier stays done.
pub proof fn law_a_camera_stays_itself<I: CameraInterface>(now: Sc850sl<I>, then: Sc850sl<I>)
    requires
        now.goes_on_from(&then),
    ensures
        now.bus_address() == then.bus_address(),
        now.target() == then.target(),
        now.calls() == then.calls() + now.used_since(&then),
{
    interface::law_uses_are_never_undone(now.calls(), then.calls());
}

} // verus!
