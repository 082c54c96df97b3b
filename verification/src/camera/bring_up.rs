//! Bringing up a camera on a MIPI CSI-2 link: which hardware step comes next,
//! given how the last one went.

use std::collections::VecDeque;

use vstd::prelude::*;

verus! {

/// How often resetting a stuck control bus is tried.
pub const BUS_ATTEMPTS: u8 = 5;

/// One step of the hardware bring-up.
#[derive(Clone, Copy, Debug, PartialEq, Eq, Structural)]
pub enum Step {
    /// Make the reset line an output.
    ConfigureReset,
    /// Drive the reset line low.
    HoldReset,
    /// Create the control bus.
    CreateBus,
    /// Add the sensor to the control bus.
    AddDevice,
    /// Drive the reset line high.
    ReleaseReset,
    /// Reset the control bus, freeing lines that a device still holds.
    RecoverBus,
    /// Program the sensor's registers as far as it takes them.
    ProgramSensor,
    /// Program the sensor's registers; every one has to be taken.
    InitSensor,
    /// Power the receiver of the link.
    PowerPhy,
    /// Create the camera controller.
    CreateController,
    /// Register the callbacks that supply buffers.
    RegisterCallbacks,
    /// Enable the camera controller.
    EnableController,
    /// Start the camera controller.
    StartController,
    /// Create the signal processor.
    CreateProcessor,
    /// Route raw data around the signal processor.
    BypassProcessor,
    /// Queue the first receive buffer.
    QueueFrame,
}

/// In which order the parts of a camera come up.
#[derive(Clone, Copy, Debug, PartialEq, Eq, Structural)]
pub enum Sequence {
    /// Recover the bus, then program the sensor and carry on however much of it
    /// was taken.
    Lenient,
    /// The sensor has to be programmed before the receiver is powered.
    SensorFirst,
    /// The receiver runs before the sensor is programmed; raw data may have to
    /// be routed around the signal processor.
    ReceiverFirst {
        /// Whether the signal processor is bypassed.
        bypass: bool,
    },
}

/// The steps that set up the receiver.
pub open spec fn receiver_steps() -> Seq<Step> {
    seq![
        Step::PowerPhy,
        Step::CreateController,
        Step::RegisterCallbacks,
        Step::EnableController,
        Step::StartController,
        Step::CreateProcessor,
    ]
}

impl Sequence {
    /// The steps of a bring-up in which nothing fails.
    pub open spec fn steps(self) -> Seq<Step> {
        match self {
            Sequence::Lenient => seq![
                Step::ConfigureReset,
                Step::HoldReset,
                Step::CreateBus,
                Step::AddDevice,
                Step::ReleaseReset,
                Step::RecoverBus,
                Step::ProgramSensor,
            ] + receiver_steps() + seq![Step::BypassProcessor],
            Sequence::SensorFirst => seq![
                Step::ConfigureReset,
                Step::HoldReset,
                Step::CreateBus,
                Step::AddDevice,
                Step::ReleaseReset,
                Step::InitSensor,
            ] + receiver_steps() + seq![Step::BypassProcessor],
            Sequence::ReceiverFirst { bypass } => seq![
                Step::ConfigureReset,
                Step::HoldReset,
                Step::CreateBus,
                Step::ReleaseReset,
            ] + receiver_steps() + (if bypass {
                seq![Step::BypassProcessor]
            } else {
                seq![]
            }) + seq![Step::QueueFrame, Step::InitSensor],
        }
    }

    /// The steps that precede a second try to program the sensor.
    pub open spec fn recovery(self) -> Seq<Step> {
        match self {
            Sequence::Lenient | Sequence::SensorFirst => seq![
                Step::ConfigureReset,
                Step::HoldReset,
                Step::ReleaseReset,
            ],
            Sequence::ReceiverFirst { .. } => seq![Step::HoldReset, Step::ReleaseReset],
        }
    }
}

/// The bring-up goes on however this step went.
pub open spec fn optional(step: Step) -> bool {
    step is HoldReset || step is ReleaseReset || step is ProgramSensor || step is BypassProcessor
}

/// How far a bring-up has come.
pub struct Course {
    /// The steps still to be performed; the first one is underway.
    pub pending: Seq<Step>,
    /// The steps that precede a second try to program the sensor.
    pub recovery: Seq<Step>,
    /// How often resetting the control bus failed.
    pub bus_failures: nat,
    /// Programming the sensor failed once.
    pub retried: bool,
}

/// What a step leads to.
pub enum Outcome {
    /// The bring-up goes on; it is complete if no step is pending.
    Going(Course),
    /// The bring-up failed at a step.
    Failed(Step),
}

/// What the step underway leads to, given whether it succeeded: a failed step
/// ends the bring-up, except that the bus is reset up to [`BUS_ATTEMPTS`] times
/// and then left as it is, and that the sensor is programmed a second time
/// after another reset.
pub open spec fn follow(course: Course, ok: bool) -> Outcome {
    let step = course.pending.first();
    let rest = course.pending.drop_first();
    if ok || optional(step) {
        Outcome::Going(Course { pending: rest, ..course })
    } else if step is RecoverBus {
        Outcome::Going(
            Course {
                pending: if course.bus_failures + 1 < BUS_ATTEMPTS {
                    course.pending
                } else {
                    rest
                },
                bus_failures: if course.bus_failures < BUS_ATTEMPTS {
                    course.bus_failures + 1
                } else {
                    course.bus_failures
                },
                ..course
            },
        )
    } else if step is InitSensor && !course.retried {
        Outcome::Going(
            Course { pending: course.recovery + course.pending, retried: true, ..course },
        )
    } else {
        Outcome::Failed(step)
    }
}

/// How long to wait after a step, in milliseconds: reset levels need time to
/// settle, and so does a bus that could not be reset.
pub fn pause_after(step: Step, ok: bool) -> (ms: u32)
    ensures
        ms == if step is HoldReset {
            500int
        } else if step is ReleaseReset {
            300
        } else if step is RecoverBus && !ok {
            200
        } else {
            0
        },
{
    match step {
        Step::HoldReset => 500,
        Step::ReleaseReset => 300,
        Step::RecoverBus if !ok => 200,
        _ => 0,
    }
}

/// The bring-up of one camera.
pub struct BringUp {
    pending: VecDeque<Step>,
    sequence: Sequence,
    bus_failures: u8,
    retried: bool,
}

impl View for BringUp {
    type V = Course;

    closed spec fn view(&self) -> Course {
        Course {
            pending: self.pending@,
            recovery: self.sequence.recovery(),
            bus_failures: self.bus_failures as nat,
            retried: self.retried,
        }
    }
}

impl BringUp {
    /// The bus was not reset more often than allowed.
    pub closed spec fn wf(&self) -> bool {
        self.bus_failures <= BUS_ATTEMPTS
    }

    /// A bring-up about to perform its first step.
    pub fn new(sequence: Sequence) -> (bring_up: Self)
        ensures
            bring_up.wf(),
            bring_up@ == (Course {
                pending: sequence.steps(),
                recovery: sequence.recovery(),
                bus_failures: 0,
                retried: false,
            }),
    {
        let mut pending: VecDeque<Step> = VecDeque::new();
        pending.push_back(Step::ConfigureReset);
        pending.push_back(Step::HoldReset);
        pending.push_back(Step::CreateBus);
        match sequence {
            Sequence::Lenient => {
                pending.push_back(Step::AddDevice);
                pending.push_back(Step::ReleaseReset);
                pending.push_back(Step::RecoverBus);
                pending.push_back(Step::ProgramSensor);
                push_receiver(&mut pending);
                pending.push_back(Step::BypassProcessor);
            },
            Sequence::SensorFirst => {
                pending.push_back(Step::AddDevice);
                pending.push_back(Step::ReleaseReset);
                pending.push_back(Step::InitSensor);
                push_receiver(&mut pending);
                pending.push_back(Step::BypassProcessor);
            },
            Sequence::ReceiverFirst { bypass } => {
                pending.push_back(Step::ReleaseReset);
                push_receiver(&mut pending);
                if bypass {
                    pending.push_back(Step::BypassProcessor);
                }
                pending.push_back(Step::QueueFrame);
                pending.push_back(Step::InitSensor);
            },
        }
        let bring_up = BringUp { pending, sequence, bus_failures: 0, retried: false };
        assert(bring_up@.pending == sequence.steps());
        bring_up
    }

    /// The step to perform, or `None` once the camera is up.
    pub fn step(&self) -> (step: Option<Step>)
        ensures
            step == if self@.pending.len() == 0 {
                None
            } else {
                Some(self@.pending.first())
            },
    {
        if self.pending.len() == 0 {
            None
        } else {
            Some(self.pending[0])
        }
    }

    /// Note how the step underway went. A step that ends the bring-up is
    /// returned as the error.
    pub fn record(&mut self, ok: bool) -> (outcome: Result<(), Step>)
        requires
            old(self).wf(),
            old(self)@.pending.len() > 0,
        ensures
            final(self).wf(),
            match follow(old(self)@, ok) {
                Outcome::Going(course) => outcome is Ok && final(self)@ == course,
                Outcome::Failed(step) => outcome == Err::<(), Step>(step) && *final(self) == *old(
                    self,
                ),
            },
    {
        let step = self.pending[0];
        let skip = match step {
            Step::HoldReset | Step::ReleaseReset | Step::ProgramSensor | Step::BypassProcessor => {
                true
            },
            _ => false,
        };
        if ok || skip {
            let _ = self.pending.pop_front();
            Ok(())
        } else if step == Step::RecoverBus {
            if self.bus_failures + 1 >= BUS_ATTEMPTS {
                let _ = self.pending.pop_front();
            }
            if self.bus_failures < BUS_ATTEMPTS {
                self.bus_failures = self.bus_failures + 1;
            }
            Ok(())
        } else if step == Step::InitSensor && !self.retried {
            self.pending.push_front(Step::ReleaseReset);
            self.pending.push_front(Step::HoldReset);
            match self.sequence {
                Sequence::ReceiverFirst { .. } => {},
                _ => self.pending.push_front(Step::ConfigureReset),
            }
            self.retried = true;
            assert(self@.pending == old(self)@.recovery + old(self)@.pending);
            Ok(())
        } else {
            Err(step)
        }
    }
}

fn push_receiver(pending: &mut VecDeque<Step>)
    ensures
        final(pending)@ == old(pending)@ + receiver_steps(),
{
    pending.push_back(Step::PowerPhy);
    pending.push_back(Step::CreateController);
    pending.push_back(Step::RegisterCallbacks);
    pending.push_back(Step::EnableController);
    pending.push_back(Step::StartController);
    pending.push_back(Step::CreateProcessor);
}

/// Where a bring-up stands after some steps went as given, or once it ended.
pub open spec fn run(course: Course, outcomes: Seq<bool>) -> Outcome
    decreases outcomes.len(),
{
    if outcomes.len() == 0 || course.pending.len() == 0 {
        Outcome::Going(course)
    } else {
        match follow(course, outcomes.first()) {
            Outcome::Going(next) => run(next, outcomes.drop_first()),
            Outcome::Failed(step) => Outcome::Failed(step),
        }
    }
}

/// A step succeeded in the course of a bring-up.
pub open spec fn succeeded(course: Course, outcomes: Seq<bool>, step: Step) -> bool
    decreases outcomes.len(),
{
    if outcomes.len() == 0 || course.pending.len() == 0 {
        false
    } else {
        ||| course.pending.first() == step && outcomes.first()
        ||| match follow(course, outcomes.first()) {
            Outcome::Going(next) => succeeded(next, outcomes.drop_first(), step),
            Outcome::Failed(_) => false,
        }
    }
}

/// How many steps a bring-up performs at most.
pub open spec fn step_limit(course: Course) -> nat {
    course.pending.len() + (if course.bus_failures < BUS_ATTEMPTS {
        (BUS_ATTEMPTS - course.bus_failures) as nat
    } else {
        0
    }) + (if course.retried {
        0
    } else {
        course.recovery.len() + 1
    })
}

/// A bring-up ends, however its steps go: after so many of them it is complete
/// or has failed.
pub proof fn law_bring_up_ends(course: Course, outcomes: Seq<bool>)
    requires
        outcomes.len() >= step_limit(course),
    ensures
        run(course, outcomes) matches Outcome::Going(end) ==> end.pending.len() == 0,
    decreases outcomes.len(),
{
    if outcomes.len() > 0 && course.pending.len() > 0 {
        match follow(course, outcomes.first()) {
            Outcome::Going(next) => {
                assert(step_limit(next) < step_limit(course));
                law_bring_up_ends(next, outcomes.drop_first());
            },
            Outcome::Failed(_) => {},
        }
    }
}

/// A camera that came up went through every step it needs: each pending step
/// succeeded, apart from those whose failure is tolerated.
pub proof fn law_complete_means_every_step_succeeded(
    course: Course,
    outcomes: Seq<bool>,
    step: Step,
)
    requires
        course.pending.contains(step),
        !optional(step),
        !(step is RecoverBus),
        run(course, outcomes) matches Outcome::Going(end) && end.pending.len() == 0,
    ensures
        succeeded(course, outcomes, step),
    decreases outcomes.len(),
{
    let i = course.pending.index_of(step);
    assert(course.pending[i] == step);
    if !(course.pending.first() == step && outcomes.first()) {
        match follow(course, outcomes.first()) {
            Outcome::Going(next) => {
                let rest = course.pending.drop_first();
                if next.pending == rest {
                    assert(rest[i - 1] == step);
                } else if next.pending != course.pending {
                    assert(next.pending[course.recovery.len() + i] == step);
                }
                assert(next.pending.contains(step));
                law_complete_means_every_step_succeeded(next, outcomes.drop_first(), step);
            },
            Outcome::Failed(_) => {},
        }
    }
}

/// A step that was taken is not taken again, and nothing else changes.
pub proof fn law_taken_steps_are_done(course: Course)
    requires
        course.pending.len() > 0,
    ensures
        follow(course, true) matches Outcome::Going(next) && {
            &&& course.pending == seq![course.pending[0]] + next.pending
            &&& next.recovery == course.recovery
            &&& next.bus_failures == course.bus_failures
            &&& next.retried == course.retried
        },
{
    let rest = course.pending.drop_first();
    assert(course.pending =~= seq![course.pending[0]] + rest);
}

/// A step that failed is passed over if the camera can do without it: the reset
/// line, the registers written one by one, and the bypass.
pub proof fn law_dispensable_steps_may_fail(course: Course)
    requires
        course.pending.len() > 0,
    ensures
        ({
            let step = course.pending[0];
            step is HoldReset || step is ReleaseReset || step is ProgramSensor
                || step is BypassProcessor
        }) ==> follow(course, false) == follow(course, true),
{
}

/// A bus that does not recover is tried five times, and done without then.
pub proof fn law_bus_recovery_is_tried_five_times(course: Course)
    requires
        course.pending.len() > 0,
        course.pending[0] is RecoverBus,
        course.bus_failures < 5,
    ensures
        follow(course, false) matches Outcome::Going(next) && {
            &&& next.bus_failures == course.bus_failures + 1
            &&& next.bus_failures < 5 ==> next.pending == course.pending
            &&& next.bus_failures == 5 ==> seq![Step::RecoverBus] + next.pending == course.pending
            &&& next.retried == course.retried
            &&& next.recovery == course.recovery
        },
{
    assert(seq![Step::RecoverBus] + course.pending.drop_first() =~= course.pending);
}

/// A sensor that does not come up is reset and tried once more; the second
/// failure is final.
pub proof fn law_sensor_is_tried_twice(course: Course)
    requires
        course.pending.len() > 0,
        course.pending[0] is InitSensor,
    ensures
        !course.retried ==> (follow(course, false) matches Outcome::Going(next) && {
            &&& next.pending == course.recovery + course.pending
            &&& next.retried
            &&& next.bus_failures == course.bus_failures
            &&& next.recovery == course.recovery
        }),
        course.retried ==> follow(course, false) == Outcome::Failed(Step::InitSensor),
{
}

/// Every other step is tried once, and its failure is the failure of the whole.
pub proof fn law_other_failures_are_final(course: Course)
    requires
        course.pending.len() > 0,
    ensures
        ({
            let step = course.pending[0];
            step is ConfigureReset || step is CreateBus || step is AddDevice || step is PowerPhy
                || step is CreateController || step is RegisterCallbacks || step is EnableController
                || step is StartController || step is CreateProcessor || step is QueueFrame
        }) ==> follow(course, false) == Outcome::Failed(course.pending[0]),
{
}

/// In every order the reset is held before it is released, the receiver is
/// started before frames are processed, and the sensor is reached over a bus
/// that exists. A sensor that is initialised ahead of the receiver, or behind
/// it, is so in the orders named for it.
pub proof fn law_steps_come_in_order(bypass: bool)
    ensures
        Sequence::Lenient.steps().len() == 14,
        Sequence::SensorFirst.steps().len() == 13,
        (Sequence::ReceiverFirst { bypass }).steps().len() == if bypass {
            13int
        } else {
            12
        },
        Sequence::Lenient.steps()[6] is ProgramSensor,
        Sequence::SensorFirst.steps()[5] is InitSensor,
        (Sequence::ReceiverFirst { bypass }).steps().last() is InitSensor,
        (Sequence::ReceiverFirst { bypass }).steps()[10] is BypassProcessor <==> bypass,
        Sequence::Lenient.steps().subrange(7, 13) == receiver_steps(),
        Sequence::SensorFirst.steps().subrange(6, 12) == receiver_steps(),
        (Sequence::ReceiverFirst { bypass }).steps().subrange(4, 10) == receiver_steps(),
        Sequence::Lenient.steps().take(5) == Sequence::SensorFirst.steps().take(5),
        Sequence::Lenient.steps().take(5) == seq![
            Step::ConfigureReset,
            Step::HoldReset,
            Step::CreateBus,
            Step::AddDevice,
            Step::ReleaseReset,
        ],
        (Sequence::ReceiverFirst { bypass }).steps().take(4) == seq![
            Step::ConfigureReset,
            Step::HoldReset,
            Step::CreateBus,
            Step::ReleaseReset,
        ],
{
    assert(Sequence::Lenient.steps().subrange(7, 13) =~= receiver_steps());
    assert(Sequence::SensorFirst.steps().subrange(6, 12) =~= receiver_steps());
    assert((Sequence::ReceiverFirst { bypass }).steps().subrange(4, 10) =~= receiver_steps());
}

/// A sensor that has to be tried again is reset, over a line that is set up anew
/// unless the receiver runs already.
pub proof fn law_recovery_resets_the_sensor(bypass: bool)
    ensures
        Sequence::Lenient.recovery() == seq![
            Step::ConfigureReset,
            Step::HoldReset,
            Step::ReleaseReset,
        ],
        Sequence::SensorFirst.recovery() == Sequence::Lenient.recovery(),
        (Sequence::ReceiverFirst { bypass }).recovery() == seq![
            Step::HoldReset,
            Step::ReleaseReset,
        ],
{
}

} // verus!
