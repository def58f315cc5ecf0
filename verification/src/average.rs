//! Averaging meter readings, as steps around the readings and the arithmetic on them.

use crate::meters::METERS;
use vstd::prelude::*;

verus! {

/// An average over a number of readings that is still missing some.
pub struct Averaging {
    frames: usize,
    taken: usize,
}

/// What an average needs next.
pub enum AverageStep {
    /// One more reading, to be added to the sum.
    Read(Averaging),
    /// The division of the sum by the number of readings.
    Divide(usize),
}

impl Averaging {
    #[verifier::type_invariant]
    spec fn unfinished(self) -> bool {
        self.taken < self.frames
    }

    /// How many readings the average is over.
    pub closed spec fn frames(self) -> nat {
        self.frames as nat
    }

    /// How many readings there are so far.
    pub closed spec fn taken(self) -> nat {
        self.taken as nat
    }

    /// Takes the next reading, which is to be added to the sum, or ends with the error that came
    /// in its place.
    pub fn read<E>(self, outcome: Result<[u32; METERS], E>) -> (r: Result<
        ([u32; METERS], AverageStep),
        E,
    >)
        ensures
            match outcome {
                Ok(meters) => r matches Ok((added, step)) && added == meters && average_at(
                    self.frames(),
                    self.taken() + 1,
                    step,
                ),
                Err(error) => r == Err::<([u32; METERS], AverageStep), E>(error),
            },
    {
        proof {
            use_type_invariant(&self);
        }
        match outcome {
            Ok(meters) => Ok((meters, average_step(self.frames, self.taken + 1))),
            Err(error) => Err(error),
        }
    }
}

/// What an average over `frames` readings needs when it has `taken` of them.
pub open spec fn average_at(frames: nat, taken: nat, step: AverageStep) -> bool {
    match step {
        AverageStep::Read(averaging) => {
            &&& taken < frames
            &&& averaging.frames() == frames
            &&& averaging.taken() == taken
        },
        AverageStep::Divide(by) => taken == frames && by == frames,
    }
}

/// What an average over `frames` readings needs when it has `taken` of them.
fn average_step(frames: usize, taken: usize) -> (step: AverageStep)
    requires
        taken <= frames,
    ensures
        average_at(frames as nat, taken as nat, step),
{
    if taken < frames {
        AverageStep::Read(Averaging { frames, taken })
    } else {
        AverageStep::Divide(frames)
    }
}

/// Starts an average over a number of readings.
pub fn average(frames: usize) -> (step: AverageStep)
    ensures
        average_at(frames as nat, 0, step),
{
    average_step(frames, 0)
}

/// An average over a number of readings takes each of them once, and divides by their number after
/// the last.
pub proof fn law_average_takes_each_reading_once(frames: nat, steps: Seq<AverageStep>)
    requires
        steps.len() == frames + 1,
        average_at(frames, 0, steps[0]),
        forall|i: int|
            0 <= i < frames ==> (#[trigger] steps[i] matches AverageStep::Read(averaging)
                ==> average_at(averaging.frames(), averaging.taken() + 1, steps[i + 1])),
    ensures
        forall|i: int| 0 <= i < frames ==> #[trigger] steps[i] is Read,
        steps[frames as int] matches AverageStep::Divide(by) && by == frames,
{
    assert forall|i: int| 0 <= i <= frames implies average_at(
        frames,
        i as nat,
        #[trigger] steps[i],
    ) by {
        lemma_average_at(frames, steps, i as nat);
    }
    assert(average_at(frames, frames, steps[frames as int]));
}

/// After a number of readings, an average needs what that number leaves to be done.
proof fn lemma_average_at(frames: nat, steps: Seq<AverageStep>, taken: nat)
    requires
        taken <= frames,
        steps.len() == frames + 1,
        average_at(frames, 0, steps[0]),
        forall|i: int|
            0 <= i < frames ==> (#[trigger] steps[i] matches AverageStep::Read(averaging)
                ==> average_at(averaging.frames(), averaging.taken() + 1, steps[i + 1])),
    ensures
        average_at(frames, taken, steps[taken as int]),
    decreases taken,
{
    if taken > 0 {
        lemma_average_at(frames, steps, (taken - 1) as nat);
        assert(steps[taken - 1] is Read);
    }
}

} // verus!
