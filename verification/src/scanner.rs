//! The sweep of the rangefinder, as a machine that says what to do next and
//! takes how it went.
//!
//! A sweep visits the slots `0..resolution` in order. At each slot the
//! actuator is aimed, then one distance is read, then the reading is
//! published in the slot. A slot whose aiming or reading fails is left as it
//! was and the sweep goes on with the next one. After the last slot the sweep
//! is counted and the next sweep starts.

use vstd::prelude::*;

verus! {

/// What is done next at the current slot.
#[derive(Clone, Copy, Debug, PartialEq, Eq)]
pub enum Phase {
    /// Aim the actuator at the slot.
    Aim,
    /// Read one distance.
    Measure,
    /// Publish the distance that was read.
    Publish(u16),
    /// Count the sweep that has ended.
    Count,
}

/// What the scanner asks for.
#[derive(Clone, Copy, Debug, PartialEq, Eq)]
pub enum ScanRequest {
    /// Aim the actuator at step `step` of `steps` equal steps of the range.
    Aim { step: usize, steps: usize },
    /// Read one distance.
    Measure,
    /// Put the reading for step `step` of `steps` into slot `slot`.
    Publish { slot: usize, step: usize, steps: usize, distance: u16 },
    /// Add one to the number of sweeps.
    CountSweep,
}

/// How a request went.
#[derive(Clone, Copy, Debug, PartialEq, Eq)]
pub enum ScanReply {
    /// It was done.
    Done,
    /// This distance was read.
    Distance(u16),
    /// It failed.
    Failed,
}

/// Where a sweep stands: the slot and what is done next there.
#[derive(Clone, Copy, Debug, PartialEq, Eq)]
pub struct Position {
    pub index: usize,
    pub phase: Phase,
}

/// A scanner over `resolution` slots.
pub struct Scanner {
    resolution: usize,
    position: Position,
}

/// The position is one of a sweep over `resolution` slots.
pub open spec fn in_sweep(at: Position, resolution: usize) -> bool {
    if at.phase is Count {
        at.index == 0
    } else {
        at.index < resolution
    }
}

/// The position at which every sweep starts.
pub open spec fn sweep_start(resolution: usize) -> Position {
    if resolution == 0 {
        Position { index: 0, phase: Phase::Count }
    } else {
        Position { index: 0, phase: Phase::Aim }
    }
}

/// The position after the slot of `at` is done with: the next slot, or the
/// count after the last one.
pub open spec fn after_slot(at: Position, resolution: usize) -> Position {
    if at.index + 1 < resolution {
        Position { index: (at.index + 1) as usize, phase: Phase::Aim }
    } else {
        Position { index: 0, phase: Phase::Count }
    }
}

/// What the scanner asks for at a position.
pub open spec fn request_at(at: Position, resolution: usize) -> ScanRequest {
    match at.phase {
        Phase::Aim => ScanRequest::Aim { step: at.index, steps: resolution },
        Phase::Measure => ScanRequest::Measure,
        Phase::Publish(distance) => ScanRequest::Publish {
            slot: at.index,
            step: at.index,
            steps: resolution,
            distance,
        },
        Phase::Count => ScanRequest::CountSweep,
    }
}

/// The position after `at` once the request made there went as `reply`
/// says.
///
/// The reading follows the aiming and the publishing the reading, only where
/// the step before succeeded; a failure leaves the slot and goes on. The
/// slot is left after publishing, and a new sweep starts after counting,
/// however these went.
pub open spec fn next_position(at: Position, resolution: usize, reply: ScanReply) -> Position {
    match at.phase {
        Phase::Aim => match reply {
            ScanReply::Done => Position { index: at.index, phase: Phase::Measure },
            _ => after_slot(at, resolution),
        },
        Phase::Measure => match reply {
            ScanReply::Distance(d) => Position { index: at.index, phase: Phase::Publish(d) },
            _ => after_slot(at, resolution),
        },
        Phase::Publish(_) => after_slot(at, resolution),
        Phase::Count => sweep_start(resolution),
    }
}

/// How far a position is into its sweep: three steps for each slot before
/// it, and the steps taken at its own slot.
pub open spec fn progress(at: Position, resolution: usize) -> int {
    match at.phase {
        Phase::Aim => 3 * at.index,
        Phase::Measure => 3 * at.index + 1,
        Phase::Publish(_) => 3 * at.index + 2,
        Phase::Count => 3 * resolution,
    }
}

/// Every step of a sweep leads to a position of the sweep.
pub proof fn lemma_step_stays_in_sweep(at: Position, resolution: usize, reply: ScanReply)
    requires
        in_sweep(at, resolution),
    ensures
        in_sweep(next_position(at, resolution, reply), resolution),
{
}

/// Within a sweep every step moves forward, whatever the reply: no request
/// is made twice for one slot.
pub proof fn lemma_sweep_moves_forward(at: Position, resolution: usize, reply: ScanReply)
    requires
        in_sweep(at, resolution),
        !(at.phase is Count),
    ensures
        progress(next_position(at, resolution, reply), resolution) > progress(at, resolution),
{
}

/// A slot whose aiming or reading failed is not published: the scanner goes
/// on with the next slot, or counts the sweep after the last one.
pub proof fn lemma_failure_skips_slot(at: Position, resolution: usize)
    requires
        in_sweep(at, resolution),
        at.phase is Aim || at.phase is Measure,
    ensures
        next_position(at, resolution, ScanReply::Failed) == after_slot(at, resolution),
        !(request_at(next_position(at, resolution, ScanReply::Failed), resolution) is Publish),
{
}

/// A slot is published with the distance that was read at it, and only
/// after the actuator was aimed at it.
pub proof fn lemma_slot_done_in_order(at: Position, resolution: usize, distance: u16)
    requires
        in_sweep(at, resolution),
        at.phase is Aim,
    ensures
        ({
            let aimed = next_position(at, resolution, ScanReply::Done);
            let read = next_position(aimed, resolution, ScanReply::Distance(distance));
            &&& request_at(at, resolution) == ScanRequest::Aim {
                step: at.index,
                steps: resolution,
            }
            &&& request_at(aimed, resolution) == ScanRequest::Measure
            &&& request_at(read, resolution) == ScanRequest::Publish {
                slot: at.index,
                step: at.index,
                steps: resolution,
                distance,
            }
            &&& next_position(read, resolution, ScanReply::Done) == after_slot(at, resolution)
        }),
{
}

impl Scanner {
    #[verifier::type_invariant]
    spec fn in_own_sweep(self) -> bool {
        in_sweep(self.position, self.resolution)
    }

    /// The number of slots.
    pub closed spec fn slots(self) -> usize {
        self.resolution
    }

    /// Where the sweep stands.
    pub closed spec fn at(self) -> Position {
        self.position
    }

    /// A scanner at the start of its first sweep.
    pub fn new(resolution: usize) -> (s: Scanner)
        ensures
            s.slots() == resolution,
            s.at() == sweep_start(resolution),
    {
        if resolution == 0 {
            Scanner { resolution, position: Position { index: 0, phase: Phase::Count } }
        } else {
            Scanner { resolution, position: Position { index: 0, phase: Phase::Aim } }
        }
    }

    /// The number of slots.
    pub fn resolution(&self) -> (n: usize)
        ensures
            n == self.slots(),
    {
        self.resolution
    }

    /// Where the sweep stands.
    pub fn position(&self) -> (at: Position)
        ensures
            at == self.at(),
            in_sweep(at, self.slots()),
    {
        proof {
            use_type_invariant(self);
        }
        self.position
    }

    /// What to do next.
    pub fn request(&self) -> (r: ScanRequest)
        ensures
            r == request_at(self.at(), self.slots()),
    {
        match self.position.phase {
            Phase::Aim => ScanRequest::Aim { step: self.position.index, steps: self.resolution },
            Phase::Measure => ScanRequest::Measure,
            Phase::Publish(distance) => ScanRequest::Publish {
                slot: self.position.index,
                step: self.position.index,
                steps: self.resolution,
                distance,
            },
            Phase::Count => ScanRequest::CountSweep,
        }
    }

    /// Takes how the last request went and moves on.
    pub fn advance(&mut self, reply: ScanReply)
        ensures
            final(self).slots() == old(self).slots(),
            final(self).at() == next_position(old(self).at(), old(self).slots(), reply),
    {
        proof {
            use_type_invariant(&*self);
        }
        let at = self.position;
        let leave: Position = if at.index < self.resolution && at.index + 1 < self.resolution {
            Position { index: at.index + 1, phase: Phase::Aim }
        } else {
            Position { index: 0, phase: Phase::Count }
        };
        let next: Position = match at.phase {
            Phase::Aim => match reply {
                ScanReply::Done => Position { index: at.index, phase: Phase::Measure },
                _ => leave,
            },
            Phase::Measure => match reply {
                ScanReply::Distance(d) => Position { index: at.index, phase: Phase::Publish(d) },
                _ => leave,
            },
            Phase::Publish(_) => leave,
            Phase::Count => if self.resolution == 0 {
                Position { index: 0, phase: Phase::Count }
            } else {
                Position { index: 0, phase: Phase::Aim }
            },
        };
        self.position = next;
    }
}

} // verus!
