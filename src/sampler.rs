//! The sampler: the snapshot that each timer tick overwrites, and how many
//! samples have been taken.

use vstd::prelude::*;

use crate::metrics::{MetricsSnapshot, Reading};
use crate::Message;

verus! {

/// The number of samples after one more, stopping at the largest `u64`.
pub open spec fn next_count(samples: u64) -> u64 {
    if samples < u64::MAX {
        (samples + 1) as u64
    } else {
        samples
    }
}

/// The applet's state: the latest snapshot and the count of samples.
#[derive(Debug, Clone, Copy, PartialEq, Eq, Structural)]
pub struct SysInfo {
    /// The values shown, from the latest sample.
    pub snapshot: MetricsSnapshot,
    /// How many samples have been taken (stops at the largest `u64`).
    pub samples: u64,
}

/// The state before the first tick.
pub open spec fn initial() -> SysInfo {
    SysInfo { snapshot: MetricsSnapshot::zero_spec(), samples: 0 }
}

/// The state after one tick that read `reading`.
pub open spec fn after_tick(s: SysInfo, reading: Reading) -> SysInfo {
    SysInfo { snapshot: reading.snapshot(), samples: next_count(s.samples) }
}

/// The state after a run of ticks, one per reading, in order.
pub open spec fn after_ticks(s: SysInfo, readings: Seq<Reading>) -> SysInfo
    decreases readings.len(),
{
    if readings.len() == 0 {
        s
    } else {
        after_tick(after_ticks(s, readings.drop_last()), readings.last())
    }
}

impl SysInfo {
    /// The state before the first tick: a zero snapshot and no samples.
    pub fn new() -> (r: SysInfo)
        ensures
            r == initial(),
    {
        SysInfo { snapshot: MetricsSnapshot::zero(), samples: 0 }
    }

    /// Takes a reading as the new sample: the snapshot becomes what the
    /// reading yields, and the count of samples goes up by one.
    pub fn update(&mut self, reading: &Reading)
        ensures
            *final(self) == after_tick(*old(self), *reading),
            final(self).snapshot == reading.snapshot(),
            final(self).samples == next_count(old(self).samples),
    {
        self.snapshot.record(reading);
        if self.samples < u64::MAX {
            self.samples = self.samples + 1;
        }
    }

    /// Handles an event of the applet, with the reading taken for it: each
    /// tick is exactly one sample.
    pub fn handle(&mut self, message: Message, reading: &Reading)
        ensures
            message == Message::Tick ==> *final(self) == after_tick(*old(self), *reading),
    {
        match message {
            Message::Tick => self.update(reading),
        }
    }
}

/// A run of N ticks from the start takes exactly N samples, none skipped and
/// none repeated, and shows what the last tick read (zero before any tick).
pub proof fn lemma_ticks_are_counted(readings: Seq<Reading>)
    requires
        readings.len() <= u64::MAX,
    ensures
        after_ticks(initial(), readings).samples == readings.len(),
        readings.len() == 0 ==> after_ticks(initial(), readings).snapshot
            == MetricsSnapshot::zero_spec(),
        readings.len() > 0 ==> after_ticks(initial(), readings).snapshot
            == readings.last().snapshot(),
    decreases readings.len(),
{
    if readings.len() > 0 {
        lemma_ticks_are_counted(readings.drop_last());
    }
}

} // verus!
