//! The doorbell watcher: what its thread does each time its wait ends.

use vstd::prelude::*;

verus! {

/// The doorbell wait's upper bound, so a stop is seen even if the stop's own ring fails.
pub const POLL_NS: u64 = 1_000_000_000;

/// A watch on a doorbell's word: the value last acted on.
#[derive(Clone, Copy, Debug, PartialEq, Eq, Structural)]
pub struct DoorbellWatch {
    pub seen: u32,
}

/// What the doorbell thread does now.
#[derive(Clone, Copy, Debug, PartialEq, Eq, Structural)]
pub enum DoorbellStep {
    /// Wait until the word differs from the value seen.
    Wait { seen: u32 },
    /// The doorbell rang: kick every shard, then wait.
    Kick,
    /// The word could not be read, or the wait was refused: the thread ends, by name.
    Refused,
    /// The daemon stopped the thread.
    Stop,
}

impl DoorbellWatch {
    /// The watch after a wait.
    pub open spec fn after(self, now: Option<u32>) -> DoorbellWatch {
        match now {
            Some(now) => DoorbellWatch { seen: now },
            None => self,
        }
    }

    /// What the thread does after a wait.
    pub open spec fn step_on(self, now: Option<u32>, stopped: bool) -> DoorbellStep {
        match now {
            None => DoorbellStep::Refused,
            Some(now) => if stopped {
                DoorbellStep::Stop
            } else if now != self.seen {
                DoorbellStep::Kick
            } else {
                DoorbellStep::Wait { seen: now }
            },
        }
    }

    /// The watch on a doorbell as it reads now.
    pub open spec fn started(current: Option<u32>) -> Option<DoorbellWatch> {
        match current {
            Some(seen) => Some(DoorbellWatch { seen }),
            None => None,
        }
    }

    /// Starts a watch at the word's value, which may be refused.
    pub fn start(current: Option<u32>) -> (watch: Option<DoorbellWatch>)
        ensures
            watch == Self::started(current),
    {
        match current {
            Some(seen) => Some(DoorbellWatch { seen }),
            None => None,
        }
    }

    /// What a turn of the watch does.
    pub open spec fn turned(self, stopped: bool) -> DoorbellStep {
        if stopped {
            DoorbellStep::Stop
        } else {
            DoorbellStep::Wait { seen: self.seen }
        }
    }

    /// What the thread does before a wait.
    pub fn turn(&self, stopped: bool) -> (step: DoorbellStep)
        ensures
            step == self.turned(stopped),
    {
        if stopped {
            DoorbellStep::Stop
        } else {
            DoorbellStep::Wait { seen: self.seen }
        }
    }

    /// What the thread does after a wait: a refused wait ends it rather than spinning; a stop goes
    /// before a ring; and a changed word is a ring, whenever it changed.
    pub fn woken(&mut self, now: Option<u32>, stopped: bool) -> (step: DoorbellStep)
        ensures
            *final(self) == old(self).after(now),
            step == old(self).step_on(now, stopped),
    {
        let now: u32 = match now {
            Some(now) => now,
            None => {
                return DoorbellStep::Refused;
            },
        };
        let rang = now != self.seen;
        self.seen = now;
        if stopped {
            DoorbellStep::Stop
        } else if rang {
            DoorbellStep::Kick
        } else {
            DoorbellStep::Wait { seen: now }
        }
    }
}

/// A ring is never lost: whatever the word was when the shards were last kicked, a word that differs
/// from it at the next wait's end is a ring, even if it changed while they were being kicked.
pub proof fn a_ring_during_a_kick_is_seen(watch: DoorbellWatch, kicked: u32, word: u32)
    requires
        watch.step_on(Some(kicked), false) == DoorbellStep::Kick,
        word != kicked,
    ensures
        watch.after(Some(kicked)).step_on(Some(word), false) == DoorbellStep::Kick,
{
}

/// A watch waits on the count it last saw, until it is stopped; a woken one kicks exactly when the
/// count moved, refuses a count it cannot read and keeps its own, and otherwise waits on the new one.
pub proof fn a_ring_is_a_moved_count(watch: DoorbellWatch, now: Option<u32>, stopped: bool)
    ensures
        watch.step_on(now, stopped) is Kick <==> now is Some && !stopped && now != Some(watch.seen),
        watch.step_on(now, stopped) is Refused <==> now is None,
        watch.step_on(now, stopped) is Stop <==> now is Some && stopped,
        watch.step_on(now, stopped) matches DoorbellStep::Wait { seen } ==> now == Some(seen)
            && seen == watch.seen,
        now is None ==> watch.after(now) == watch,
        now matches Some(count) ==> watch.after(now).seen == count,
        watch.turned(stopped) is Stop <==> stopped,
        !stopped ==> watch.turned(stopped) == (DoorbellStep::Wait { seen: watch.seen }),
        DoorbellWatch::started(now) is Some <==> now is Some,
        now matches Some(count) ==> DoorbellWatch::started(now) == Some(
            DoorbellWatch { seen: count },
        ),
{
}

} // verus!
