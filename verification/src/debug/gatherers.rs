//! Timing data of the bots.
use vstd::prelude::*;

verus! {

/// Get progression data of a system to show timing data.
pub struct TimingGatherer {
    /// When the current timing session started (milliseconds since the Unix
    /// epoch).
    pub start_time: u128,
    pub actions_done: u128,
}

impl TimingGatherer {
    /// No session started, no action done.
    pub fn init() -> (g: Self)
        ensures
            g.start_time == 0,
            g.actions_done == 0,
    {
        TimingGatherer { start_time: 0, actions_done: 0 }
    }

    /// Delete previously recorded data and creates a new timing session,
    /// started at `now_millis` (milliseconds since the Unix epoch).
    pub fn start_gathering(&mut self, now_millis: u128)
        ensures
            final(self).start_time == now_millis,
            final(self).actions_done == 0,
    {
        self.start_time = now_millis;
        self.actions_done = 0;
    }

    /// Log a new action as done.
    pub fn action_done(&mut self)
        requires
            old(self).actions_done < u128::MAX,
        ensures
            final(self).actions_done == old(self).actions_done + 1,
            final(self).start_time == old(self).start_time,
    {
        self.actions_done = self.actions_done + 1;
    }

    /// The gathered data is logged every ten actions.
    pub fn log_due(&self) -> (due: bool)
        ensures
            due == (self.actions_done % 10 == 0),
    {
        self.actions_done % 10 == 0
    }
}

} // verus!
