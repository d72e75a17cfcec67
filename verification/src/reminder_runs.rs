//! The decisions of the reminder service: when the schedule is reconciled
//! after a change, which of several pending runs may act, and when due
//! reminders are delivered by the app itself.
use vstd::prelude::*;

verus! {

/// What a pending reconcile run does once its debounce delay is over.
#[derive(Debug, Clone, Copy, PartialEq, Eq, Structural)]
pub enum RunStep {
    /// A later change started another run; this one does nothing.
    Stale,
    /// No user is signed in: every pending notification is cleared.
    ClearAll,
    /// The platform's schedule is brought in line with the desired one.
    Reconcile,
}

/// The counter of reconcile runs: each change that starts a run makes the
/// runs started before it stale.
pub struct ReminderRuns {
    pub generation: u64,
}

impl ReminderRuns {
    /// No run started yet.
    pub fn new() -> (r: Self)
        ensures
            r.generation == 0,
    {
        ReminderRuns { generation: 0 }
    }

    /// The notes changed.  Once the store is loaded and the platform
    /// delivers in the background, a run starts and its number is returned;
    /// otherwise nothing starts.
    pub fn start(&mut self, hydrated: bool, background: bool) -> (r: Option<u64>)
        requires
            old(self).generation < u64::MAX,
        ensures
            hydrated && background ==> final(self).generation == old(self).generation + 1 && r
                == Some(final(self).generation),
            !(hydrated && background) ==> final(self).generation == old(self).generation && r
                is None,
    {
        if !hydrated || !background {
            return None;
        }
        self.generation = self.generation + 1;
        Some(self.generation)
    }

    /// What run `run` does after its delay, with `user_id` signed in (empty
    /// for nobody).
    pub fn after_debounce(&self, run: u64, user_id: &str) -> (r: RunStep)
        ensures
            run != self.generation ==> r == RunStep::Stale,
            run == self.generation && user_id@.len() == 0 ==> r == RunStep::ClearAll,
            run == self.generation && user_id@.len() != 0 ==> r == RunStep::Reconcile,
    {
        if run != self.generation {
            RunStep::Stale
        } else if user_id.is_empty() {
            RunStep::ClearAll
        } else {
            RunStep::Reconcile
        }
    }
}

/// Only the latest run acts: a run started before another one is stale.
pub proof fn lemma_only_latest_run_acts(first: u64, runs: ReminderRuns, later: ReminderRuns)
    requires
        first <= runs.generation,
        later.generation > runs.generation,
    ensures
        first != later.generation,
{
}

/// Due reminders are delivered by the app itself when the platform does not
/// deliver them in the background, the local time is known, and a user is
/// signed in.
pub fn should_deliver_due(background: bool, offset_ready: bool, user_id: &str) -> (r: bool)
    ensures
        r == (!background && offset_ready && user_id@.len() != 0),
{
    !background && offset_ready && !user_id.is_empty()
}

/// A reconcile with no action to carry out does nothing.
pub fn has_work<T>(actions: &Vec<T>) -> (r: bool)
    ensures
        r == (actions@.len() != 0),
{
    actions.len() != 0
}

} // verus!
