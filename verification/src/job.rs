//! The background-job result cell.
//!
//! A job is one attempt at a unit of work that runs independently of any
//! observer.  Its observable surface is a single write-once cell: empty
//! while the work runs, then holding the outcome forever.  Pollers read
//! the cell any number of times; the background task writes it exactly
//! once, on success and on failure alike, so no error is ever dropped and
//! no job stays in progress after its work has concluded.
//!
//! Cancellation is deliberately absent from this surface: rather than
//! advertise a hook that nothing honours, the contract has none, and a
//! poller that loses interest simply abandons its handle while the
//! attempt runs out.

use vstd::prelude::*;

use crate::download::DownloadError;

verus! {

/// What a poll reports: still running, finished with an output, or failed
/// terminally.
#[derive(Clone, Debug)]
pub enum JobState<P, O, E> {
    InProgress(P),
    Completed(O),
    Errored(E),
}

/// The state a cell content denotes: empty means in progress, a written
/// outcome means the matching terminal state.
pub open spec fn job_state_of(slot: Option<Result<String, DownloadError>>) -> JobState<
    (),
    String,
    DownloadError,
> {
    match slot {
        None => JobState::InProgress(()),
        Some(Ok(path)) => JobState::Completed(path),
        Some(Err(e)) => JobState::Errored(e),
    }
}

/// The write-once result cell of a download job.  The outcome, once
/// written, never changes: one cell is one attempt.
pub struct JobCell {
    slot: Option<Result<String, DownloadError>>,
}

impl JobCell {
    /// The outcome written so far, if any.
    pub closed spec fn result(self) -> Option<Result<String, DownloadError>> {
        self.slot
    }

    /// A fresh cell: no outcome yet, so it polls as in progress.
    pub fn new() -> (r: Self)
        ensures
            r.result() is None,
    {
        Self { slot: None }
    }

    /// Records the single terminal outcome.  A cell is written at most
    /// once; success and failure go through the same door.
    pub fn complete(&mut self, outcome: Result<String, DownloadError>)
        requires
            old(self).result() is None,
        ensures
            final(self).result() == Some(outcome),
    {
        self.slot = Some(outcome);
    }

    /// Reads the current state without waiting for the work: the cell's
    /// content decides, and repeated polls of an unchanged cell repeat
    /// the same answer.
    pub fn poll(&self) -> (s: JobState<(), String, DownloadError>)
        ensures
            s == job_state_of(self.result()),
    {
        match &self.slot {
            None => JobState::InProgress(()),
            Some(Ok(path)) => JobState::Completed(path.clone()),
            Some(Err(e)) => JobState::Errored(e.duplicate()),
        }
    }
}

/// LAW — job lifecycle: before its write a cell polls as in progress;
/// the write moves it to exactly one terminal state, the one matching the
/// outcome; and because a written cell refuses further writes and a poll
/// never changes the cell, every later poll repeats that state.
pub proof fn lemma_job_lifecycle(outcome: Result<String, DownloadError>)
    ensures
        job_state_of(None) is InProgress,
        outcome is Ok ==> job_state_of(Some(outcome)) == JobState::<(), String, DownloadError>::Completed(outcome->Ok_0),
        outcome is Err ==> job_state_of(Some(outcome)) == JobState::<(), String, DownloadError>::Errored(outcome->Err_0),
        !(job_state_of(Some(outcome)) is InProgress),
        !(job_state_of(Some(outcome)) is Completed && job_state_of(Some(outcome)) is Errored),
{
}

} // verus!
