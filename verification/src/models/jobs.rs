//! What the runners' own hooks reported.

use vstd::prelude::*;

use crate::models::copy_text;

verus! {

/// One line of a runner's event log: a job that started or completed.
#[derive(Debug, PartialEq, Eq)]
pub struct HookEvent {
    /// `started` or `completed`.
    pub phase: String,
    pub ts: i64,
    /// `owner/name`.
    pub repo: String,
    pub run_id: i64,
    pub run_attempt: i64,
    pub job: String,
    pub runner: String,
}

/// A recent job: hook timing, and a conclusion once one is known.
#[derive(Debug, PartialEq, Eq)]
pub struct JobRow {
    pub runner_name: String,
    pub repo: String,
    pub job: String,
    pub started_at: Option<i64>,
    pub completed_at: Option<i64>,
    pub conclusion: Option<String>,
}

/// A completed job whose conclusion is not known yet.
#[derive(Debug, PartialEq, Eq)]
pub struct PendingConclusion {
    pub org: String,
    pub repo: String,
    pub run_id: i64,
    pub run_attempt: i64,
    pub job: String,
    pub runner_name: String,
}

/// A resolved job conclusion.
#[derive(Debug, Clone, PartialEq, Eq)]
pub struct JobConclusion {
    pub run_id: i64,
    pub run_attempt: i64,
    pub job: String,
    pub runner_name: String,
    pub conclusion: String,
}

impl Clone for HookEvent {
    fn clone(&self) -> (r: Self)
        ensures
            r == *self,
    {
        HookEvent {
            phase: self.phase.clone(),
            ts: self.ts,
            repo: self.repo.clone(),
            run_id: self.run_id,
            run_attempt: self.run_attempt,
            job: self.job.clone(),
            runner: self.runner.clone(),
        }
    }
}

impl Clone for PendingConclusion {
    fn clone(&self) -> (r: Self)
        ensures
            r == *self,
    {
        PendingConclusion {
            org: self.org.clone(),
            repo: self.repo.clone(),
            run_id: self.run_id,
            run_attempt: self.run_attempt,
            job: self.job.clone(),
            runner_name: self.runner_name.clone(),
        }
    }
}

impl Clone for JobRow {
    fn clone(&self) -> (r: Self)
        ensures
            r == *self,
    {
        JobRow {
            runner_name: self.runner_name.clone(),
            repo: self.repo.clone(),
            job: self.job.clone(),
            started_at: self.started_at,
            completed_at: self.completed_at,
            conclusion: copy_text(&self.conclusion),
        }
    }
}

} // verus!
