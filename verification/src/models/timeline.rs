//! The timeline payload: what changed in a window, and optionally the raw
//! samples underneath it. A timeline is edges, not samples.

use vstd::prelude::*;

use crate::models::{copy_text, GhView, Liveness};

verus! {

/// What a client asks for.
#[derive(Debug, PartialEq, Eq)]
pub struct TimelineQuery {
    /// Inclusive lower bound of the window.
    pub since_ts: i64,
    /// Maximum rows per collection.
    pub limit: usize,
    /// Restrict to one org.
    pub org: Option<String>,
    /// Restrict to one runner, by display name.
    pub runner: Option<String>,
    /// Include the raw per-tick samples.
    pub samples: bool,
}

impl Clone for TimelineQuery {
    fn clone(&self) -> (r: Self)
        ensures
            r == *self,
    {
        TimelineQuery {
            since_ts: self.since_ts,
            limit: self.limit,
            org: copy_text(&self.org),
            runner: copy_text(&self.runner),
            samples: self.samples,
        }
    }
}

/// A bounded slice of a series, with whether it was cut.
#[derive(Debug, Clone, PartialEq, Eq)]
pub struct Bounded<T> {
    /// The rows kept, oldest first.
    pub items: Vec<T>,
    /// True when the limit dropped rows. The rows kept are the newest.
    pub limited: bool,
}

/// The first `limit` of `rows`, last first.
pub open spec fn newest_first_cut<T>(rows: Seq<T>, limit: nat) -> Seq<T> {
    if rows.len() <= limit {
        rows.reverse()
    } else {
        rows.take(limit as int).reverse()
    }
}

impl<T> Bounded<T> {
    /// Keep at most `limit` of `rows`, which arrive newest first, and flip them to
    /// chronological order. The single place where truncation happens.
    pub fn newest(rows: Vec<T>, limit: usize) -> (r: Self)
        ensures
            r.items@ == newest_first_cut(rows@, limit as nat),
            r.limited == (rows@.len() > limit),
    {
        let limited = rows.len() > limit;
        let ghost all = rows@;
        let mut rest = rows;
        rest.truncate(limit);
        let ghost kept = rest@;
        let mut items: Vec<T> = Vec::new();
        while rest.len() > 0
            invariant
                rest@.len() <= kept.len(),
                rest@ == kept.take(rest@.len() as int),
                items@ == kept.skip(rest@.len() as int).reverse(),
            decreases rest@.len(),
        {
            let ghost n = rest@.len() as int;
            match rest.pop() {
                Some(x) => {
                    items.push(x);
                    proof {
                        assert(x == kept[n - 1]);
                        assert(rest@ =~= kept.take(n - 1));
                        assert(items@ =~= kept.skip(n - 1).reverse());
                    }
                },
                None => {},
            }
        }
        proof {
            assert(kept.skip(0) =~= kept);
            if all.len() <= limit {
                assert(kept =~= all);
            } else {
                assert(kept =~= all.take(limit as int));
            }
        }
        Bounded { items, limited }
    }
}

/// The flag and the rows cannot disagree: rows are missing exactly where the
/// flag says so, no more than `limit` are kept, and what is kept is the newest,
/// oldest first.
pub proof fn bounded_is_the_newest_tail<T>(rows: Seq<T>, limit: nat)
    ensures
        newest_first_cut(rows, limit).len() == if rows.len() <= limit {
            rows.len()
        } else {
            limit
        },
        newest_first_cut(rows, limit).len() < rows.len() <==> rows.len() > limit,
        forall|i: int|
            0 <= i < newest_first_cut(rows, limit).len() ==> #[trigger] newest_first_cut(
                rows,
                limit,
            )[i] == rows[newest_first_cut(rows, limit).len() - 1 - i],
{
}

/// The window that an answer covers.
#[derive(Debug, Clone, PartialEq, Eq)]
pub struct Window {
    /// Requested lower bound, as an instant.
    pub since: String,
    pub since_epoch: i64,
    /// When the answer was made.
    pub until_epoch: i64,
    /// The oldest sample held, when it is newer than the lower bound.
    pub truncated_at: Option<i64>,
}

/// One observed change.
#[derive(Debug, Clone, PartialEq, Eq)]
pub struct Transition {
    pub ts: i64,
    /// The same instant, for people.
    pub at: String,
    pub org: String,
    pub edge: Edge,
}

/// What changed.
#[derive(Debug, Clone, PartialEq, Eq)]
pub enum Edge {
    /// A runner's local process liveness changed.
    Liveness { runner: String, from: Liveness, to: Liveness },
    /// GitHub's view of a runner flipped.
    GithubOnline { runner: String, online: bool },
    /// The org's reconcile started or stopped succeeding.
    Reconcile(ReconcileEdge),
}

/// Which way a reconcile edge went.
#[derive(Debug, Clone, PartialEq, Eq)]
pub enum ReconcileEdge {
    /// The org answered again after failing.
    Recovered,
    /// The org stopped answering, and why.
    Failed { error_kind: Option<String>, http_status: Option<u16> },
}

/// One job that started or completed.
#[derive(Debug, Clone, PartialEq, Eq)]
pub struct JobTransition {
    pub ts: i64,
    pub at: String,
    pub org: String,
    pub runner: String,
    pub repo: String,
    pub job: String,
    pub edge: JobEdge,
}

/// Which end of a job.
#[derive(Debug, Clone, PartialEq, Eq)]
pub enum JobEdge {
    Started,
    Completed { conclusion: Option<String> },
}

/// One runner at one tick: the local truth, and GitHub's view as of that tick.
#[derive(Debug, Clone, PartialEq, Eq)]
pub struct TimelinePoint {
    pub ts: i64,
    pub org: String,
    pub runner: String,
    pub liveness: Liveness,
    pub github: GhView,
}

/// The whole answer.
#[derive(Debug, Clone)]
pub struct Timeline {
    pub schema_version: u32,
    pub generated_at: String,
    pub generated_at_epoch: i64,
    pub window: Window,
    pub transitions: Bounded<Transition>,
    pub jobs: Bounded<JobTransition>,
    /// `None` means not requested, never none found.
    pub samples: Option<Bounded<TimelinePoint>>,
}

} // verus!
