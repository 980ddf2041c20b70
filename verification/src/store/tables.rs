//! The tables of the store, row by row, and what makes them well formed.

use vstd::prelude::*;

use crate::models::{
    ApiReconcileState, ApiRunnerState, HostSample, RunnerSample, RunnerState,
};

verus! {

/// One reading of one runner by GitHub's API.
#[derive(Debug, PartialEq, Eq)]
pub struct ApiSample {
    pub ts: i64,
    pub agent_id: i64,
    pub org: String,
    pub name: String,
    pub online: bool,
    pub busy: bool,
}

/// The depth of an org's job queue at a tick.
#[derive(Debug, PartialEq, Eq)]
pub struct QueueSample {
    pub ts: i64,
    pub org: String,
    pub queued: i64,
    pub in_progress: i64,
}

/// The outcome of asking GitHub about one org at one tick.
#[derive(Debug, PartialEq, Eq)]
pub struct ReconcileSample {
    pub ts: i64,
    pub org: String,
    pub ok: bool,
    pub http_status: Option<u16>,
    pub error_kind: Option<String>,
    /// Runners that the fetch returned.
    pub runners: u64,
}

/// One job, merged from the events its hooks wrote. Keyed by run, attempt, job
/// and runner.
#[derive(Debug, PartialEq, Eq)]
pub struct JobEvent {
    pub run_id: i64,
    pub run_attempt: i64,
    pub job: String,
    pub repo: String,
    pub org: String,
    pub runner_name: String,
    pub started_at: Option<i64>,
    pub completed_at: Option<i64>,
    pub conclusion: Option<String>,
}

/// How far a tailed event log has been read.
#[derive(Debug, PartialEq, Eq)]
pub struct IngestOffset {
    pub stream: String,
    pub offset: i64,
}

/// What the store holds. Samples are in the order in which they were written.
#[derive(Debug)]
pub struct Db {
    pub runner_samples: Vec<RunnerSample>,
    pub host_samples: Vec<HostSample>,
    pub queue_samples: Vec<QueueSample>,
    pub api_samples: Vec<ApiSample>,
    pub reconcile_samples: Vec<ReconcileSample>,
    pub runner_states: Vec<RunnerState>,
    pub api_states: Vec<ApiRunnerState>,
    pub reconcile_states: Vec<ApiReconcileState>,
    pub jobs: Vec<JobEvent>,
    pub offsets: Vec<IngestOffset>,
}

// ---------------------------------------------------------------------------
// Rows as values
// ---------------------------------------------------------------------------

/// The characters of an optional text.
pub open spec fn opt_view(t: Option<String>) -> Option<Seq<char>> {
    match t {
        Some(s) => Some(s@),
        None => None,
    }
}

/// An org's health row.
pub struct Health {
    pub org: Seq<char>,
    pub last_ok_ts: Option<i64>,
    pub last_try_ts: i64,
    pub ok: bool,
    pub http_status: Option<u16>,
    pub error_kind: Option<Seq<char>>,
    pub configured: bool,
}

impl View for ApiReconcileState {
    type V = Health;

    open spec fn view(&self) -> Health {
        Health {
            org: self.org@,
            last_ok_ts: self.last_ok_ts,
            last_try_ts: self.last_try_ts,
            ok: self.ok,
            http_status: self.http_status,
            error_kind: opt_view(self.error_kind),
            configured: self.configured,
        }
    }
}

/// An audit row.
pub struct Audit {
    pub ts: i64,
    pub org: Seq<char>,
    pub ok: bool,
    pub http_status: Option<u16>,
    pub error_kind: Option<Seq<char>>,
    pub runners: int,
}

impl View for ReconcileSample {
    type V = Audit;

    open spec fn view(&self) -> Audit {
        Audit {
            ts: self.ts,
            org: self.org@,
            ok: self.ok,
            http_status: self.http_status,
            error_kind: opt_view(self.error_kind),
            runners: self.runners as int,
        }
    }
}

/// A job row.
pub struct Job {
    pub run_id: i64,
    pub run_attempt: i64,
    pub job: Seq<char>,
    pub repo: Seq<char>,
    pub org: Seq<char>,
    pub runner_name: Seq<char>,
    pub started_at: Option<i64>,
    pub completed_at: Option<i64>,
    pub conclusion: Option<Seq<char>>,
}

impl Job {
    /// The key of a job row.
    pub open spec fn key(self) -> (i64, i64, Seq<char>, Seq<char>) {
        (self.run_id, self.run_attempt, self.job, self.runner_name)
    }
}

impl View for JobEvent {
    type V = Job;

    open spec fn view(&self) -> Job {
        Job {
            run_id: self.run_id,
            run_attempt: self.run_attempt,
            job: self.job@,
            repo: self.repo@,
            org: self.org@,
            runner_name: self.runner_name@,
            started_at: self.started_at,
            completed_at: self.completed_at,
            conclusion: opt_view(self.conclusion),
        }
    }
}

/// The health rows of a table.
pub open spec fn healths(v: Seq<ApiReconcileState>) -> Seq<Health> {
    v.map_values(|x: ApiReconcileState| x@)
}

/// The audit rows of a table.
pub open spec fn audits(v: Seq<ReconcileSample>) -> Seq<Audit> {
    v.map_values(|x: ReconcileSample| x@)
}

/// The job rows of a table.
pub open spec fn job_rows(v: Seq<JobEvent>) -> Seq<Job> {
    v.map_values(|x: JobEvent| x@)
}

/// The offsets of a table.
pub open spec fn offset_rows(v: Seq<IngestOffset>) -> Seq<(Seq<char>, i64)> {
    v.map_values(|x: IngestOffset| (x.stream@, x.offset))
}

// ---------------------------------------------------------------------------
// Keys
// ---------------------------------------------------------------------------

/// One state row per install directory.
pub open spec fn distinct_dirs(s: Seq<RunnerState>) -> bool {
    forall|i: int, j: int| 0 <= i < j < s.len() ==> #[trigger] s[i].dir@ != #[trigger] s[j].dir@
}

/// One edge row per org and id.
pub open spec fn distinct_runners(s: Seq<ApiRunnerState>) -> bool {
    forall|i: int, j: int|
        0 <= i < j < s.len() ==> #[trigger] s[i].org@ != #[trigger] s[j].org@ || s[i].agent_id
            != s[j].agent_id
}

/// One health row per org.
pub open spec fn distinct_orgs(s: Seq<Health>) -> bool {
    forall|i: int, j: int| 0 <= i < j < s.len() ==> #[trigger] s[i].org != #[trigger] s[j].org
}

/// One row per job.
pub open spec fn distinct_jobs(s: Seq<Job>) -> bool {
    forall|i: int, j: int| 0 <= i < j < s.len() ==> #[trigger] s[i].key() != #[trigger] s[j].key()
}

/// One offset per stream.
pub open spec fn distinct_streams(s: Seq<(Seq<char>, i64)>) -> bool {
    forall|i: int, j: int| 0 <= i < j < s.len() ==> #[trigger] s[i].0 != #[trigger] s[j].0
}

impl Db {
    /// Every keyed table holds one row per key.
    pub open spec fn wf(&self) -> bool {
        &&& distinct_dirs(self.runner_states@)
        &&& distinct_runners(self.api_states@)
        &&& distinct_orgs(healths(self.reconcile_states@))
        &&& distinct_jobs(job_rows(self.jobs@))
        &&& distinct_streams(offset_rows(self.offsets@))
    }

    /// How many samples the store holds, over all series.
    pub open spec fn sample_count(&self) -> nat {
        self.runner_samples@.len() + self.host_samples@.len() + self.api_samples@.len()
            + self.queue_samples@.len() + self.reconcile_samples@.len()
    }

    /// An empty store.
    pub fn new() -> (r: Db)
        ensures
            r.wf(),
            r.runner_samples@ == Seq::<RunnerSample>::empty(),
            r.host_samples@ == Seq::<HostSample>::empty(),
            r.queue_samples@ == Seq::<QueueSample>::empty(),
            r.api_samples@ == Seq::<ApiSample>::empty(),
            r.reconcile_samples@ == Seq::<ReconcileSample>::empty(),
            r.runner_states@ == Seq::<RunnerState>::empty(),
            r.api_states@ == Seq::<ApiRunnerState>::empty(),
            r.reconcile_states@ == Seq::<ApiReconcileState>::empty(),
            r.jobs@ == Seq::<JobEvent>::empty(),
            r.offsets@ == Seq::<IngestOffset>::empty(),
    {
        Db {
            runner_samples: Vec::new(),
            host_samples: Vec::new(),
            queue_samples: Vec::new(),
            api_samples: Vec::new(),
            reconcile_samples: Vec::new(),
            runner_states: Vec::new(),
            api_states: Vec::new(),
            reconcile_states: Vec::new(),
            jobs: Vec::new(),
            offsets: Vec::new(),
        }
    }
}

} // verus!
