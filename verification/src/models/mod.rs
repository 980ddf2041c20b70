//! Domain types: what this host measured for itself, and what the groups below
//! hold.
//!
//! Two identities matter. The install `dir` is unique on a host; the numeric
//! `agent_id` is unique only within an org, so it joins to GitHub as
//! `(org, agent_id)`.

use vstd::prelude::*;

use crate::text::same;

pub mod github;
pub mod jobs;
pub mod status;
pub mod timeline;

pub use github::{
    ApiErrorKind, ApiOrgOutcome, ApiReconcileState, ApiRunnerRow, ApiRunnerState, ApiState, GhCount,
    GhView,
};
pub use jobs::{HookEvent, JobConclusion, JobRow, PendingConclusion};
pub use status::{FleetCounts, FleetStatus, Mode, OrgStatus, RunnerStatus, Verdict};

verus! {

/// A measurement that is carried, never computed with: the number as it is
/// printed, and as a JSON value.
#[derive(Debug, PartialEq)]
pub struct Measure {
    pub text: String,
    pub json: serde_json::Value,
}

impl Clone for Measure {
    fn clone(&self) -> (r: Self)
        ensures
            r == *self,
    {
        Measure { text: self.text.clone(), json: self.json.clone() }
    }
}

/// A copy of an optional measurement.
pub fn copy_measure(m: &Option<Measure>) -> (r: Option<Measure>)
    ensures
        r == *m,
{
    match m {
        Some(v) => Some(v.clone()),
        None => None,
    }
}

/// A copy of an optional text.
pub fn copy_text(t: &Option<String>) -> (r: Option<String>)
    ensures
        r == *t,
{
    match t {
        Some(v) => Some(v.clone()),
        None => None,
    }
}

/// Static identity of a self-hosted runner, from its `.runner` file and the
/// owner of its install directory.
#[derive(Debug, PartialEq, Eq)]
pub struct RunnerInfo {
    /// GitHub's id of the runner: the join key to the API, within its org.
    pub agent_id: i64,
    /// Display name.
    pub name: String,
    /// Owning GitHub org.
    pub org: String,
    /// Runner group.
    pub group: Option<String>,
    /// Install directory.
    pub dir: String,
    /// Name of the work folder in the install directory.
    pub work_folder: String,
    /// Owner of the install directory, by which the runner's processes are found.
    pub uid: u32,
    /// The owner's name, for display.
    pub user: String,
}

impl Clone for RunnerInfo {
    fn clone(&self) -> (r: Self)
        ensures
            r == *self,
    {
        RunnerInfo {
            agent_id: self.agent_id,
            name: self.name.clone(),
            org: self.org.clone(),
            group: copy_text(&self.group),
            dir: self.dir.clone(),
            work_folder: self.work_folder.clone(),
            uid: self.uid,
            user: self.user.clone(),
        }
    }
}

/// Liveness of a runner, from its own processes.
#[derive(Debug, Clone, Copy, PartialEq, Eq, Structural)]
pub enum Liveness {
    /// Listener process present, no job worker.
    Idle,
    /// A job worker process is running.
    Busy,
    /// No listener process found.
    Offline,
}

impl Liveness {
    /// The stored word for a liveness.
    pub open spec fn word(self) -> Seq<char> {
        match self {
            Liveness::Idle => "idle"@,
            Liveness::Busy => "busy"@,
            Liveness::Offline => "offline"@,
        }
    }

    /// The liveness that a stored word stands for; any unknown word is offline.
    pub open spec fn of_word(w: Seq<char>) -> Liveness {
        if w == "busy"@ {
            Liveness::Busy
        } else if w == "idle"@ {
            Liveness::Idle
        } else {
            Liveness::Offline
        }
    }

    pub fn as_str(self) -> (r: &'static str)
        ensures
            r@ == self.word(),
    {
        match self {
            Liveness::Idle => "idle",
            Liveness::Busy => "busy",
            Liveness::Offline => "offline",
        }
    }

    /// Parse the stored text; an unknown value fails safe to `Offline`.
    pub fn from_db(s: &str) -> (r: Liveness)
        ensures
            r == Liveness::of_word(s@),
    {
        if same(s, "busy") {
            Liveness::Busy
        } else if same(s, "idle") {
            Liveness::Idle
        } else {
            Liveness::Offline
        }
    }

    /// A liveness reads back as it was stored.
    pub proof fn word_round_trips(self)
        ensures
            Liveness::of_word(self.word()) == self,
    {
        reveal_strlit("busy");
        reveal_strlit("idle");
        reveal_strlit("offline");
        assert("busy"@[0] == 'b' && "idle"@[0] == 'i' && "offline"@[0] == 'o');
    }
}

/// A point-in-time sample of one runner.
#[derive(Debug, PartialEq)]
pub struct RunnerSample {
    pub ts: i64,
    pub agent_id: i64,
    /// Install directory: the runner's identity on this host.
    pub dir: String,
    pub name: String,
    pub org: String,
    pub liveness: Liveness,
    pub current_run_id: Option<i64>,
    pub cpu_pct: Option<Measure>,
    /// Working-set memory.
    pub mem_bytes: Option<u64>,
    /// Memory with the reclaimable page cache.
    pub mem_current_bytes: Option<u64>,
    pub uptime_s: Option<u64>,
}

impl Clone for RunnerSample {
    fn clone(&self) -> (r: Self)
        ensures
            r == *self,
    {
        RunnerSample {
            ts: self.ts,
            agent_id: self.agent_id,
            dir: self.dir.clone(),
            name: self.name.clone(),
            org: self.org.clone(),
            liveness: self.liveness,
            current_run_id: self.current_run_id,
            cpu_pct: copy_measure(&self.cpu_pct),
            mem_bytes: self.mem_bytes,
            mem_current_bytes: self.mem_current_bytes,
            uptime_s: self.uptime_s,
        }
    }
}

/// Current liveness of a runner with the time of its last change, the edge.
/// Keyed by the install directory.
#[derive(Debug, PartialEq, Eq)]
pub struct RunnerState {
    pub dir: String,
    pub liveness: Liveness,
    pub since_ts: i64,
    pub last_seen_ts: i64,
}

impl Clone for RunnerState {
    fn clone(&self) -> (r: Self)
        ensures
            r == *self,
    {
        RunnerState {
            dir: self.dir.clone(),
            liveness: self.liveness,
            since_ts: self.since_ts,
            last_seen_ts: self.last_seen_ts,
        }
    }
}

/// Memory of one NUMA node.
#[derive(Debug, Clone, Copy, PartialEq, Eq)]
pub struct NumaNode {
    pub node: u32,
    pub mem_total: u64,
    pub mem_free: u64,
}

/// Host-wide resource snapshot.
#[derive(Debug, Clone, PartialEq)]
pub struct HostSample {
    pub ts: i64,
    pub load1: Measure,
    pub load5: Measure,
    pub mem_used: u64,
    pub mem_total: u64,
    pub numa: Vec<NumaNode>,
    /// Bytes across all runners' work folders.
    pub work_bytes: Option<u64>,
    /// Bytes used on /tmp.
    pub tmp_bytes: Option<u64>,
    /// Free bytes on the filesystem of the runner roots.
    pub root_free: Option<u64>,
}

/// Local process healthy, but GitHub says the runner cannot take work. Where
/// GitHub's view is stale or unknown there is no answer; a runner that is down
/// locally never diverges.
pub open spec fn diverges(liveness: Liveness, gh: GhView) -> Option<bool> {
    match (liveness, gh) {
        (Liveness::Offline, _) => Some(false),
        (_, GhView::Fresh { state, .. }) => Some(!state.online),
        (_, GhView::Stale { .. } | GhView::Unknown) => None,
    }
}

/// Whether a runner diverges: up here, and offline to GitHub.
pub fn divergent(liveness: Liveness, gh: GhView) -> (r: Option<bool>)
    ensures
        r == diverges(liveness, gh),
{
    match (liveness, gh) {
        (Liveness::Offline, _) => Some(false),
        (_, GhView::Fresh { state, .. }) => Some(!state.online),
        (_, GhView::Stale { .. } | GhView::Unknown) => None,
    }
}

/// Divergence is claimed only of a runner that is up here and that a fresh
/// reading calls offline: never on ignorance.
pub proof fn divergence_needs_a_fresh_reading(liveness: Liveness, gh: GhView)
    ensures
        diverges(liveness, gh) == Some(true) <==> liveness != Liveness::Offline
            && gh.online_view() == Some(false),
{
}

/// One historical runner sample.
#[derive(Debug, Clone, PartialEq)]
pub struct HistPoint {
    pub ts: i64,
    pub cpu_pct: Option<Measure>,
    pub mem_bytes: Option<u64>,
}

/// One point of the host's time series.
#[derive(Debug, Clone, PartialEq)]
pub struct HostPoint {
    pub ts: i64,
    pub load1: Measure,
    pub mem_used: u64,
    pub mem_total: u64,
    pub tmp_bytes: Option<u64>,
    pub work_bytes: Option<u64>,
    pub root_free: Option<u64>,
}

/// How many runners were busy and online at a tick.
#[derive(Debug, Clone, Copy, PartialEq, Eq)]
pub struct BusyPoint {
    pub ts: i64,
    pub busy: u32,
    /// Locally online: listener process present.
    pub online: u32,
    /// What GitHub said about this tick's runners. `None` where no runner had a
    /// fresh reading: a gap, not a zero.
    pub github: Option<GhCount>,
}

} // verus!
