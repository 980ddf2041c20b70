//! What is answered: the verdict, and the payload that carries it.

use vstd::prelude::*;

use crate::models::{Liveness, Measure};

verus! {

/// The overall health call, and the process exit code, from one enum.
#[derive(Debug, Clone, Copy, PartialEq, Eq, Structural)]
pub enum Verdict {
    /// Every runner healthy, and GitHub agrees.
    Healthy,
    /// At least one runner offline or divergent.
    Degraded,
    /// Nothing can be said.
    Unknown,
}

impl Verdict {
    /// The exit code of a verdict.
    pub open spec fn code(self) -> u8 {
        match self {
            Verdict::Healthy => 0,
            Verdict::Degraded => 1,
            Verdict::Unknown => 2,
        }
    }

    /// The documented exit code.
    pub fn exit_code(self) -> (r: u8)
        ensures
            r == self.code(),
    {
        match self {
            Verdict::Healthy => 0,
            Verdict::Degraded => 1,
            Verdict::Unknown => 2,
        }
    }

    /// The exit code tells the verdicts apart, and 0 is health alone.
    pub proof fn exit_code_is_the_verdict(a: Verdict, b: Verdict)
        ensures
            a.code() == b.code() <==> a == b,
            a.code() == 0 <==> a == Verdict::Healthy,
    {
    }
}

/// Which data plane an answer came from.
#[derive(Debug, Clone, Copy, PartialEq, Eq, Structural)]
pub enum Mode {
    /// No collector: a live local scan only.
    Ephemeral,
    /// The collector answered.
    Persistent,
}

impl Mode {
    /// The wire spelling.
    pub open spec fn word(self) -> Seq<char> {
        match self {
            Mode::Ephemeral => "ephemeral"@,
            Mode::Persistent => "persistent"@,
        }
    }

    pub fn as_str(self) -> (r: &'static str)
        ensures
            r@ == self.word(),
    {
        match self {
            Mode::Ephemeral => "ephemeral",
            Mode::Persistent => "persistent",
        }
    }
}

/// Machine-facing fleet snapshot.
#[derive(Debug, Clone)]
pub struct FleetStatus {
    pub schema_version: u32,
    pub generated_at: String,
    pub generated_at_epoch: i64,
    pub mode: Mode,
    pub verdict: Verdict,
    pub fleet: FleetCounts,
    pub orgs: Vec<OrgStatus>,
    pub runners: Vec<RunnerStatus>,
}

#[derive(Debug, Clone, Copy, PartialEq, Eq)]
pub struct FleetCounts {
    pub runners: u32,
    pub busy: u32,
    pub idle: u32,
    pub offline: u32,
    /// Cross-cuts busy, idle and offline.
    pub divergent: u32,
}

#[derive(Debug, Clone, PartialEq, Eq)]
pub struct OrgStatus {
    pub org: String,
    pub runners: u32,
    pub github_online: u32,
    /// Seconds since this org's last successful reconcile.
    pub reconcile_age_s: Option<i64>,
    pub verdict: Verdict,
}

#[derive(Debug, Clone, PartialEq)]
pub struct RunnerStatus {
    pub name: String,
    pub org: String,
    pub agent_id: i64,
    pub liveness: Liveness,
    pub state_seconds: i64,
    pub github_online: Option<bool>,
    pub github_busy: Option<bool>,
    pub github_offline_seconds: Option<i64>,
    pub github_sample_age_s: Option<i64>,
    pub divergent: Option<bool>,
    pub cpu_percent: Option<Measure>,
    pub mem_bytes: Option<u64>,
}

/// The exit codes: zero where all is well, one where something is wrong, and two
/// where nobody knows. A mode goes by its name.
pub proof fn exit_codes_rank_the_outcomes()
    ensures
        Verdict::Healthy.code() == 0,
        Verdict::Degraded.code() == 1,
        Verdict::Unknown.code() == 2,
        Mode::Ephemeral.word() == "ephemeral"@,
        Mode::Persistent.word() == "persistent"@,
{
}

} // verus!
