//! The snapshot adjudicated into one answer. The verdict is computed here, once,
//! and not left to each consumer.

use vstd::prelude::*;

use crate::metrics::{OrgRollup, RunnerMetric, Snapshot};
use crate::models::{
    copy_measure, diverges, ApiReconcileState, FleetCounts, FleetStatus, Mode, OrgStatus,
    RunnerStatus, Verdict,
};
use crate::store::reader::clip32;
use crate::store::reader::github::{age, age_between};
use crate::store::rows::{find_row, first_where};
use crate::util::{rfc3339, to_rfc3339_utc};

verus! {

/// Seconds since an org's last successful reconcile: none where it never
/// succeeded, or is not known.
pub open spec fn reconcile_age(rows: Seq<ApiReconcileState>, org: Seq<char>, now: i64) -> Option<i64> {
    let k = first_where(|i: int| rows[i].org@ == org, rows.len() as int);
    if k < rows.len() {
        match rows[k].last_ok_ts {
            Some(ts) => Some(age_between(now, ts)),
            None => None,
        }
    } else {
        None
    }
}

/// The verdict on an org, from the readings there are: unknown where there are
/// none, degraded where one of them is not online.
pub open spec fn org_verdict(o: OrgRollup) -> Verdict {
    if o.github_known == 0 {
        Verdict::Unknown
    } else if o.github_online < o.github_known {
        Verdict::Degraded
    } else {
        Verdict::Healthy
    }
}

/// The verdict on the fleet: unknown where there is no runner, degraded where one
/// diverges or is offline.
pub open spec fn fleet_verdict(runners: nat, divergent: u32, offline: u32) -> Verdict {
    if runners == 0 {
        Verdict::Unknown
    } else if divergent > 0 || offline > 0 {
        Verdict::Degraded
    } else {
        Verdict::Healthy
    }
}

/// The status of a runner.
pub open spec fn runner_status(r: RunnerMetric) -> RunnerStatus {
    RunnerStatus {
        name: r.name,
        org: r.org,
        agent_id: r.agent_id,
        liveness: r.liveness,
        state_seconds: r.state_seconds,
        github_online: r.gh.online_view(),
        github_busy: r.gh.busy_view(),
        github_offline_seconds: r.gh_offline_seconds,
        github_sample_age_s: r.gh.age_view(),
        divergent: diverges(r.liveness, r.gh),
        cpu_percent: r.cpu_pct,
        mem_bytes: r.mem_bytes,
    }
}

/// The status of an org.
pub open spec fn org_status(s: Snapshot, o: OrgRollup) -> OrgStatus {
    OrgStatus {
        org: o.org,
        runners: o.total,
        github_online: o.github_online,
        reconcile_age_s: reconcile_age(s.reconcile@, o.org@, s.now),
        verdict: org_verdict(o),
    }
}

/// What the status of a snapshot holds.
pub open spec fn status_of(r: FleetStatus, s: Snapshot, mode: Mode) -> bool {
    &&& r.schema_version == 1
    &&& r.generated_at@ == rfc3339(s.now as int)
    &&& r.generated_at_epoch == s.now
    &&& r.mode == mode
    &&& r.verdict == fleet_verdict(s.runners@.len(), s.divergent, s.offline)
    &&& r.fleet == (FleetCounts {
        runners: clip32(s.runners@.len() as int),
        busy: s.busy,
        idle: s.idle,
        offline: s.offline,
        divergent: s.divergent,
    })
    &&& r.orgs@ == s.orgs@.map_values(|o: OrgRollup| org_status(s, o))
    &&& r.runners@ == s.runners@.map_values(|m: RunnerMetric| runner_status(m))
}

/// An org that could not be asked about is unknown: only a runner that a fresh
/// reading shows offline degrades it.
pub proof fn ignorance_is_not_degradation(o: OrgRollup)
    requires
        o.github_online <= o.github_known,
    ensures
        org_verdict(o) == Verdict::Unknown <==> o.github_known == 0,
        org_verdict(o) == Verdict::Degraded <==> o.github_online < o.github_known,
{
}

/// The fleet's verdict is health only where there are runners, none of them
/// offline and none divergent.
pub proof fn health_needs_runners(runners: nat, divergent: u32, offline: u32)
    ensures
        fleet_verdict(runners, divergent, offline) == Verdict::Healthy <==> runners > 0 && divergent
            == 0 && offline == 0,
{
}

fn age_of_reconcile(rows: &Vec<ApiReconcileState>, org: &String, now: i64) -> (r: Option<i64>)
    ensures
        r == reconcile_age(rows@, org@, now),
{
    let hit = |i: usize| -> (b: bool)
        requires
            i < rows@.len(),
        ensures
            b == (rows@[i as int].org@ == org@),
    {
        rows[i].org == *org
    };
    let k: usize = find_row(rows.len(), hit, Ghost(|i: int| rows@[i].org@ == org@));
    if k < rows.len() {
        match rows[k].last_ok_ts {
            Some(ts) => Some(age(now, ts)),
            None => None,
        }
    } else {
        None
    }
}

impl Snapshot {
    /// The verdict on the fleet, which every rendering takes from here.
    pub fn verdict(&self) -> (r: Verdict)
        ensures
            r == fleet_verdict(self.runners@.len(), self.divergent, self.offline),
    {
        if self.runners.len() == 0 {
            Verdict::Unknown
        } else if self.divergent > 0 || self.offline > 0 {
            Verdict::Degraded
        } else {
            Verdict::Healthy
        }
    }

    /// Project the snapshot into the machine-facing status.
    pub fn to_status(&self, mode: Mode) -> (r: FleetStatus)
        ensures
            status_of(r, *self, mode),
    {
        let mut runners: Vec<RunnerStatus> = Vec::new();
        let mut i: usize = 0;
        while i < self.runners.len()
            invariant
                i <= self.runners@.len(),
                runners@ == self.runners@.take(i as int).map_values(
                    |m: RunnerMetric| runner_status(m),
                ),
            decreases self.runners@.len() - i,
        {
            let m = &self.runners[i];
            runners.push(
                RunnerStatus {
                    name: m.name.clone(),
                    org: m.org.clone(),
                    agent_id: m.agent_id,
                    liveness: m.liveness,
                    state_seconds: m.state_seconds,
                    github_online: m.gh.online(),
                    github_busy: m.gh.busy(),
                    github_offline_seconds: m.gh_offline_seconds,
                    github_sample_age_s: m.gh.age_s(),
                    divergent: m.divergent(),
                    cpu_percent: copy_measure(&m.cpu_pct),
                    mem_bytes: m.mem_bytes,
                },
            );
            assert(runners@ =~= self.runners@.take(i + 1).map_values(
                |m: RunnerMetric| runner_status(m),
            ));
            i = i + 1;
        }
        assert(self.runners@.take(i as int) =~= self.runners@);
        let mut orgs: Vec<OrgStatus> = Vec::new();
        let mut k: usize = 0;
        while k < self.orgs.len()
            invariant
                k <= self.orgs@.len(),
                orgs@ == self.orgs@.take(k as int).map_values(|o: OrgRollup| org_status(*self, o)),
            decreases self.orgs@.len() - k,
        {
            let o = &self.orgs[k];
            let verdict = if o.github_known == 0 {
                Verdict::Unknown
            } else if o.github_online < o.github_known {
                Verdict::Degraded
            } else {
                Verdict::Healthy
            };
            orgs.push(
                OrgStatus {
                    org: o.org.clone(),
                    runners: o.total,
                    github_online: o.github_online,
                    reconcile_age_s: age_of_reconcile(&self.reconcile, &o.org, self.now),
                    verdict,
                },
            );
            assert(orgs@ =~= self.orgs@.take(k + 1).map_values(
                |o: OrgRollup| org_status(*self, o),
            ));
            k = k + 1;
        }
        assert(self.orgs@.take(k as int) =~= self.orgs@);
        FleetStatus {
            schema_version: 1,
            generated_at: to_rfc3339_utc(self.now),
            generated_at_epoch: self.now,
            mode,
            verdict: self.verdict(),
            fleet: FleetCounts {
                runners: crate::store::reader::add_clipped(0, self.runners.len(), Ghost(0)),
                busy: self.busy,
                idle: self.idle,
                offline: self.offline,
                divergent: self.divergent,
            },
            orgs,
            runners,
        }
    }
}

} // verus!
