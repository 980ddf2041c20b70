//! The local sampler: what this host sees of itself, on the fast cadence.

use vstd::prelude::*;

use crate::collectors::cpu::{delta, known, noted, CpuDelta, CpuRateTracker};
use crate::collectors::runners::RunnerProbe;
use crate::models::RunnerSample;
use crate::path::components;
use crate::serve::WORK_WALK_EVERY;

verus! {

/// Seconds between two local ticks: never less than one.
pub fn local_wait(local_secs: u64) -> (r: u64)
    ensures
        r == if local_secs < 1 {
            1
        } else {
            local_secs
        },
{
    if local_secs < 1 {
        1
    } else {
        local_secs
    }
}

/// Whether a tick walks the work folders.
pub fn walks_work(tick: u64) -> (r: bool)
    ensures
        r <==> tick % WORK_WALK_EVERY == 0,
{
    tick % WORK_WALK_EVERY == 0
}

/// A sample, and by how much the runner's processor time moved; the use in percent
/// follows from that.
#[derive(Debug)]
pub struct Sampled {
    /// The sample, its use of the processor still open.
    pub sample: RunnerSample,
    pub cpu: Option<CpuDelta>,
}

/// What the tracker knows after the first `n` probes.
pub open spec fn remembered(
    m: Map<Seq<Seq<char>>, (u64, u64)>,
    probes: Seq<RunnerProbe>,
    n: int,
    at: u64,
) -> Map<Seq<Seq<char>>, (u64, u64)>
    decreases n,
{
    if n <= 0 {
        m
    } else {
        noted(
            remembered(m, probes, n - 1, at),
            components(probes[n - 1].info.dir@),
            probes[n - 1].cpu_usage_usec,
            at,
        )
    }
}

/// Whether a sample records a probe.
pub open spec fn records(s: RunnerSample, p: RunnerProbe, now: i64) -> bool {
    &&& s.ts == now
    &&& s.agent_id == p.info.agent_id
    &&& s.dir == p.info.dir
    &&& s.name == p.info.name
    &&& s.org == p.info.org
    &&& s.liveness == p.liveness
    &&& s.current_run_id is None
    &&& s.cpu_pct is None
    &&& s.mem_bytes == p.mem_bytes
    &&& s.mem_current_bytes == p.mem_current_bytes
    &&& s.uptime_s == p.uptime_s
}

/// Turn probes into samples. The use of the processor is followed by the install
/// directory, as a path: an id is unique only within its org.
pub fn to_samples(probes: &[RunnerProbe], now: i64, cpu: &mut CpuRateTracker, at: u64) -> (r: Vec<
    Sampled,
>)
    requires
        old(cpu).wf(),
    ensures
        final(cpu).wf(),
        final(cpu)@ == remembered(old(cpu)@, probes@, probes@.len() as int, at),
        r@.len() == probes@.len(),
        forall|i: int|
            0 <= i < r@.len() ==> records((#[trigger] r@[i]).sample, probes@[i], now) && r@[i].cpu
                == delta(
                known(remembered(old(cpu)@, probes@, i, at), components(probes@[i].info.dir@)),
                probes@[i].cpu_usage_usec,
                at,
            ),
{
    let ghost first = cpu@;
    let mut out: Vec<Sampled> = Vec::new();
    let mut i: usize = 0;
    while i < probes.len()
        invariant
            i <= probes@.len(),
            cpu.wf(),
            cpu@ == remembered(first, probes@, i as int, at),
            out@.len() == i,
            forall|k: int|
                0 <= k < i ==> records((#[trigger] out@[k]).sample, probes@[k], now) && out@[k].cpu
                    == delta(
                    known(remembered(first, probes@, k, at), components(probes@[k].info.dir@)),
                    probes@[k].cpu_usage_usec,
                    at,
                ),
        decreases probes@.len() - i,
    {
        let p = &probes[i];
        let moved = cpu.rate(p.info.dir.as_str(), p.cpu_usage_usec, at);
        out.push(
            Sampled {
                sample: RunnerSample {
                    ts: now,
                    agent_id: p.info.agent_id,
                    dir: p.info.dir.clone(),
                    name: p.info.name.clone(),
                    org: p.info.org.clone(),
                    liveness: p.liveness,
                    current_run_id: None,
                    cpu_pct: None,
                    mem_bytes: p.mem_bytes,
                    mem_current_bytes: p.mem_current_bytes,
                    uptime_s: p.uptime_s,
                },
                cpu: moved,
            },
        );
        i = i + 1;
    }
    out
}

/// Probes of other runners leave what is known of a runner as it was.
proof fn others_leave_it(
    m: Map<Seq<Seq<char>>, (u64, u64)>,
    probes: Seq<RunnerProbe>,
    n: int,
    at: u64,
    dir: Seq<Seq<char>>,
)
    requires
        0 <= n <= probes.len(),
        forall|k: int| 0 <= k < n ==> components((#[trigger] probes[k]).info.dir@) != dir,
    ensures
        known(remembered(m, probes, n, at), dir) == known(m, dir),
    decreases n,
{
    if n > 0 {
        others_leave_it(m, probes, n - 1, at, dir);
    }
}

/// Runners with a directory each are sampled independently: what is said of one
/// rests on its own last reading alone, whatever stands before it in the round.
pub proof fn each_runner_by_itself(
    m: Map<Seq<Seq<char>>, (u64, u64)>,
    probes: Seq<RunnerProbe>,
    i: int,
    at: u64,
)
    requires
        0 <= i < probes.len(),
        forall|k: int|
            0 <= k < i ==> components((#[trigger] probes[k]).info.dir@) != components(
                probes[i].info.dir@,
            ),
    ensures
        delta(
            known(remembered(m, probes, i, at), components(probes[i].info.dir@)),
            probes[i].cpu_usage_usec,
            at,
        ) == delta(known(m, components(probes[i].info.dir@)), probes[i].cpu_usage_usec, at),
{
    others_leave_it(m, probes, i, at, components(probes[i].info.dir@));
}

} // verus!
