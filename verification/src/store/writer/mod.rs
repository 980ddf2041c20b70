//! What the collector writes: the runner and host ticks with the liveness edge
//! they drive, and the pruning of what has aged out.

use vstd::prelude::*;

use crate::models::{HostSample, RunnerSample, RunnerState};
use crate::store::rows::{find_row, first_where, first_where_is_least, retain_rows};
use crate::store::tables::{
    distinct_dirs, ApiSample, Db, QueueSample, ReconcileSample,
};

pub mod github;
pub mod jobs;
pub mod laws;

pub use github::write_api_runners;
pub use jobs::{apply_hook_events, apply_job_conclusions};

verus! {

/// Where the state row of `dir` stands; the length where there is none.
pub open spec fn dir_at(states: Seq<RunnerState>, dir: Seq<char>) -> int {
    first_where(|i: int| states[i].dir@ == dir, states.len() as int)
}

/// The state rows after `r` was seen: its row is found by directory. `since_ts`
/// moves only where the liveness changes; `last_seen_ts` always moves.
pub open spec fn state_seen(states: Seq<RunnerState>, r: RunnerSample) -> Seq<RunnerState> {
    let k = dir_at(states, r.dir@);
    if k < states.len() {
        states.update(
            k,
            RunnerState {
                dir: states[k].dir,
                liveness: r.liveness,
                since_ts: if states[k].liveness == r.liveness {
                    states[k].since_ts
                } else {
                    r.ts
                },
                last_seen_ts: r.ts,
            },
        )
    } else {
        states.push(
            RunnerState { dir: r.dir, liveness: r.liveness, since_ts: r.ts, last_seen_ts: r.ts },
        )
    }
}

/// The state rows after a tick.
pub open spec fn states_seen(states: Seq<RunnerState>, tick: Seq<RunnerSample>) -> Seq<RunnerState>
    decreases tick.len(),
{
    if tick.len() == 0 {
        states
    } else {
        state_seen(states_seen(states, tick.drop_last()), tick.last())
    }
}

/// Seeing a runner keeps one row per directory.
pub proof fn state_seen_keeps_keys(states: Seq<RunnerState>, r: RunnerSample)
    requires
        distinct_dirs(states),
    ensures
        distinct_dirs(state_seen(states, r)),
{
    let p = |i: int| states[i].dir@ == r.dir@;
    first_where_is_least(p, states.len() as int);
    let k = dir_at(states, r.dir@);
    let after = state_seen(states, r);
    assert forall|i: int, j: int| 0 <= i < j < after.len() implies #[trigger] after[i].dir@
        != #[trigger] after[j].dir@ by {
        if k < states.len() {
            assert(after[i].dir == states[i].dir);
            assert(after[j].dir == states[j].dir);
        } else if j == states.len() {
            assert(!p(i));
        }
    }
}

proof fn states_seen_keeps_keys(states: Seq<RunnerState>, tick: Seq<RunnerSample>)
    requires
        distinct_dirs(states),
    ensures
        distinct_dirs(states_seen(states, tick)),
    decreases tick.len(),
{
    if tick.len() > 0 {
        states_seen_keeps_keys(states, tick.drop_last());
        state_seen_keeps_keys(states_seen(states, tick.drop_last()), tick.last());
    }
}

/// The edge: a runner seen again with the liveness it had keeps `since_ts`; one
/// seen with another liveness takes the tick's time; a runner seen for the first
/// time starts there. Either way it was last seen at the tick.
pub proof fn edge_moves_only_on_a_change(states: Seq<RunnerState>, r: RunnerSample)
    ensures
        ({
            let k = dir_at(states, r.dir@);
            let after = state_seen(states, r);
            &&& 0 <= k < after.len()
            &&& after[k].dir@ == r.dir@
            &&& after[k].liveness == r.liveness
            &&& after[k].last_seen_ts == r.ts
            &&& k < states.len() && states[k].liveness == r.liveness ==> after[k].since_ts
                == states[k].since_ts
            &&& k < states.len() && states[k].liveness != r.liveness ==> after[k].since_ts == r.ts
            &&& k == states.len() ==> after[k].since_ts == r.ts
            &&& dir_at(after, r.dir@) == k
        }),
{
    let p = |i: int| states[i].dir@ == r.dir@;
    first_where_is_least(p, states.len() as int);
    let k = dir_at(states, r.dir@);
    let after = state_seen(states, r);
    let q = |i: int| after[i].dir@ == r.dir@;
    assert forall|i: int| 0 <= i < k implies !#[trigger] q(i) by {
        assert(!p(i));
        assert(after[i] == states[i]);
    }
    if k < states.len() {
        assert(p(k));
    }
    assert(q(k));
    crate::store::rows::first_where_unique(q, after.len() as int, k);
}

/// Seeing one runner leaves the rows of every other directory as they were.
pub proof fn other_runners_are_untouched(states: Seq<RunnerState>, r: RunnerSample, i: int)
    requires
        0 <= i < states.len(),
        states[i].dir@ != r.dir@,
    ensures
        state_seen(states, r)[i] == states[i],
{
    let p = |i: int| states[i].dir@ == r.dir@;
    first_where_is_least(p, states.len() as int);
    if dir_at(states, r.dir@) < states.len() {
        assert(p(dir_at(states, r.dir@)));
    }
}

fn find_dir(states: &Vec<RunnerState>, dir: &String) -> (k: usize)
    ensures
        k == dir_at(states@, dir@),
        k <= states@.len(),
{
    let hit = |i: usize| -> (b: bool)
        requires
            i < states@.len(),
        ensures
            b == (states@[i as int].dir@ == dir@),
    {
        states[i].dir == *dir
    };
    find_row(states.len(), hit, Ghost(|i: int| states@[i].dir@ == dir@))
}

fn see_state(states: &mut Vec<RunnerState>, r: &RunnerSample)
    ensures
        final(states)@ == state_seen(old(states)@, *r),
{
    let k: usize = find_dir(states, &r.dir);
    if k < states.len() {
        let since: i64 = if states[k].liveness == r.liveness {
            states[k].since_ts
        } else {
            r.ts
        };
        let row = RunnerState {
            dir: states[k].dir.clone(),
            liveness: r.liveness,
            since_ts: since,
            last_seen_ts: r.ts,
        };
        states.set(k, row);
    } else {
        states.push(
            RunnerState {
                dir: r.dir.clone(),
                liveness: r.liveness,
                since_ts: r.ts,
                last_seen_ts: r.ts,
            },
        );
    }
}

/// Whether a local round was added: its samples appended, the edges moved, all else
/// as it was.
pub open spec fn local_written(before: Db, after: Db, runners: Seq<RunnerSample>, host: HostSample) -> bool {
    &&& after.runner_samples@ == before.runner_samples@ + runners
    &&& after.host_samples@ == before.host_samples@.push(host)
    &&& after.runner_states@ == states_seen(before.runner_states@, runners)
    &&& after.queue_samples == before.queue_samples
    &&& after.api_samples == before.api_samples
    &&& after.reconcile_samples == before.reconcile_samples
    &&& after.api_states == before.api_states
    &&& after.reconcile_states == before.reconcile_states
    &&& after.jobs == before.jobs
    &&& after.offsets == before.offsets
    &&& before.wf() ==> after.wf()
}

/// Record one tick: the runner rows and the host row, and the liveness edges that
/// the runner rows drive.
pub fn write_local(db: &mut Db, runners: &[RunnerSample], host: HostSample)
    ensures
        local_written(*old(db), *final(db), runners@, host),
{
    let mut i: usize = 0;
    assert(runners@.take(0) =~= seq![]);
    assert(db.runner_samples@ + runners@.take(0) =~= db.runner_samples@);
    while i < runners.len()
        invariant
            i <= runners@.len(),
            db.runner_samples@ == old(db).runner_samples@ + runners@.take(i as int),
            db.runner_states@ == states_seen(old(db).runner_states@, runners@.take(i as int)),
            db.host_samples == old(db).host_samples,
            db.queue_samples == old(db).queue_samples,
            db.api_samples == old(db).api_samples,
            db.reconcile_samples == old(db).reconcile_samples,
            db.api_states == old(db).api_states,
            db.reconcile_states == old(db).reconcile_states,
            db.jobs == old(db).jobs,
            db.offsets == old(db).offsets,
        decreases runners@.len() - i,
    {
        db.runner_samples.push(runners[i].clone());
        see_state(&mut db.runner_states, &runners[i]);
        proof {
            assert(runners@.take(i + 1).drop_last() =~= runners@.take(i as int));
            assert(runners@.take(i + 1).last() == runners@[i as int]);
            assert(db.runner_samples@ =~= old(db).runner_samples@ + runners@.take(i + 1));
        }
        i = i + 1;
    }
    assert(runners@.take(i as int) =~= runners@);
    db.host_samples.push(host);
    proof {
        if old(db).wf() {
            states_seen_keeps_keys(old(db).runner_states@, runners@);
        }
    }
}

/// Whether the samples from before a time were dropped, and nothing else.
pub open spec fn pruned(before: Db, after: Db, cutoff: i64, removed: int) -> bool {
    &&& after.runner_samples@ == before.runner_samples@.filter(|r: RunnerSample| r.ts >= cutoff)
    &&& after.host_samples@ == before.host_samples@.filter(|r: HostSample| r.ts >= cutoff)
    &&& after.api_samples@ == before.api_samples@.filter(|r: ApiSample| r.ts >= cutoff)
    &&& after.queue_samples@ == before.queue_samples@.filter(|r: QueueSample| r.ts >= cutoff)
    &&& after.reconcile_samples@ == before.reconcile_samples@.filter(
        |r: ReconcileSample| r.ts >= cutoff,
    )
    &&& removed == before.sample_count() - after.sample_count()
    &&& after.runner_states == before.runner_states
    &&& after.api_states == before.api_states
    &&& after.reconcile_states == before.reconcile_states
    &&& after.jobs == before.jobs
    &&& after.offsets == before.offsets
}

/// Delete the samples older than `cutoff_ts` and return how many went. Jobs and
/// the state tables stay.
pub fn prune(db: &mut Db, cutoff_ts: i64) -> (removed: usize)
    requires
        old(db).sample_count() <= usize::MAX,
    ensures
        final(db).runner_samples@ == old(db).runner_samples@.filter(
            |r: RunnerSample| r.ts >= cutoff_ts,
        ),
        final(db).host_samples@ == old(db).host_samples@.filter(|r: HostSample| r.ts >= cutoff_ts),
        final(db).api_samples@ == old(db).api_samples@.filter(|r: ApiSample| r.ts >= cutoff_ts),
        final(db).queue_samples@ == old(db).queue_samples@.filter(|r: QueueSample| r.ts >= cutoff_ts),
        final(db).reconcile_samples@ == old(db).reconcile_samples@.filter(
            |r: ReconcileSample| r.ts >= cutoff_ts,
        ),
        removed == old(db).sample_count() - final(db).sample_count(),
        final(db).runner_states == old(db).runner_states,
        final(db).api_states == old(db).api_states,
        final(db).reconcile_states == old(db).reconcile_states,
        final(db).jobs == old(db).jobs,
        final(db).offsets == old(db).offsets,
        old(db).wf() ==> final(db).wf(),
        pruned(*old(db), *final(db), cutoff_ts, removed as int),
{
    broadcast use Seq::lemma_filter_len;

    let before: usize = db.runner_samples.len() + db.host_samples.len() + db.api_samples.len()
        + db.queue_samples.len() + db.reconcile_samples.len();

    let mut rows: Vec<RunnerSample> = Vec::new();
    std::mem::swap(&mut rows, &mut db.runner_samples);
    let keep = |r: &RunnerSample| -> (b: bool)
        ensures
            b == (r.ts >= cutoff_ts),
    {
        r.ts >= cutoff_ts
    };
    db.runner_samples = retain_rows(rows, keep, Ghost(|r: RunnerSample| r.ts >= cutoff_ts));

    let mut rows: Vec<HostSample> = Vec::new();
    std::mem::swap(&mut rows, &mut db.host_samples);
    let keep = |r: &HostSample| -> (b: bool)
        ensures
            b == (r.ts >= cutoff_ts),
    {
        r.ts >= cutoff_ts
    };
    db.host_samples = retain_rows(rows, keep, Ghost(|r: HostSample| r.ts >= cutoff_ts));

    let mut rows: Vec<ApiSample> = Vec::new();
    std::mem::swap(&mut rows, &mut db.api_samples);
    let keep = |r: &ApiSample| -> (b: bool)
        ensures
            b == (r.ts >= cutoff_ts),
    {
        r.ts >= cutoff_ts
    };
    db.api_samples = retain_rows(rows, keep, Ghost(|r: ApiSample| r.ts >= cutoff_ts));

    let mut rows: Vec<QueueSample> = Vec::new();
    std::mem::swap(&mut rows, &mut db.queue_samples);
    let keep = |r: &QueueSample| -> (b: bool)
        ensures
            b == (r.ts >= cutoff_ts),
    {
        r.ts >= cutoff_ts
    };
    db.queue_samples = retain_rows(rows, keep, Ghost(|r: QueueSample| r.ts >= cutoff_ts));

    let mut rows: Vec<ReconcileSample> = Vec::new();
    std::mem::swap(&mut rows, &mut db.reconcile_samples);
    let keep = |r: &ReconcileSample| -> (b: bool)
        ensures
            b == (r.ts >= cutoff_ts),
    {
        r.ts >= cutoff_ts
    };
    db.reconcile_samples = retain_rows(rows, keep, Ghost(|r: ReconcileSample| r.ts >= cutoff_ts));

    let after: usize = db.runner_samples.len() + db.host_samples.len() + db.api_samples.len()
        + db.queue_samples.len() + db.reconcile_samples.len();
    before - after
}

} // verus!
