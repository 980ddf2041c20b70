//! What the readers' answers say of the rows they were read from, value by value.

use vstd::prelude::*;

use crate::ipc::ApiRow;
use crate::models::{
    ApiReconcileState, GhView, HistPoint, HostPoint, HostSample, JobRow, PendingConclusion,
    RunnerSample,
};
use crate::store::reader::github::{
    has_row, healths_by_org, is_of, lists_views, newest_at, newest_at_is_newest, of_runner_at,
    reading_time, reading_time_is_met, reading_time_is_within, sorted_healths,
};
use crate::store::reader::jobs::{
    awaiting, awaiting_jobs, job_time, jobs_by_completion, jobs_by_time, newest_jobs, of_runner,
    running,
};
use crate::store::reader::occupancy::{
    busy_point, joined, occupancy, online_among, tally, ticks, ticks_are_the_sampled_times, weight,
};
use crate::store::reader::{
    any_row, history, host_history, hosts_by_ts, max_ts, min_ts_where, newest_host, newest_tick,
    of_dir, of_newest_tick, retention_is_the_floor, samples_by_ts,
};
use crate::store::rows::{
    ascends, earlier, first_of, last_of, order, order_is_a_permutation, order_is_sorted,
    order_is_stable, select, select_is_exact, selected_are_counted,
};
use crate::store::tables::{ApiSample, JobEvent};
use crate::text::{text_le, text_le_total, text_le_transitive};

verus! {

// ---------------------------------------------------------------------------
// Cuts of ordered rows
// ---------------------------------------------------------------------------

proof fn ordered_are_selected(
    p: spec_fn(int) -> bool,
    before: spec_fn(int, int) -> bool,
    key: spec_fn(int) -> int,
    n: int,
)
    requires
        forall|i: int, j: int| #[trigger] before(i, j) == (key(i) <= key(j)),
    ensures
        ascends(key, order(before, select(p, n))),
        forall|i: int| #[trigger]
            order(before, select(p, n)).contains(i) <==> 0 <= i < n && p(i),
{
    select_is_exact(p, n);
    let idx = select(p, n);
    order_is_stable(before, key, idx);
    assert forall|i: int| #[trigger] order(before, idx).contains(i) <==> 0 <= i < n && p(i) by {
        if idx.contains(i) {
            let k = choose|k: int| 0 <= k < idx.len() && idx[k] == i;
            assert(p(idx[k]));
        }
    }
}

/// The last of ordered rows: what was cut off comes before all that is kept.
proof fn tail_keeps_the_last(
    p: spec_fn(int) -> bool,
    before: spec_fn(int, int) -> bool,
    key: spec_fn(int) -> int,
    n: int,
    limit: nat,
)
    requires
        forall|i: int, j: int| #[trigger] before(i, j) == (key(i) <= key(j)),
    ensures
        ({
            let c = last_of(order(before, select(p, n)), limit);
            &&& c.len() <= limit
            &&& ascends(key, c)
            &&& forall|k: int| 0 <= k < c.len() ==> 0 <= #[trigger] c[k] < n && p(c[k])
            &&& forall|i: int|
                0 <= i < n && #[trigger] p(i) ==> c.contains(i) || c.len() == limit && forall|k: int|
                    0 <= k < c.len() ==> earlier(key, i, #[trigger] c[k])
        }),
{
    ordered_are_selected(p, before, key, n);
    let o = order(before, select(p, n));
    let c = last_of(o, limit);
    let d = o.len() - c.len();
    assert forall|k: int| 0 <= k < c.len() implies #[trigger] c[k] == o[d + k] by {}
    assert forall|k: int| 0 <= k < c.len() implies 0 <= #[trigger] c[k] < n && p(c[k]) by {
        assert(o.contains(o[d + k]));
    }
    assert forall|a: int, b: int| 0 <= a < b < c.len() implies earlier(
        key,
        #[trigger] c[a],
        #[trigger] c[b],
    ) by {
        assert(earlier(key, o[d + a], o[d + b]));
    }
    assert forall|i: int| 0 <= i < n && #[trigger] p(i) implies c.contains(i) || c.len() == limit
        && forall|k: int| 0 <= k < c.len() ==> earlier(key, i, #[trigger] c[k]) by {
        assert(o.contains(i));
        let m = choose|m: int| 0 <= m < o.len() && o[m] == i;
        if m >= d {
            assert(c[m - d] == i);
        } else {
            assert forall|k: int| 0 <= k < c.len() implies earlier(key, i, #[trigger] c[k]) by {
                assert(earlier(key, o[m], o[d + k]));
            }
        }
    }
}

/// The first of ordered rows: what was cut off comes behind all that is kept.
proof fn head_keeps_the_first(
    p: spec_fn(int) -> bool,
    before: spec_fn(int, int) -> bool,
    key: spec_fn(int) -> int,
    n: int,
    limit: nat,
)
    requires
        forall|i: int, j: int| #[trigger] before(i, j) == (key(i) <= key(j)),
    ensures
        ({
            let c = first_of(order(before, select(p, n)), limit);
            &&& c.len() <= limit
            &&& ascends(key, c)
            &&& forall|k: int| 0 <= k < c.len() ==> 0 <= #[trigger] c[k] < n && p(c[k])
            &&& forall|i: int|
                0 <= i < n && #[trigger] p(i) ==> c.contains(i) || c.len() == limit && forall|k: int|
                    0 <= k < c.len() ==> earlier(key, #[trigger] c[k], i)
        }),
{
    ordered_are_selected(p, before, key, n);
    let o = order(before, select(p, n));
    let c = first_of(o, limit);
    assert forall|k: int| 0 <= k < c.len() implies 0 <= #[trigger] c[k] < n && p(c[k]) by {
        assert(o.contains(o[k]));
    }
    assert forall|a: int, b: int| 0 <= a < b < c.len() implies earlier(
        key,
        #[trigger] c[a],
        #[trigger] c[b],
    ) by {
        assert(earlier(key, o[a], o[b]));
    }
    assert forall|i: int| 0 <= i < n && #[trigger] p(i) implies c.contains(i) || c.len() == limit
        && forall|k: int| 0 <= k < c.len() ==> earlier(key, #[trigger] c[k], i) by {
        assert(o.contains(i));
        let m = choose|m: int| 0 <= m < o.len() && o[m] == i;
        if m < c.len() {
            assert(c[m] == i);
        } else {
            assert forall|k: int| 0 <= k < c.len() implies earlier(key, #[trigger] c[k], i) by {
                assert(earlier(key, o[k], o[m]));
            }
        }
    }
}

// ---------------------------------------------------------------------------
// Histories
// ---------------------------------------------------------------------------

/// A point carries the values of a sample.
pub open spec fn tells_usage(h: HistPoint, r: RunnerSample) -> bool {
    h.ts == r.ts && h.cpu_pct == r.cpu_pct && h.mem_bytes == r.mem_bytes
}

/// Every point of a runner's history carries the values of a stored sample of its
/// directory, in the order of their times and of their writing; a sample is missing
/// only where the history is full of later ones. Gives the samples' positions.
pub proof fn a_history_is_of_the_samples(rows: Seq<RunnerSample>, dir: Seq<char>, limit: nat) -> (w:
    Seq<int>)
    ensures
        w.len() == history(rows, dir, limit).len(),
        w.len() <= limit,
        forall|k: int|
            0 <= k < w.len() ==> 0 <= #[trigger] w[k] < rows.len() && rows[w[k]].dir@ == dir
                && tells_usage(history(rows, dir, limit)[k], rows[w[k]]),
        forall|a: int, b: int|
            0 <= a < b < w.len() ==> rows[#[trigger] w[a]].ts < rows[#[trigger] w[b]].ts
                || rows[w[a]].ts == rows[w[b]].ts && w[a] < w[b],
        forall|i: int|
            0 <= i < rows.len() && (#[trigger] rows[i]).dir@ == dir ==> w.contains(i) || w.len()
                == limit && forall|k: int|
                0 <= k < w.len() ==> rows[i].ts <= rows[#[trigger] w[k]].ts,
{
    let n = rows.len() as int;
    let p = of_dir(rows, dir);
    let before = samples_by_ts(rows);
    let key = |i: int| rows[i].ts as int;
    tail_keeps_the_last(p, before, key, n, limit);
    let w = last_of(order(before, select(p, n)), limit);
    assert forall|k: int| 0 <= k < w.len() implies 0 <= #[trigger] w[k] < rows.len()
        && rows[w[k]].dir@ == dir && tells_usage(history(rows, dir, limit)[k], rows[w[k]]) by {
        assert(p(w[k]));
    }
    assert forall|a: int, b: int| 0 <= a < b < w.len() implies rows[#[trigger] w[a]].ts
        < rows[#[trigger] w[b]].ts || rows[w[a]].ts == rows[w[b]].ts && w[a] < w[b] by {
        assert(earlier(key, w[a], w[b]));
    }
    assert forall|i: int| 0 <= i < rows.len() && (#[trigger] rows[i]).dir@ == dir implies w.contains(
        i,
    ) || w.len() == limit && forall|k: int|
        0 <= k < w.len() ==> rows[i].ts <= rows[#[trigger] w[k]].ts by {
        assert(p(i));
        if !w.contains(i) {
            assert forall|k: int| 0 <= k < w.len() implies rows[i].ts <= rows[#[trigger] w[k]].ts by {
                assert(earlier(key, i, w[k]));
            }
        }
    }
    w
}

/// A point carries the values of a host sample.
pub open spec fn tells_host(h: HostPoint, r: HostSample) -> bool {
    &&& h.ts == r.ts
    &&& h.load1 == r.load1
    &&& h.mem_used == r.mem_used
    &&& h.mem_total == r.mem_total
    &&& h.tmp_bytes == r.tmp_bytes
    &&& h.work_bytes == r.work_bytes
    &&& h.root_free == r.root_free
}

/// Every point of the host's series carries the values of a stored sample, in the
/// order of their times and of their writing; a sample is missing only where the
/// series is full of later ones. Gives the samples' positions.
pub proof fn a_series_is_of_the_samples(rows: Seq<HostSample>, limit: nat) -> (w: Seq<int>)
    ensures
        w.len() == host_history(rows, limit).len(),
        w.len() <= limit,
        forall|k: int|
            0 <= k < w.len() ==> 0 <= #[trigger] w[k] < rows.len() && tells_host(
                host_history(rows, limit)[k],
                rows[w[k]],
            ),
        forall|a: int, b: int|
            0 <= a < b < w.len() ==> rows[#[trigger] w[a]].ts < rows[#[trigger] w[b]].ts
                || rows[w[a]].ts == rows[w[b]].ts && w[a] < w[b],
        forall|i: int|
            0 <= i < rows.len() ==> w.contains(i) || w.len() == limit && forall|k: int|
                0 <= k < w.len() ==> (#[trigger] rows[i]).ts <= rows[#[trigger] w[k]].ts,
{
    let n = rows.len() as int;
    let p = any_row();
    let before = hosts_by_ts(rows);
    let key = |i: int| rows[i].ts as int;
    tail_keeps_the_last(p, before, key, n, limit);
    let w = last_of(order(before, select(p, n)), limit);
    assert forall|a: int, b: int| 0 <= a < b < w.len() implies rows[#[trigger] w[a]].ts
        < rows[#[trigger] w[b]].ts || rows[w[a]].ts == rows[w[b]].ts && w[a] < w[b] by {
        assert(earlier(key, w[a], w[b]));
    }
    assert forall|i: int| 0 <= i < rows.len() implies w.contains(i) || w.len() == limit && forall|
        k: int,
    |
        0 <= k < w.len() ==> (#[trigger] rows[i]).ts <= rows[#[trigger] w[k]].ts by {
        assert(p(i));
        if !w.contains(i) {
            assert forall|k: int| 0 <= k < w.len() implies rows[i].ts <= rows[#[trigger] w[k]].ts by {
                assert(earlier(key, i, w[k]));
            }
        }
    }
    w
}

/// The newest host sample is the last written of those with the greatest time;
/// there is none only where nothing was sampled.
pub proof fn the_newest_host_is_newest(rows: Seq<HostSample>) -> (j: int)
    ensures
        newest_host(rows) is None <==> rows.len() == 0,
        newest_host(rows) matches Some(h) ==> {
            &&& 0 <= j < rows.len()
            &&& tells_host(h, rows[j])
            &&& forall|i: int|
                0 <= i < rows.len() ==> (#[trigger] rows[i]).ts <= rows[j].ts && (rows[i].ts
                    == rows[j].ts ==> i <= j)
        },
{
    let n = rows.len() as int;
    let p = any_row();
    let before = hosts_by_ts(rows);
    let key = |i: int| rows[i].ts as int;
    tail_keeps_the_last(p, before, key, n, 1);
    let w = last_of(order(before, select(p, n)), 1);
    if rows.len() > 0 {
        assert(p(0));
        assert(w.len() > 0);
        let j = w[0];
        assert forall|i: int| 0 <= i < rows.len() implies (#[trigger] rows[i]).ts <= rows[j].ts && (
        rows[i].ts == rows[j].ts ==> i <= j) by {
            assert(p(i));
            if w.contains(i) {
                let k = choose|k: int| 0 <= k < w.len() && w[k] == i;
                assert(k == 0);
            } else {
                assert(earlier(key, i, w[0]));
            }
        }
        j
    } else {
        if w.len() > 0 {
            assert(0 <= w[0] < n);
        }
        0
    }
}

// ---------------------------------------------------------------------------
// The newest tick and the oldest
// ---------------------------------------------------------------------------

/// The newest tick holds every sample that no other is newer than, and no other
/// sample, whole and in the order of their writing. Gives their positions.
pub proof fn the_newest_tick_is_whole(rows: Seq<RunnerSample>) -> (w: Seq<int>)
    ensures
        w.len() == newest_tick(rows).len(),
        forall|k: int|
            0 <= k < w.len() ==> 0 <= #[trigger] w[k] < rows.len() && newest_tick(rows)[k]
                == rows[w[k]],
        forall|a: int, b: int| 0 <= a < b < w.len() ==> #[trigger] w[a] < #[trigger] w[b],
        forall|i: int|
            0 <= i < rows.len() ==> (#[trigger] w.contains(i) <==> forall|j: int|
                0 <= j < rows.len() ==> (#[trigger] rows[j]).ts <= rows[i].ts),
{
    let n = rows.len() as int;
    let p = of_newest_tick(rows);
    select_is_exact(p, n);
    crate::store::reader::max_ts_is_greatest(rows, n);
    let w = select(p, n);
    assert forall|i: int| 0 <= i < rows.len() implies (#[trigger] w.contains(i) <==> forall|j: int|
        0 <= j < rows.len() ==> (#[trigger] rows[j]).ts <= rows[i].ts) by {
        let t = max_ts(rows, n)->0;
        let m = choose|m: int| 0 <= m < n && t == #[trigger] rows[m].ts;
        if w.contains(i) {
            let k = choose|k: int| 0 <= k < w.len() && w[k] == i;
            assert(p(w[k]));
        }
        if forall|j: int| 0 <= j < rows.len() ==> (#[trigger] rows[j]).ts <= rows[i].ts {
            assert(rows[m].ts <= rows[i].ts);
            assert(p(i));
        }
    }
    w
}

/// The store reaches back to the oldest sample it holds; an empty one to none.
pub proof fn the_store_reaches_to_its_oldest(rows: Seq<RunnerSample>)
    ensures
        min_ts_where(rows, any_row(), rows.len() as int) is None <==> rows.len() == 0,
        min_ts_where(rows, any_row(), rows.len() as int) matches Some(t) ==> {
            &&& exists|i: int| 0 <= i < rows.len() && (#[trigger] rows[i]).ts == t
            &&& forall|i: int| 0 <= i < rows.len() ==> t <= (#[trigger] rows[i]).ts
        },
{
    let n = rows.len() as int;
    retention_is_the_floor(rows, any_row(), n);
    if n > 0 {
        assert(any_row()(0));
        let t = min_ts_where(rows, any_row(), n)->0;
        let j = choose|j: int| 0 <= j < n && #[trigger] any_row()(j) && rows[j].ts == t;
        assert(rows[j].ts == t);
        assert forall|i: int| 0 <= i < rows.len() implies t <= (#[trigger] rows[i]).ts by {
            assert(any_row()(i));
        }
    }
}

// ---------------------------------------------------------------------------
// Jobs
// ---------------------------------------------------------------------------

/// A row shows a job.
pub open spec fn shows_job(r: JobRow, j: JobEvent) -> bool {
    &&& r.runner_name@ == j.runner_name@
    &&& r.repo@ == j.repo@
    &&& r.job@ == j.job@
    &&& r.started_at == j.started_at
    &&& r.completed_at == j.completed_at
    &&& r.conclusion == j.conclusion
}

/// Of two times, the later leads; no time comes last.
pub open spec fn leads(a: Option<i64>, b: Option<i64>) -> bool {
    a matches Some(t) && (b matches Some(u) ==> t > u)
}

/// When a job was last heard to begin: its start, or its end where no start came in.
pub open spec fn heard_at(j: JobEvent) -> Option<i64> {
    match (j.started_at, j.completed_at) {
        (Some(t), _) => Some(t),
        (None, t) => t,
    }
}

spec fn from_newest(t: Option<i64>) -> int {
    match t {
        Some(t) => -(t as int),
        None => 0x8000_0000_0000_0001,
    }
}

/// The newest jobs are jobs of the table that qualify, the one heard of last first;
/// one that qualifies is missing only where the list is full of jobs that it does
/// not lead. Gives the jobs' positions.
proof fn newest_jobs_are(rows: Seq<JobEvent>, p: spec_fn(int) -> bool, limit: nat) -> (w: Seq<int>)
    ensures
        w.len() == newest_jobs(rows, p, limit).len(),
        w.len() <= limit,
        forall|k: int|
            0 <= k < w.len() ==> 0 <= #[trigger] w[k] < rows.len() && p(w[k]) && shows_job(
                newest_jobs(rows, p, limit)[k],
                rows[w[k]],
            ),
        forall|a: int, b: int|
            0 <= a < b < w.len() ==> leads(
                heard_at(rows[#[trigger] w[a]]),
                heard_at(rows[#[trigger] w[b]]),
            ) || heard_at(rows[w[a]]) == heard_at(rows[w[b]]) && w[a] < w[b],
        forall|i: int|
            0 <= i < rows.len() && #[trigger] p(i) ==> w.contains(i) || w.len() == limit && forall|
                k: int,
            |
                0 <= k < w.len() ==> !leads(heard_at(rows[i]), heard_at(rows[#[trigger] w[k]])),
{
    let n = rows.len() as int;
    let before = jobs_by_time(rows);
    let key = |i: int| from_newest(job_time(rows[i]));
    head_keeps_the_first(p, before, key, n, limit);
    let w = first_of(order(before, select(p, n)), limit);
    assert forall|a: int, b: int| 0 <= a < b < w.len() implies leads(
        heard_at(rows[#[trigger] w[a]]),
        heard_at(rows[#[trigger] w[b]]),
    ) || heard_at(rows[w[a]]) == heard_at(rows[w[b]]) && w[a] < w[b] by {
        assert(earlier(key, w[a], w[b]));
    }
    assert forall|i: int| 0 <= i < rows.len() && #[trigger] p(i) implies w.contains(i) || w.len()
        == limit && forall|k: int|
        0 <= k < w.len() ==> !leads(heard_at(rows[i]), heard_at(rows[#[trigger] w[k]])) by {
        if !w.contains(i) {
            assert forall|k: int| 0 <= k < w.len() implies !leads(
                heard_at(rows[i]),
                heard_at(rows[#[trigger] w[k]]),
            ) by {
                assert(earlier(key, w[k], i));
            }
        }
    }
    w
}

/// The recent jobs are jobs of the table, the one heard of last first; a job is
/// missing only where the list is full of jobs that it does not lead. Gives the
/// jobs' positions.
pub proof fn recent_jobs_are_the_newest(rows: Seq<JobEvent>, limit: nat) -> (w: Seq<int>)
    ensures
        w.len() == newest_jobs(rows, any_row(), limit).len(),
        w.len() <= limit,
        forall|k: int|
            0 <= k < w.len() ==> 0 <= #[trigger] w[k] < rows.len() && shows_job(
                newest_jobs(rows, any_row(), limit)[k],
                rows[w[k]],
            ),
        forall|a: int, b: int|
            0 <= a < b < w.len() ==> leads(
                heard_at(rows[#[trigger] w[a]]),
                heard_at(rows[#[trigger] w[b]]),
            ) || heard_at(rows[w[a]]) == heard_at(rows[w[b]]) && w[a] < w[b],
        forall|i: int|
            0 <= i < rows.len() ==> w.contains(i) || w.len() == limit && forall|k: int|
                0 <= k < w.len() ==> !leads(
                    heard_at(#[trigger] rows[i]),
                    heard_at(rows[#[trigger] w[k]]),
                ),
{
    let w = newest_jobs_are(rows, any_row(), limit);
    assert forall|i: int| 0 <= i < rows.len() implies w.contains(i) || w.len() == limit && forall|
        k: int,
    |
        0 <= k < w.len() ==> !leads(heard_at(#[trigger] rows[i]), heard_at(rows[#[trigger] w[k]])) by {
        assert(any_row()(i));
    }
    w
}

/// A runner's latest job is one of its own, and none of its own leads it; there is
/// none only where the runner ran none. Gives the job's position.
pub proof fn the_latest_job_is_the_runners(rows: Seq<JobEvent>, name: Seq<char>) -> (j: int)
    ensures
        ({
            let jobs = newest_jobs(rows, of_runner(rows, name), 1);
            &&& jobs.len() == 0 <==> forall|i: int|
                0 <= i < rows.len() ==> (#[trigger] rows[i]).runner_name@ != name
            &&& jobs.len() > 0 ==> {
                &&& 0 <= j < rows.len()
                &&& rows[j].runner_name@ == name
                &&& shows_job(jobs[0], rows[j])
                &&& forall|i: int|
                    0 <= i < rows.len() && (#[trigger] rows[i]).runner_name@ == name ==> !leads(
                        heard_at(rows[i]),
                        heard_at(rows[j]),
                    )
            }
        }),
{
    let p = of_runner(rows, name);
    let w = newest_jobs_are(rows, p, 1);
    let j = if w.len() > 0 {
        w[0]
    } else {
        0
    };
    if w.len() > 0 {
        assert(p(w[0]));
        assert(rows[j].runner_name@ == name);
    }
    assert forall|i: int| 0 <= i < rows.len() && (#[trigger] rows[i]).runner_name@ == name implies w.len()
        > 0 && !leads(heard_at(rows[i]), heard_at(rows[j])) by {
        assert(p(i));
        if w.contains(i) {
            let k = choose|k: int| 0 <= k < w.len() && w[k] == i;
            assert(k == 0);
        }
    }
    j
}

/// What is asked is asked of a job.
pub open spec fn asks_about(q: PendingConclusion, j: JobEvent) -> bool {
    &&& q.org@ == j.org@
    &&& q.repo@ == j.repo@
    &&& q.run_id == j.run_id
    &&& q.run_attempt == j.run_attempt
    &&& q.job@ == j.job@
    &&& q.runner_name@ == j.runner_name@
}

/// A job that is over, of which GitHub can be asked how it ended, and was not heard.
pub open spec fn unresolved(j: JobEvent) -> bool {
    j.completed_at is Some && j.conclusion is None && j.org@ != Seq::<char>::empty() && j.repo@
        != Seq::<char>::empty()
}

/// GitHub is asked about the unresolved jobs and no others, those that ended last
/// first; one is left out only where the list is full of jobs that ended no earlier.
/// Gives the jobs' positions.
pub proof fn the_unresolved_jobs_are_asked_about(rows: Seq<JobEvent>, limit: nat) -> (w: Seq<int>)
    ensures
        w.len() == awaiting_jobs(rows, limit).len(),
        w.len() <= limit,
        forall|k: int|
            0 <= k < w.len() ==> 0 <= #[trigger] w[k] < rows.len() && unresolved(rows[w[k]])
                && asks_about(awaiting_jobs(rows, limit)[k], rows[w[k]]),
        forall|a: int, b: int|
            0 <= a < b < w.len() ==> rows[#[trigger] w[a]].completed_at->0
                >= rows[#[trigger] w[b]].completed_at->0 && w[a] != w[b],
        forall|i: int|
            0 <= i < rows.len() && unresolved(#[trigger] rows[i]) ==> w.contains(i) || w.len()
                == limit && forall|k: int|
                0 <= k < w.len() ==> rows[#[trigger] w[k]].completed_at->0
                    >= rows[i].completed_at->0,
{
    let n = rows.len() as int;
    let p = awaiting(rows);
    let before = jobs_by_completion(rows);
    let key = |i: int| from_newest(rows[i].completed_at);
    head_keeps_the_first(p, before, key, n, limit);
    let w = first_of(order(before, select(p, n)), limit);
    assert forall|k: int| 0 <= k < w.len() implies 0 <= #[trigger] w[k] < rows.len() && unresolved(
        rows[w[k]],
    ) && asks_about(awaiting_jobs(rows, limit)[k], rows[w[k]]) by {
        assert(p(w[k]));
    }
    assert forall|a: int, b: int| 0 <= a < b < w.len() implies rows[#[trigger] w[a]].completed_at->0
        >= rows[#[trigger] w[b]].completed_at->0 && w[a] != w[b] by {
        assert(earlier(key, w[a], w[b]));
        assert(p(w[a]) && p(w[b]));
    }
    assert forall|i: int| 0 <= i < rows.len() && unresolved(#[trigger] rows[i]) implies w.contains(i)
        || w.len() == limit && forall|k: int|
        0 <= k < w.len() ==> rows[#[trigger] w[k]].completed_at->0 >= rows[i].completed_at->0 by {
        assert(rows[i].org@.len() > 0) by {
            assert(rows[i].org@.len() == 0 ==> rows[i].org@ =~= Seq::<char>::empty());
        }
        assert(rows[i].repo@.len() > 0) by {
            assert(rows[i].repo@.len() == 0 ==> rows[i].repo@ =~= Seq::<char>::empty());
        }
        assert(p(i));
        if !w.contains(i) {
            assert forall|k: int| 0 <= k < w.len() implies rows[#[trigger] w[k]].completed_at->0
                >= rows[i].completed_at->0 by {
                assert(earlier(key, w[k], i));
                assert(p(w[k]));
            }
        }
    }
    w
}

/// The jobs that are counted as running are those that were not heard to end.
pub proof fn running_jobs_have_not_ended(rows: Seq<JobEvent>)
    ensures
        select(running(rows), rows.len() as int).len() == Set::new(
            |i: int| 0 <= i < rows.len() && rows[i].completed_at is None,
        ).len(),
{
    let n = rows.len() as int;
    selected_are_counted(running(rows), n);
    assert(Set::new(|i: int| 0 <= i < n && running(rows)(i)) =~= Set::new(
        |i: int| 0 <= i < rows.len() && rows[i].completed_at is None,
    ));
}

// ---------------------------------------------------------------------------
// GitHub's view
// ---------------------------------------------------------------------------

/// Reading `j` is the last that GitHub gave of the runner: none of the runner's is
/// newer, and none of the same time was written later.
pub open spec fn last_reading(api: Seq<ApiSample>, org: Seq<char>, id: i64, j: int) -> bool {
    &&& 0 <= j < api.len()
    &&& api[j].org@ == org && api[j].agent_id == id
    &&& forall|k: int|
        0 <= k < api.len() && (#[trigger] api[k]).org@ == org && api[k].agent_id == id
            ==> api[k].ts < api[j].ts || api[k].ts == api[j].ts && k <= j
}

/// A view shows a reading at `now`: what it said while it is no older than
/// `max_age`, and its age alone from then on. A reading from the future is new.
pub open spec fn views_reading(v: GhView, s: ApiSample, now: i64, max_age: u64) -> bool {
    let age = if now < s.ts {
        0
    } else if now - s.ts > i64::MAX {
        i64::MAX as int
    } else {
        now - s.ts
    };
    if age <= max_age {
        v matches GhView::Fresh { state, age_s } && state.online == s.online && state.busy == s.busy
            && age_s == age
    } else {
        v matches GhView::Stale { age_s } && age_s == age
    }
}

proof fn newest_at_is_last(api: Seq<ApiSample>, org: Seq<char>, id: i64, n: int)
    requires
        0 <= n <= api.len(),
    ensures
        forall|k: int|
            0 <= k < n && is_of(#[trigger] api[k], org, id) && api[k].ts == api[newest_at(
                api,
                org,
                id,
                n,
            )].ts ==> k <= newest_at(api, org, id, n),
    decreases n,
{
    newest_at_is_newest(api, org, id, n);
    if n > 0 {
        newest_at_is_last(api, org, id, n - 1);
        newest_at_is_newest(api, org, id, n - 1);
    }
}

/// GitHub's view of a runner shows the runner's last reading; it is unknown only
/// where there is none.
pub proof fn a_view_shows_the_last_reading(
    api: Seq<ApiSample>,
    org: Seq<char>,
    id: i64,
    now: i64,
    max_age: u64,
) -> (j: int)
    ensures
        ({
            let v = crate::store::reader::github::gh_view(api, org, id, now, max_age);
            &&& v is Unknown <==> forall|k: int|
                0 <= k < api.len() ==> !((#[trigger] api[k]).org@ == org && api[k].agent_id == id)
            &&& v !is Unknown ==> last_reading(api, org, id, j) && views_reading(
                v,
                api[j],
                now,
                max_age,
            )
        }),
{
    let n = api.len() as int;
    newest_at_is_newest(api, org, id, n);
    newest_at_is_last(api, org, id, n);
    let j = newest_at(api, org, id, n);
    if j >= 0 {
        assert(is_of(api[j], org, id));
        assert forall|k: int|
            0 <= k < api.len() && (#[trigger] api[k]).org@ == org && api[k].agent_id == id implies api[k].ts
            < api[j].ts || api[k].ts == api[j].ts && k <= j by {
            assert(is_of(api[k], org, id));
        }
    } else {
        assert forall|k: int| 0 <= k < api.len() implies !((#[trigger] api[k]).org@ == org
            && api[k].agent_id == id) by {
            if is_of(api[k], org, id) {
            }
        }
    }
    j
}

/// The latest views have one row for each runner that GitHub ever reported, and for
/// no other; it shows the runner's last reading.
pub proof fn the_views_cover_the_runners(
    r: Seq<ApiRow>,
    api: Seq<ApiSample>,
    now: i64,
    max_age: u64,
)
    requires
        lists_views(r, api, now, max_age),
    ensures
        forall|a: int, b: int|
            0 <= a < b < r.len() ==> (#[trigger] r[a]).org@ != (#[trigger] r[b]).org@
                || r[a].agent_id != r[b].agent_id,
        forall|k: int|
            0 <= k < r.len() ==> exists|j: int| #[trigger]
                last_reading(api, (#[trigger] r[k]).org@, r[k].agent_id, j) && views_reading(
                    r[k].view,
                    api[j],
                    now,
                    max_age,
                ),
        forall|j: int|
            0 <= j < api.len() ==> exists|k: int|
                0 <= k < r.len() && (#[trigger] r[k]).org@ == (#[trigger] api[j]).org@
                    && r[k].agent_id == api[j].agent_id,
{
    assert forall|k: int| 0 <= k < r.len() implies exists|j: int| #[trigger]
        last_reading(api, (#[trigger] r[k]).org@, r[k].agent_id, j) && views_reading(
            r[k].view,
            api[j],
            now,
            max_age,
        ) by {
        let org = r[k].org@;
        let id = r[k].agent_id;
        let j = a_view_shows_the_last_reading(api, org, id, now, max_age);
        assert(has_row(r, org, id));
        newest_at_is_newest(api, org, id, api.len() as int);
        let m = newest_at(api, org, id, api.len() as int);
        assert(is_of(api[m], org, id));
        assert(r[k].view == crate::store::reader::github::gh_view(api, org, id, now, max_age));
    }
    assert forall|j: int| 0 <= j < api.len() implies exists|k: int|
        0 <= k < r.len() && (#[trigger] r[k]).org@ == (#[trigger] api[j]).org@ && r[k].agent_id
            == api[j].agent_id by {
        newest_at_is_newest(api, api[j].org@, api[j].agent_id, api.len() as int);
        assert(is_of(api[j], api[j].org@, api[j].agent_id));
        assert(has_row(r, api[j].org@, api[j].agent_id));
    }
}

/// The orgs' health is given whole, each row once, by the names of the orgs. Gives
/// the rows' positions.
pub proof fn the_healths_are_sorted(rows: Seq<ApiReconcileState>) -> (w: Seq<int>)
    ensures
        sorted_healths(rows).len() == rows.len() && w.len() == rows.len(),
        forall|k: int|
            0 <= k < w.len() ==> 0 <= #[trigger] w[k] < rows.len() && sorted_healths(rows)[k]
                == rows[w[k]],
        forall|i: int| 0 <= i < rows.len() ==> #[trigger] w.contains(i),
        forall|a: int, b: int|
            0 <= a < b < rows.len() ==> text_le(
                (#[trigger] sorted_healths(rows)[a]).org@,
                (#[trigger] sorted_healths(rows)[b]).org@,
            ),
{
    broadcast use vstd::seq_lib::group_to_multiset_ensures;

    let n = rows.len() as int;
    let before = healths_by_org(rows);
    let idx = select(any_row(), n);
    select_is_exact(any_row(), n);
    all_are_selected(n);
    assert forall|a: int, b: int| #[trigger] before(a, b) || before(b, a) by {
        text_le_total(rows[a].org@, rows[b].org@);
    }
    assert forall|a: int, b: int, c: int| #[trigger]
        before(a, b) && #[trigger] before(b, c) implies before(a, c) by {
        text_le_transitive(rows[a].org@, rows[b].org@, rows[c].org@);
    }
    order_is_sorted(before, idx);
    order_is_a_permutation(before, idx);
    let w = order(before, idx);
    assert forall|k: int| 0 <= k < w.len() implies 0 <= #[trigger] w[k] < rows.len() by {
        assert(w.contains(w[k]));
        assert(w.to_multiset().count(w[k]) > 0);
        assert(idx.contains(w[k]));
    }
    assert forall|i: int| 0 <= i < rows.len() implies #[trigger] w.contains(i) by {
        assert(any_row()(i));
        assert(idx.contains(i));
        assert(idx.to_multiset().count(i) > 0);
    }
    assert forall|a: int, b: int| 0 <= a < b < rows.len() implies text_le(
        (#[trigger] sorted_healths(rows)[a]).org@,
        (#[trigger] sorted_healths(rows)[b]).org@,
    ) by {
        assert(before(w[a], w[b]));
    }
    w
}

pub(crate) proof fn all_are_selected(n: int)
    requires
        n >= 0,
    ensures
        select(any_row(), n).len() == n,
    decreases n,
{
    if n > 0 {
        assert(any_row()(n - 1));
        all_are_selected(n - 1);
    }
}

// ---------------------------------------------------------------------------
// Occupancy
// ---------------------------------------------------------------------------

/// Reading `j` holds at the time of sample `r`: it is of the sample's runner, no
/// later than the sample and at most `max_age` older, and none such is newer.
pub open spec fn holds_at(api: Seq<ApiSample>, r: RunnerSample, max_age: u64, j: int) -> bool {
    &&& 0 <= j < api.len()
    &&& api[j].org@ == r.org@ && api[j].agent_id == r.agent_id
    &&& r.ts - max_age <= api[j].ts <= r.ts
    &&& forall|k: int|
        0 <= k < api.len() && (#[trigger] api[k]).org@ == r.org@ && api[k].agent_id == r.agent_id
            && r.ts - max_age <= api[k].ts <= r.ts ==> api[k].ts <= api[j].ts
}

/// The samples of tick `t`, each with a reading that holds at it.
pub open spec fn readings_at(
    rows: Seq<RunnerSample>,
    api: Seq<ApiSample>,
    t: i64,
    max_age: u64,
) -> Set<(int, int)> {
    Set::new(
        |q: (int, int)|
            0 <= q.0 < rows.len() && rows[q.0].ts == t && holds_at(api, rows[q.0], max_age, q.1),
    )
}

/// The samples of tick `t`, each with a reading that holds at it, or with none (-1)
/// where none does.
pub open spec fn samples_at(
    rows: Seq<RunnerSample>,
    api: Seq<ApiSample>,
    t: i64,
    max_age: u64,
) -> Set<(int, int)> {
    Set::new(
        |q: (int, int)|
            0 <= q.0 < rows.len() && rows[q.0].ts == t && (holds_at(api, rows[q.0], max_age, q.1)
                || q.1 == -1 && forall|j: int| !#[trigger] holds_at(api, rows[q.0], max_age, j)),
    )
}

proof fn joined_hold(api: Seq<ApiSample>, r: RunnerSample, max_age: u64)
    ensures
        forall|j: int| #[trigger] joined(api, r, max_age).contains(j) <==> holds_at(api, r, max_age, j),
        forall|a: int, b: int|
            0 <= a < b < joined(api, r, max_age).len() ==> #[trigger] joined(api, r, max_age)[a]
                < #[trigger] joined(api, r, max_age)[b],
{
    let n = api.len() as int;
    let lo = r.ts - max_age;
    let hi = r.ts as int;
    let s = joined(api, r, max_age);
    reading_time_is_within(api, r.org@, r.agent_id, lo, hi, n);
    reading_time_is_met(api, r.org@, r.agent_id, lo, hi, n);
    match reading_time(api, r.org@, r.agent_id, lo, hi, n) {
        None => {
            assert forall|j: int| #[trigger] s.contains(j) <==> holds_at(api, r, max_age, j) by {
                if holds_at(api, r, max_age, j) {
                    assert(is_of(api[j], r.org@, r.agent_id));
                }
            }
        },
        Some(t) => {
            let p = of_runner_at(api, r.org@, r.agent_id, t);
            select_is_exact(p, n);
            let m = choose|m: int|
                0 <= m < n && is_of(#[trigger] api[m], r.org@, r.agent_id) && api[m].ts == t;
            assert forall|j: int| #[trigger] s.contains(j) <==> holds_at(api, r, max_age, j) by {
                if s.contains(j) {
                    let k = choose|k: int| 0 <= k < s.len() && s[k] == j;
                    assert(p(s[k]));
                    assert forall|i: int|
                        0 <= i < api.len() && (#[trigger] api[i]).org@ == r.org@ && api[i].agent_id
                            == r.agent_id && lo <= api[i].ts <= hi implies api[i].ts <= api[j].ts by {
                        assert(is_of(api[i], r.org@, r.agent_id));
                    }
                }
                if holds_at(api, r, max_age, j) {
                    assert(api[m].ts <= api[j].ts);
                    assert(is_of(api[j], r.org@, r.agent_id));
                    assert(p(j));
                }
            }
        },
    }
}

/// The pairs of `m` with those of `idx` that satisfy `g`.
spec fn paired(m: int, idx: Seq<int>, g: spec_fn(int) -> bool) -> Set<(int, int)> {
    Set::new(|q: (int, int)| q.0 == m && idx.contains(q.1) && g(q.1))
}

proof fn paired_grows(m: int, idx: Seq<int>, g: spec_fn(int) -> bool)
    requires
        forall|a: int, b: int| 0 <= a < b < idx.len() ==> #[trigger] idx[a] < #[trigger] idx[b],
    ensures
        paired(m, idx, g).finite(),
        idx.len() == 0 ==> paired(m, idx, g).len() == 0,
        idx.len() > 0 ==> paired(m, idx, g).len() == paired(m, idx.drop_last(), g).len() + (if g(
            idx.last(),
        ) {
            1int
        } else {
            0
        }),
    decreases idx.len(),
{
    let s = paired(m, idx, g);
    if idx.len() > 0 {
        let init = idx.drop_last();
        let x = idx.last();
        assert forall|a: int, b: int| 0 <= a < b < init.len() implies #[trigger] init[a]
            < #[trigger] init[b] by {
            assert(idx[a] < idx[b]);
        }
        paired_grows(m, init, g);
        let t = paired(m, init, g);
        assert(!init.contains(x)) by {
            if init.contains(x) {
                let k = choose|k: int| 0 <= k < init.len() && init[k] == x;
                assert(idx[k] < idx[idx.len() - 1]);
            }
        }
        assert forall|y: int| #[trigger] idx.contains(y) <==> init.contains(y) || y == x by {
            if idx.contains(y) {
                let k = choose|k: int| 0 <= k < idx.len() && idx[k] == y;
                if k < init.len() {
                    assert(init[k] == y);
                }
            }
            if init.contains(y) {
                let k = choose|k: int| 0 <= k < init.len() && init[k] == y;
                assert(idx[k] == y);
            }
            if y == x {
                assert(idx[idx.len() - 1] == y);
            }
        }
        if g(x) {
            assert(s =~= t.insert((m, x)));
        } else {
            assert(s =~= t);
        }
    } else {
        assert(s =~= Set::<(int, int)>::empty());
    }
}

proof fn pairs_are_counted(api: Seq<ApiSample>, m: int, idx: Seq<int>)
    requires
        forall|a: int, b: int| 0 <= a < b < idx.len() ==> #[trigger] idx[a] < #[trigger] idx[b],
    ensures
        paired(m, idx, any_row()).finite(),
        paired(m, idx, any_row()).len() == idx.len(),
        paired(m, idx, |j: int| api[j].online).finite(),
        paired(m, idx, |j: int| api[j].online).len() == online_among(api, idx),
    decreases idx.len(),
{
    let on = |j: int| api[j].online;
    paired_grows(m, idx, any_row());
    paired_grows(m, idx, on);
    if idx.len() > 0 {
        let init = idx.drop_last();
        assert forall|a: int, b: int| 0 <= a < b < init.len() implies #[trigger] init[a]
            < #[trigger] init[b] by {
            assert(idx[a] < idx[b]);
        }
        pairs_are_counted(api, m, init);
        assert(any_row()(idx.last()));
    }
}

spec fn below(s: Set<(int, int)>, n: int) -> Set<(int, int)> {
    s.filter(|q: (int, int)| q.0 < n)
}

/// Where the pairs of position `n - 1` are `more`, they come on top.
proof fn below_grows(s: Set<(int, int)>, n: int, more: Set<(int, int)>)
    requires
        below(s, n - 1).finite(),
        more.finite(),
        forall|q: (int, int)| #[trigger] more.contains(q) <==> s.contains(q) && q.0 == n - 1,
    ensures
        below(s, n).finite(),
        below(s, n).len() == below(s, n - 1).len() + more.len(),
{
    let a = below(s, n - 1);
    assert(below(s, n) =~= a + more);
    assert(a.disjoint(more)) by {
        assert forall|q: (int, int)| a.contains(q) implies !more.contains(q) by {}
    }
    vstd::set_lib::lemma_set_disjoint_lens(a, more);
}

#[verifier::rlimit(60)]
proof fn tally_counts(
    rows: Seq<RunnerSample>,
    api: Seq<ApiSample>,
    t: i64,
    max_age: u64,
    n: int,
)
    requires
        0 <= n <= rows.len(),
    ensures
        ({
            let c = tally(rows, api, t, max_age, n);
            let known = readings_at(rows, api, t, max_age);
            let here = samples_at(rows, api, t, max_age);
            let on = known.filter(|q: (int, int)| api[q.1].online);
            let busy = here.filter(|q: (int, int)| rows[q.0].liveness is Busy);
            let up = here.filter(|q: (int, int)| rows[q.0].liveness !is Offline);
            &&& below(known, n).finite() && below(known, n).len() == c.gh_known
            &&& below(on, n).finite() && below(on, n).len() == c.gh_online
            &&& below(busy, n).finite() && below(busy, n).len() == c.busy
            &&& below(up, n).finite() && below(up, n).len() == c.online
        }),
    decreases n,
{
    let known = readings_at(rows, api, t, max_age);
    let here = samples_at(rows, api, t, max_age);
    let on = known.filter(|q: (int, int)| api[q.1].online);
    let busy = here.filter(|q: (int, int)| rows[q.0].liveness is Busy);
    let up = here.filter(|q: (int, int)| rows[q.0].liveness !is Offline);
    let none = Set::<(int, int)>::empty();
    if n > 0 {
        tally_counts(rows, api, t, max_age, n - 1);
        let r = rows[n - 1];
        let idx = joined(api, r, max_age);
        if r.ts != t {
            below_grows(known, n, none);
            below_grows(on, n, none);
            below_grows(busy, n, none);
            below_grows(up, n, none);
        } else {
            joined_hold(api, r, max_age);
            pairs_are_counted(api, n - 1, idx);
            let all = paired(n - 1, idx, any_row());
            assert forall|q: (int, int)| #[trigger] all.contains(q) <==> known.contains(q) && q.0 == n
                - 1 by {
                assert(any_row()(q.1));
            }
            below_grows(known, n, all);
            let lit = paired(n - 1, idx, |j: int| api[j].online);
            assert forall|q: (int, int)| #[trigger] lit.contains(q) <==> on.contains(q) && q.0 == n
                - 1 by {}
            below_grows(on, n, lit);
            let whole = if idx.len() == 0 {
                none.insert((n - 1, -1int))
            } else {
                all
            };
            assert(whole.finite() && whole.len() == weight(api, r, max_age));
            assert forall|q: (int, int)| #[trigger] whole.contains(q) <==> here.contains(q) && q.0 == n
                - 1 by {
                if idx.len() == 0 {
                    assert forall|j: int| !#[trigger] holds_at(api, r, max_age, j) by {
                        assert(!idx.contains(j));
                    }
                } else {
                    assert(idx.contains(idx[0]));
                    assert(holds_at(api, r, max_age, idx[0]));
                    assert(all.contains(q) <==> known.contains(q) && q.0 == n - 1);
                }
            }
            below_grows(
                busy,
                n,
                if r.liveness is Busy {
                    whole
                } else {
                    none
                },
            );
            below_grows(
                up,
                n,
                if r.liveness !is Offline {
                    whole
                } else {
                    none
                },
            );
        }
    } else {
        assert(below(known, n) =~= none);
        assert(below(on, n) =~= none);
        assert(below(busy, n) =~= none);
        assert(below(up, n) =~= none);
    }
}

/// A count as it is reported: exact as far as 32 bits hold it.
pub open spec fn reports(r: u32, n: nat) -> bool {
    r == n || n > u32::MAX && r == u32::MAX
}

/// What a tick counts, over its samples and the readings that hold at them. Busy
/// here are the samples taken busy, online those not taken offline, each as often
/// as readings hold at it, and once where none does. GitHub knows as many as there
/// are such readings, and calls online those among them with the online bit; where
/// there is no reading, there is a gap.
pub proof fn a_point_counts_its_tick(
    rows: Seq<RunnerSample>,
    api: Seq<ApiSample>,
    t: i64,
    max_age: u64,
)
    ensures
        ({
            let b = busy_point(rows, api, t, max_age);
            let known = readings_at(rows, api, t, max_age);
            let here = samples_at(rows, api, t, max_age);
            &&& b.ts == t
            &&& here.finite() && known.finite()
            &&& reports(b.busy, here.filter(|q: (int, int)| rows[q.0].liveness is Busy).len())
            &&& reports(b.online, here.filter(|q: (int, int)| rows[q.0].liveness !is Offline).len())
            &&& b.github is None <==> known.len() == 0
            &&& b.github matches Some(g) ==> reports(g.known, known.len()) && reports(
                g.online,
                known.filter(|q: (int, int)| api[q.1].online).len(),
            )
        }),
{
    let n = rows.len() as int;
    tally_counts(rows, api, t, max_age, n);
    let known = readings_at(rows, api, t, max_age);
    let here = samples_at(rows, api, t, max_age);
    let on = known.filter(|q: (int, int)| api[q.1].online);
    let busy = here.filter(|q: (int, int)| rows[q.0].liveness is Busy);
    let up = here.filter(|q: (int, int)| rows[q.0].liveness !is Offline);
    assert(below(known, n) =~= known);
    assert(below(on, n) =~= on);
    assert(below(busy, n) =~= busy);
    assert(below(up, n) =~= up);
    here_is_finite(rows, api, t, max_age, n);
    assert(below(here, n) =~= here);
}

proof fn here_is_finite(
    rows: Seq<RunnerSample>,
    api: Seq<ApiSample>,
    t: i64,
    max_age: u64,
    n: int,
)
    requires
        0 <= n <= rows.len(),
    ensures
        below(samples_at(rows, api, t, max_age), n).finite(),
    decreases n,
{
    let s = samples_at(rows, api, t, max_age);
    if n > 0 {
        here_is_finite(rows, api, t, max_age, n - 1);
        let r = rows[n - 1];
        let idx = joined(api, r, max_age);
        joined_hold(api, r, max_age);
        pairs_are_counted(api, n - 1, idx);
        let all = paired(n - 1, idx, any_row()).insert((n - 1, -1int));
        assert forall|q: (int, int)| below(s, n).contains(q) implies (below(s, n - 1)
            + all).contains(q) by {
            assert(any_row()(q.1));
            if q.0 == n - 1 && q.1 != -1 {
                assert(idx.contains(q.1));
            }
        }
        vstd::set_lib::lemma_set_subset_finite(below(s, n - 1) + all, below(s, n));
    } else {
        assert(below(s, n) =~= Set::<(int, int)>::empty());
    }
}

/// Where every reading that holds at a tick has the online bit, GitHub calls online
/// all that it knows; where none has it, none; and it calls all online only then.
pub proof fn all_are_online_only_if_all_are(
    rows: Seq<RunnerSample>,
    api: Seq<ApiSample>,
    t: i64,
    max_age: u64,
)
    requires
        readings_at(rows, api, t, max_age).len() <= u32::MAX,
    ensures
        busy_point(rows, api, t, max_age).github matches Some(g) ==> {
            let known = readings_at(rows, api, t, max_age);
            &&& g.online == g.known <==> forall|q: (int, int)| #[trigger]
                known.contains(q) ==> api[q.1].online
            &&& g.online == 0 <==> forall|q: (int, int)| #[trigger]
                known.contains(q) ==> !api[q.1].online
        },
{
    let known = readings_at(rows, api, t, max_age);
    let lit = |q: (int, int)| api[q.1].online;
    let on = known.filter(lit);
    a_point_counts_its_tick(rows, api, t, max_age);
    vstd::set_lib::lemma_len_subset(on, known);
    if on.len() == known.len() {
        vstd::set_lib::lemma_subset_equality(on, known);
        assert forall|q: (int, int)| #[trigger] known.contains(q) implies api[q.1].online by {
            assert(on.contains(q));
        }
    }
    if forall|q: (int, int)| #[trigger] known.contains(q) ==> api[q.1].online {
        assert(on =~= known);
    }
    if on.len() == 0 {
        assert forall|q: (int, int)| #[trigger] known.contains(q) implies !api[q.1].online by {
            if lit(q) {
                assert(on.contains(q));
            }
        }
    }
    if forall|q: (int, int)| #[trigger] known.contains(q) ==> !api[q.1].online {
        assert(on =~= Set::<(int, int)>::empty());
    }
}

/// The occupancy series has a point for each of the last `limit` times that were
/// sampled, in the order of time.
pub proof fn the_series_has_the_last_ticks(
    rows: Seq<RunnerSample>,
    api: Seq<ApiSample>,
    limit: nat,
    max_age: u64,
)
    ensures
        ({
            let s = occupancy(rows, api, limit, max_age);
            &&& s.len() <= limit
            &&& forall|k: int|
                0 <= k < s.len() ==> #[trigger] s[k] == busy_point(rows, api, s[k].ts, max_age)
                    && exists|i: int| 0 <= i < rows.len() && (#[trigger] rows[i]).ts == s[k].ts
            &&& forall|a: int, b: int|
                0 <= a < b < s.len() ==> (#[trigger] s[a]).ts < (#[trigger] s[b]).ts
            &&& forall|i: int|
                0 <= i < rows.len() ==> (exists|k: int|
                    0 <= k < s.len() && (#[trigger] s[k]).ts == (#[trigger] rows[i]).ts) || s.len()
                    == limit && forall|k: int|
                    0 <= k < s.len() ==> rows[i].ts < (#[trigger] s[k]).ts
        }),
{
    let n = rows.len() as int;
    let all = ticks(rows, n);
    let kept = last_of(all, limit);
    let s = occupancy(rows, api, limit, max_age);
    let d = all.len() - kept.len();
    ticks_are_the_sampled_times(rows, n);
    assert forall|k: int| 0 <= k < s.len() implies #[trigger] s[k] == busy_point(
        rows,
        api,
        all[d + k],
        max_age,
    ) && s[k].ts == all[d + k] by {}
    assert forall|k: int| 0 <= k < s.len() implies #[trigger] s[k] == busy_point(
        rows,
        api,
        s[k].ts,
        max_age,
    ) && exists|i: int| 0 <= i < rows.len() && (#[trigger] rows[i]).ts == s[k].ts by {
        assert(all.contains(all[d + k]));
    }
    assert forall|a: int, b: int| 0 <= a < b < s.len() implies (#[trigger] s[a]).ts < (
    #[trigger] s[b]).ts by {
        assert(all[d + a] < all[d + b]);
    }
    assert forall|i: int| 0 <= i < rows.len() implies (exists|k: int|
        0 <= k < s.len() && (#[trigger] s[k]).ts == (#[trigger] rows[i]).ts) || s.len() == limit
        && forall|k: int| 0 <= k < s.len() ==> rows[i].ts < (#[trigger] s[k]).ts by {
        assert(rows[i].ts == rows[i].ts);
        assert(all.contains(rows[i].ts));
        let m = choose|m: int| 0 <= m < all.len() && all[m] == rows[i].ts;
        if m >= d {
            assert(s[m - d].ts == rows[i].ts);
        } else {
            assert forall|k: int| 0 <= k < s.len() implies rows[i].ts < (#[trigger] s[k]).ts by {
                assert(all[m] < all[d + k]);
            }
        }
    }
}

/// How far a log was read is what is stored, and its start where that makes no sense.
pub proof fn an_offset_is_never_negative(stored: i64)
    ensures
        stored >= 0 ==> crate::store::reader::jobs::offset_read(stored) == stored,
        stored < 0 ==> crate::store::reader::jobs::offset_read(stored) == 0,
{
}

} // verus!
