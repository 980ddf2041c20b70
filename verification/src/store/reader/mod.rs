//! What readers make of the sampled rows: histories, series, the newest tick, and
//! how far back the samples reach.

use vstd::prelude::*;

use crate::models::{copy_measure, HistPoint, HostPoint, HostSample, RunnerSample, RunnerState};
use crate::store::rows::{
    at, last_of, order, order_rows, select, select_is_exact, select_rows,
};
use crate::store::tables::Db;
use crate::text::same;

pub mod github;
pub mod jobs;
pub mod laws;
pub mod occupancy;
pub mod timeline;

verus! {

/// Every position.
pub open spec fn any_row() -> spec_fn(int) -> bool {
    |i: int| true
}

/// Counts as they are reported: clipped to what 32 bits hold.
pub open spec fn clip32(n: int) -> u32 {
    if n <= u32::MAX {
        n as u32
    } else {
        u32::MAX
    }
}

pub(crate) fn add_clipped(acc: u32, k: usize, Ghost(n): Ghost<int>) -> (r: u32)
    requires
        n >= 0,
        acc == clip32(n),
    ensures
        r == clip32(n + k),
{
    if k > (u32::MAX - acc) as usize {
        u32::MAX
    } else {
        acc + k as u32
    }
}

// ---------------------------------------------------------------------------
// Histories
// ---------------------------------------------------------------------------

/// Which runner samples are of `dir`.
pub open spec fn of_dir(rows: Seq<RunnerSample>, dir: Seq<char>) -> spec_fn(int) -> bool {
    |i: int| rows[i].dir@ == dir
}

/// Runner samples by time.
pub open spec fn samples_by_ts(rows: Seq<RunnerSample>) -> spec_fn(int, int) -> bool {
    |i: int, j: int| rows[i].ts <= rows[j].ts
}

/// The history point of a sample.
pub open spec fn hist_point(r: RunnerSample) -> HistPoint {
    HistPoint { ts: r.ts, cpu_pct: r.cpu_pct, mem_bytes: r.mem_bytes }
}

/// The last `limit` samples of the runner at `dir`, oldest first.
pub open spec fn history(rows: Seq<RunnerSample>, dir: Seq<char>, limit: nat) -> Seq<HistPoint> {
    last_of(
        order(samples_by_ts(rows), select(of_dir(rows, dir), rows.len() as int)),
        limit,
    ).map_values(|i: int| hist_point(rows[i]))
}

/// The last `limit` positions of an order.
fn tail_of(v: &Vec<usize>, limit: usize) -> (start: usize)
    ensures
        start <= v@.len(),
        at(v@).skip(start as int) == last_of(at(v@), limit as nat),
{
    if v.len() <= limit {
        assert(at(v@).skip(0) =~= at(v@));
        0
    } else {
        v.len() - limit
    }
}

/// The most recent `limit` samples of a runner, oldest first.
pub fn runner_history(db: &Db, dir: &str, limit: usize) -> (r: Vec<HistPoint>)
    ensures
        r@ == history(db.runner_samples@, dir@, limit as nat),
{
    let rows = &db.runner_samples;
    let hit = |i: usize| -> (b: bool)
        requires
            i < rows@.len(),
        ensures
            b == (rows@[i as int].dir@ == dir@),
    {
        same(rows[i].dir.as_str(), dir)
    };
    let mine = select_rows(rows.len(), hit, Ghost(of_dir(rows@, dir@)));
    let before = |i: usize, j: usize| -> (b: bool)
        requires
            i < rows@.len(),
            j < rows@.len(),
        ensures
            b == (rows@[i as int].ts <= rows@[j as int].ts),
    {
        rows[i].ts <= rows[j].ts
    };
    let sorted = order_rows(&mine, rows.len(), before, Ghost(samples_by_ts(rows@)));
    let start: usize = tail_of(&sorted, limit);
    let ghost kept = at(sorted@).skip(start as int);
    let mut out: Vec<HistPoint> = Vec::new();
    let mut k: usize = start;
    while k < sorted.len()
        invariant
            start <= k <= sorted@.len(),
            kept == at(sorted@).skip(start as int),
            forall|m: int| 0 <= m < sorted@.len() ==> #[trigger] sorted@[m] < rows@.len(),
            out@ == kept.take(k - start).map_values(|i: int| hist_point(rows@[i])),
        decreases sorted@.len() - k,
    {
        let r = &rows[sorted[k]];
        let ghost was = out@;
        out.push(HistPoint { ts: r.ts, cpu_pct: copy_measure(&r.cpu_pct), mem_bytes: r.mem_bytes });
        assert(kept[k - start] == sorted@[k as int] as int);
        assert(out@ =~= kept.take(k + 1 - start).map_values(|i: int| hist_point(rows@[i])));
        k = k + 1;
    }
    assert(kept.take(k - start) =~= kept);
    out
}

/// Host samples by time.
pub open spec fn hosts_by_ts(rows: Seq<HostSample>) -> spec_fn(int, int) -> bool {
    |i: int, j: int| rows[i].ts <= rows[j].ts
}

/// The series point of a host sample.
pub open spec fn host_point(r: HostSample) -> HostPoint {
    HostPoint {
        ts: r.ts,
        load1: r.load1,
        mem_used: r.mem_used,
        mem_total: r.mem_total,
        tmp_bytes: r.tmp_bytes,
        work_bytes: r.work_bytes,
        root_free: r.root_free,
    }
}

/// The last `limit` host samples, oldest first.
pub open spec fn host_history(rows: Seq<HostSample>, limit: nat) -> Seq<HostPoint> {
    last_of(order(hosts_by_ts(rows), select(any_row(), rows.len() as int)), limit).map_values(
        |i: int| host_point(rows[i]),
    )
}

/// Recent host samples, oldest first.
pub fn host_series(db: &Db, limit: usize) -> (r: Vec<HostPoint>)
    ensures
        r@ == host_history(db.host_samples@, limit as nat),
{
    let rows = &db.host_samples;
    let hit = |i: usize| -> (b: bool)
        ensures
            b,
    {
        true
    };
    let all = select_rows(rows.len(), hit, Ghost(any_row()));
    let before = |i: usize, j: usize| -> (b: bool)
        requires
            i < rows@.len(),
            j < rows@.len(),
        ensures
            b == (rows@[i as int].ts <= rows@[j as int].ts),
    {
        rows[i].ts <= rows[j].ts
    };
    let sorted = order_rows(&all, rows.len(), before, Ghost(hosts_by_ts(rows@)));
    let start: usize = tail_of(&sorted, limit);
    let ghost kept = at(sorted@).skip(start as int);
    let mut out: Vec<HostPoint> = Vec::new();
    let mut k: usize = start;
    while k < sorted.len()
        invariant
            start <= k <= sorted@.len(),
            kept == at(sorted@).skip(start as int),
            forall|m: int| 0 <= m < sorted@.len() ==> #[trigger] sorted@[m] < rows@.len(),
            out@ == kept.take(k - start).map_values(|i: int| host_point(rows@[i])),
        decreases sorted@.len() - k,
    {
        let r = &rows[sorted[k]];
        out.push(
            HostPoint {
                ts: r.ts,
                load1: r.load1.clone(),
                mem_used: r.mem_used,
                mem_total: r.mem_total,
                tmp_bytes: r.tmp_bytes,
                work_bytes: r.work_bytes,
                root_free: r.root_free,
            },
        );
        assert(kept[k - start] == sorted@[k as int] as int);
        assert(out@ =~= kept.take(k + 1 - start).map_values(|i: int| host_point(rows@[i])));
        k = k + 1;
    }
    assert(kept.take(k - start) =~= kept);
    out
}

/// The newest host sample.
pub open spec fn newest_host(rows: Seq<HostSample>) -> Option<HostPoint> {
    let h = host_history(rows, 1);
    if h.len() > 0 {
        Some(h.last())
    } else {
        None
    }
}

/// The most recent host sample.
pub fn latest_host(db: &Db) -> (r: Option<HostPoint>)
    ensures
        r == newest_host(db.host_samples@),
{
    let mut series = host_series(db, 1);
    series.pop()
}

// ---------------------------------------------------------------------------
// The newest tick and the oldest
// ---------------------------------------------------------------------------

/// The greatest time among the first `n` samples.
pub open spec fn max_ts(rows: Seq<RunnerSample>, n: int) -> Option<i64>
    decreases n,
{
    if n <= 0 {
        None
    } else {
        match max_ts(rows, n - 1) {
            Some(t) => if t >= rows[n - 1].ts {
                Some(t)
            } else {
                Some(rows[n - 1].ts)
            },
            None => Some(rows[n - 1].ts),
        }
    }
}

/// The least time among the first `n` samples that satisfy `p`.
pub open spec fn min_ts_where(rows: Seq<RunnerSample>, p: spec_fn(int) -> bool, n: int) -> Option<i64>
    decreases n,
{
    if n <= 0 {
        None
    } else {
        let rest = min_ts_where(rows, p, n - 1);
        if p(n - 1) {
            match rest {
                Some(t) => if t <= rows[n - 1].ts {
                    Some(t)
                } else {
                    Some(rows[n - 1].ts)
                },
                None => Some(rows[n - 1].ts),
            }
        } else {
            rest
        }
    }
}

/// Which samples belong to the newest tick.
pub open spec fn of_newest_tick(rows: Seq<RunnerSample>) -> spec_fn(int) -> bool {
    |i: int| Some(rows[i].ts) == max_ts(rows, rows.len() as int)
}

/// The samples of the newest tick, in the order in which they were written.
pub open spec fn newest_tick(rows: Seq<RunnerSample>) -> Seq<RunnerSample> {
    select(of_newest_tick(rows), rows.len() as int).map_values(|i: int| rows[i])
}

/// The samples of the newest tick share its time, and no sample is newer.
pub proof fn newest_tick_is_newest(rows: Seq<RunnerSample>, k: int, j: int)
    requires
        0 <= k < newest_tick(rows).len(),
        0 <= j < rows.len(),
    ensures
        newest_tick(rows)[k].ts >= rows[j].ts,
{
    select_is_exact(of_newest_tick(rows), rows.len() as int);
    max_ts_is_greatest(rows, rows.len() as int);
    let i = select(of_newest_tick(rows), rows.len() as int)[k];
    assert(of_newest_tick(rows)(i));
}

/// The newest tick is empty only where nothing was sampled, and its samples carry
/// the greatest time.
pub proof fn newest_tick_has_its_time(rows: Seq<RunnerSample>)
    ensures
        newest_tick(rows).len() == 0 <==> max_ts(rows, rows.len() as int) is None,
        forall|k: int|
            0 <= k < newest_tick(rows).len() ==> Some((#[trigger] newest_tick(rows)[k]).ts) == max_ts(
                rows,
                rows.len() as int,
            ),
{
    let n = rows.len() as int;
    let p = of_newest_tick(rows);
    select_is_exact(p, n);
    max_ts_is_greatest(rows, n);
    assert forall|k: int| 0 <= k < newest_tick(rows).len() implies Some(
        (#[trigger] newest_tick(rows)[k]).ts,
    ) == max_ts(rows, n) by {
        assert(p(select(p, n)[k]));
    }
    if n > 0 {
        let j = choose|j: int| 0 <= j < n && max_ts(rows, n)->0 == #[trigger] rows[j].ts;
        assert(p(j));
        assert(select(p, n).contains(j));
    }
}

pub(crate) proof fn max_ts_is_greatest(rows: Seq<RunnerSample>, n: int)
    requires
        0 <= n <= rows.len(),
    ensures
        n > 0 ==> max_ts(rows, n) is Some,
        forall|j: int| 0 <= j < n ==> max_ts(rows, n)->0 >= #[trigger] rows[j].ts,
        n > 0 ==> exists|j: int| 0 <= j < n && max_ts(rows, n)->0 == #[trigger] rows[j].ts,
    decreases n,
{
    if n > 0 {
        max_ts_is_greatest(rows, n - 1);
        if n > 1 && max_ts(rows, n - 1)->0 >= rows[n - 1].ts {
            let j = choose|j: int| 0 <= j < n - 1 && max_ts(rows, n - 1)->0 == #[trigger] rows[j].ts;
            assert(max_ts(rows, n)->0 == rows[j].ts);
        } else {
            assert(max_ts(rows, n)->0 == rows[n - 1].ts);
        }
    }
}

fn greatest_ts(rows: &Vec<RunnerSample>) -> (r: Option<i64>)
    ensures
        r == max_ts(rows@, rows@.len() as int),
{
    let mut best: Option<i64> = None;
    let mut i: usize = 0;
    while i < rows.len()
        invariant
            i <= rows@.len(),
            best == max_ts(rows@, i as int),
        decreases rows@.len() - i,
    {
        best = match best {
            Some(t) => if t >= rows[i].ts {
                Some(t)
            } else {
                Some(rows[i].ts)
            },
            None => Some(rows[i].ts),
        };
        i = i + 1;
    }
    best
}

/// The runners as they were at the newest tick.
pub fn latest_runners(db: &Db) -> (r: Vec<RunnerSample>)
    ensures
        r@ == newest_tick(db.runner_samples@),
{
    let rows = &db.runner_samples;
    let newest = greatest_ts(rows);
    let hit = |i: usize| -> (b: bool)
        requires
            i < rows@.len(),
        ensures
            b == (Some(rows@[i as int].ts) == newest),
    {
        match newest {
            Some(t) => rows[i].ts == t,
            None => false,
        }
    };
    let tick = select_rows(rows.len(), hit, Ghost(of_newest_tick(rows@)));
    copy_rows(rows, &tick)
}

fn copy_rows(rows: &Vec<RunnerSample>, idx: &Vec<usize>) -> (r: Vec<RunnerSample>)
    requires
        forall|k: int| 0 <= k < idx@.len() ==> #[trigger] idx@[k] < rows@.len(),
    ensures
        r@ == at(idx@).map_values(|i: int| rows@[i]),
{
    let mut out: Vec<RunnerSample> = Vec::new();
    let mut k: usize = 0;
    while k < idx.len()
        invariant
            k <= idx@.len(),
            forall|m: int| 0 <= m < idx@.len() ==> #[trigger] idx@[m] < rows@.len(),
            out@ == at(idx@).take(k as int).map_values(|i: int| rows@[i]),
        decreases idx@.len() - k,
    {
        out.push(rows[idx[k]].clone());
        assert(out@ =~= at(idx@).take(k + 1).map_values(|i: int| rows@[i]));
        k = k + 1;
    }
    assert(at(idx@).take(k as int) =~= at(idx@));
    out
}

/// The oldest sample still held: how far back the store can answer.
pub fn retention(db: &Db) -> (r: Option<i64>)
    ensures
        r == min_ts_where(db.runner_samples@, any_row(), db.runner_samples@.len() as int),
{
    let rows = &db.runner_samples;
    let hit = |i: usize| -> (b: bool)
        ensures
            b,
    {
        true
    };
    least_ts(rows, hit, Ghost(any_row()))
}

/// The least time among the samples that satisfy `p`.
pub(crate) fn least_ts<F: Fn(usize) -> bool>(
    rows: &Vec<RunnerSample>,
    p: F,
    Ghost(sp): Ghost<spec_fn(int) -> bool>,
) -> (r: Option<i64>)
    requires
        forall|i: usize| i < rows@.len() ==> #[trigger] call_requires(p, (i,)),
        forall|i: usize, b: bool|
            i < rows@.len() && #[trigger] call_ensures(p, (i,), b) ==> b == sp(i as int),
    ensures
        r == min_ts_where(rows@, sp, rows@.len() as int),
{
    let mut best: Option<i64> = None;
    let mut i: usize = 0;
    while i < rows.len()
        invariant
            i <= rows@.len(),
            forall|j: usize| j < rows@.len() ==> #[trigger] call_requires(p, (j,)),
            forall|j: usize, b: bool|
                j < rows@.len() && #[trigger] call_ensures(p, (j,), b) ==> b == sp(j as int),
            best == min_ts_where(rows@, sp, i as int),
        decreases rows@.len() - i,
    {
        if p(i) {
            best = match best {
                Some(t) => if t <= rows[i].ts {
                    Some(t)
                } else {
                    Some(rows[i].ts)
                },
                None => Some(rows[i].ts),
            };
        }
        i = i + 1;
    }
    best
}

/// The retention floor: no sample is older, and one has exactly that time. An
/// empty store has none.
pub proof fn retention_is_the_floor(rows: Seq<RunnerSample>, p: spec_fn(int) -> bool, n: int)
    requires
        0 <= n <= rows.len(),
    ensures
        min_ts_where(rows, p, n) is None <==> forall|j: int| 0 <= j < n ==> !#[trigger] p(j),
        forall|j: int| 0 <= j < n && #[trigger] p(j) ==> min_ts_where(rows, p, n)->0 <= rows[j].ts,
        min_ts_where(rows, p, n) is Some ==> exists|j: int|
            0 <= j < n && #[trigger] p(j) && rows[j].ts == min_ts_where(rows, p, n)->0,
    decreases n,
{
    if n > 0 {
        retention_is_the_floor(rows, p, n - 1);
        if min_ts_where(rows, p, n) is Some {
            let t = min_ts_where(rows, p, n)->0;
            if p(n - 1) && rows[n - 1].ts == t {
            } else {
                let j = choose|j: int|
                    0 <= j < n - 1 && #[trigger] p(j) && rows[j].ts == min_ts_where(rows, p, n - 1)->0;
                assert(p(j) && rows[j].ts == t);
            }
        }
    }
}

/// Every persisted liveness edge.
pub fn runner_states(db: &Db) -> (r: Vec<RunnerState>)
    ensures
        r@ == db.runner_states@,
{
    let rows = &db.runner_states;
    let mut out: Vec<RunnerState> = Vec::new();
    let mut k: usize = 0;
    while k < rows.len()
        invariant
            k <= rows@.len(),
            out@ == rows@.take(k as int),
        decreases rows@.len() - k,
    {
        out.push(rows[k].clone());
        assert(out@ =~= rows@.take(k + 1));
        k = k + 1;
    }
    assert(rows@.take(k as int) =~= rows@);
    out
}

} // verus!
