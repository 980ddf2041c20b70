//! Fleet occupancy, tick by tick: what was busy and online here, and what GitHub
//! said of the same runners at the time.

use vstd::prelude::*;

use crate::models::{BusyPoint, GhCount, Liveness, RunnerSample};
use crate::store::reader::github::{held, readings_held};
use crate::store::reader::{add_clipped, clip32};
use crate::store::rows::{at, last_of};
use crate::store::tables::{ApiSample, Db};

verus! {

/// An ascending series of times with `t` in it, once.
pub open spec fn with_tick(s: Seq<i64>, t: i64) -> Seq<i64>
    decreases s.len(),
{
    if s.len() == 0 || s.last() < t {
        s.push(t)
    } else if s.last() == t {
        s
    } else {
        with_tick(s.drop_last(), t).push(s.last())
    }
}

/// The times of the first `n` samples, ascending, each once.
pub open spec fn ticks(rows: Seq<RunnerSample>, n: int) -> Seq<i64>
    decreases n,
{
    if n <= 0 {
        seq![]
    } else {
        with_tick(ticks(rows, n - 1), rows[n - 1].ts)
    }
}

/// Each time is later than the one before it.
pub open spec fn ascending(s: Seq<i64>) -> bool {
    forall|i: int, j: int| 0 <= i < j < s.len() ==> #[trigger] s[i] < #[trigger] s[j]
}

proof fn with_tick_is_exact(s: Seq<i64>, t: i64)
    requires
        ascending(s),
    ensures
        ascending(with_tick(s, t)),
        forall|x: i64| #[trigger] with_tick(s, t).contains(x) <==> s.contains(x) || x == t,
    decreases s.len(),
{
    let r = with_tick(s, t);
    if s.len() == 0 || s.last() < t {
        assert forall|x: i64| #[trigger] r.contains(x) <==> s.contains(x) || x == t by {
            if s.contains(x) {
                let k = choose|k: int| 0 <= k < s.len() && s[k] == x;
                assert(r[k] == x);
            }
            if x == t {
                assert(r[s.len() as int] == t);
            }
        }
    } else if s.last() == t {
        assert(s[s.len() - 1] == t);
    } else {
        let init = s.drop_last();
        assert(ascending(init));
        with_tick_is_exact(init, t);
        let m = with_tick(init, t);
        let z = s.last();
        assert forall|i: int, j: int| 0 <= i < j < r.len() implies #[trigger] r[i] < #[trigger] r[j] by {
            if j == m.len() {
                assert(m.contains(m[i]));
                if init.contains(m[i]) {
                    let k = choose|k: int| 0 <= k < init.len() && init[k] == m[i];
                    assert(s[k] < s[s.len() - 1]);
                }
            }
        }
        assert forall|x: i64| #[trigger] r.contains(x) <==> s.contains(x) || x == t by {
            if r.contains(x) {
                let k = choose|k: int| 0 <= k < r.len() && r[k] == x;
                if k < m.len() {
                    assert(m.contains(x));
                    if init.contains(x) {
                        let q = choose|q: int| 0 <= q < init.len() && init[q] == x;
                        assert(s[q] == x);
                    }
                } else {
                    assert(s[s.len() - 1] == x);
                }
            }
            if s.contains(x) {
                let k = choose|k: int| 0 <= k < s.len() && s[k] == x;
                if k < init.len() {
                    assert(init[k] == x);
                    assert(m.contains(x));
                    let q = choose|q: int| 0 <= q < m.len() && m[q] == x;
                    assert(r[q] == x);
                } else {
                    assert(r[m.len() as int] == x);
                }
            }
            if x == t {
                assert(m.contains(x));
                let q = choose|q: int| 0 <= q < m.len() && m[q] == x;
                assert(r[q] == x);
            }
        }
    }
}

/// The ticks are exactly the times that were sampled, each once, ascending.
pub proof fn ticks_are_the_sampled_times(rows: Seq<RunnerSample>, n: int)
    requires
        0 <= n <= rows.len(),
    ensures
        ascending(ticks(rows, n)),
        forall|x: i64| #[trigger]
            ticks(rows, n).contains(x) <==> exists|k: int| 0 <= k < n && #[trigger] rows[k].ts == x,
    decreases n,
{
    if n > 0 {
        ticks_are_the_sampled_times(rows, n - 1);
        with_tick_is_exact(ticks(rows, n - 1), rows[n - 1].ts);
        assert forall|x: i64| #[trigger] ticks(rows, n).contains(x) <==> exists|k: int|
            0 <= k < n && #[trigger] rows[k].ts == x by {
            if ticks(rows, n - 1).contains(x) {
                let k = choose|k: int| 0 <= k < n - 1 && #[trigger] rows[k].ts == x;
                assert(rows[k].ts == x);
            }
            if exists|k: int| 0 <= k < n && #[trigger] rows[k].ts == x {
                let k = choose|k: int| 0 <= k < n && #[trigger] rows[k].ts == x;
                if k < n - 1 {
                    assert(ticks(rows, n - 1).contains(x));
                }
            }
            if x == rows[n - 1].ts {
                assert(rows[n - 1].ts == x);
            }
        }
    }
}

/// The readings that a sample is joined with: the newest ones at or before it, no
/// older than `max_age`.
pub open spec fn joined(api: Seq<ApiSample>, r: RunnerSample, max_age: u64) -> Seq<int> {
    held(api, r.org@, r.agent_id, r.ts - max_age, r.ts as int)
}

/// How many rows a sample makes when joined: one, or one per reading.
pub open spec fn weight(api: Seq<ApiSample>, r: RunnerSample, max_age: u64) -> int {
    if joined(api, r, max_age).len() == 0 {
        1
    } else {
        joined(api, r, max_age).len() as int
    }
}

/// How many of the positions `idx` are online.
pub open spec fn online_among(api: Seq<ApiSample>, idx: Seq<int>) -> int
    decreases idx.len(),
{
    if idx.len() == 0 {
        0
    } else {
        online_among(api, idx.drop_last()) + if api[idx.last()].online {
            1int
        } else {
            0
        }
    }
}

/// What is counted at a tick.
pub struct Tally {
    pub busy: int,
    pub online: int,
    pub gh_online: int,
    pub gh_known: int,
}

/// The counts at tick `t` over the first `n` samples.
pub open spec fn tally(
    rows: Seq<RunnerSample>,
    api: Seq<ApiSample>,
    t: i64,
    max_age: u64,
    n: int,
) -> Tally
    decreases n,
{
    if n <= 0 {
        Tally { busy: 0, online: 0, gh_online: 0, gh_known: 0 }
    } else {
        let c = tally(rows, api, t, max_age, n - 1);
        let r = rows[n - 1];
        if r.ts != t {
            c
        } else {
            Tally {
                busy: c.busy + if r.liveness == Liveness::Busy {
                    weight(api, r, max_age)
                } else {
                    0
                },
                online: c.online + if r.liveness != Liveness::Offline {
                    weight(api, r, max_age)
                } else {
                    0
                },
                gh_online: c.gh_online + online_among(api, joined(api, r, max_age)),
                gh_known: c.gh_known + joined(api, r, max_age).len(),
            }
        }
    }
}

/// The occupancy point of a tick.
pub open spec fn busy_point(rows: Seq<RunnerSample>, api: Seq<ApiSample>, t: i64, max_age: u64) -> BusyPoint {
    let c = tally(rows, api, t, max_age, rows.len() as int);
    BusyPoint {
        ts: t,
        busy: clip32(c.busy),
        online: clip32(c.online),
        github: GhCount::counted(clip32(c.gh_online), clip32(c.gh_known)),
    }
}

/// The occupancy of the last `limit` ticks, oldest first.
pub open spec fn occupancy(
    rows: Seq<RunnerSample>,
    api: Seq<ApiSample>,
    limit: nat,
    max_age: u64,
) -> Seq<BusyPoint> {
    last_of(ticks(rows, rows.len() as int), limit).map_values(
        |t: i64| busy_point(rows, api, t, max_age),
    )
}

proof fn online_among_bound(api: Seq<ApiSample>, idx: Seq<int>)
    ensures
        0 <= online_among(api, idx) <= idx.len(),
    decreases idx.len(),
{
    if idx.len() > 0 {
        online_among_bound(api, idx.drop_last());
    }
}

proof fn tally_bound(rows: Seq<RunnerSample>, api: Seq<ApiSample>, t: i64, max_age: u64, n: int)
    ensures
        0 <= tally(rows, api, t, max_age, n).busy <= tally(rows, api, t, max_age, n).online,
        0 <= tally(rows, api, t, max_age, n).gh_online <= tally(rows, api, t, max_age, n).gh_known,
    decreases n,
{
    if n > 0 {
        tally_bound(rows, api, t, max_age, n - 1);
        online_among_bound(api, joined(api, rows[n - 1], max_age));
    }
}

/// At every tick no more runners are busy than online, and GitHub calls online no
/// more than it has readings of. Where it has none, there is a gap, not a zero.
pub proof fn occupancy_is_consistent(
    rows: Seq<RunnerSample>,
    api: Seq<ApiSample>,
    t: i64,
    max_age: u64,
)
    ensures
        busy_point(rows, api, t, max_age).busy <= busy_point(rows, api, t, max_age).online,
        busy_point(rows, api, t, max_age).github matches Some(c) ==> c.online <= c.known && c.known
            > 0,
        busy_point(rows, api, t, max_age).github is None <==> tally(
            rows,
            api,
            t,
            max_age,
            rows.len() as int,
        ).gh_known == 0,
{
    tally_bound(rows, api, t, max_age, rows.len() as int);
}

fn count_online(api: &Vec<ApiSample>, idx: &Vec<usize>) -> (r: usize)
    requires
        forall|k: int| 0 <= k < idx@.len() ==> #[trigger] idx@[k] < api@.len(),
    ensures
        r == online_among(api@, at(idx@)),
{
    let mut n: usize = 0;
    let mut k: usize = 0;
    assert(at(idx@).take(0) =~= seq![]);
    while k < idx.len()
        invariant
            k <= idx@.len(),
            n <= k,
            forall|m: int| 0 <= m < idx@.len() ==> #[trigger] idx@[m] < api@.len(),
            n == online_among(api@, at(idx@).take(k as int)),
        decreases idx@.len() - k,
    {
        proof {
            assert(at(idx@).take(k + 1).drop_last() =~= at(idx@).take(k as int));
            assert(at(idx@).take(k + 1).last() == idx@[k as int] as int);
        }
        if api[idx[k]].online {
            n = n + 1;
        }
        k = k + 1;
    }
    assert(at(idx@).take(k as int) =~= at(idx@));
    n
}

fn point_at(db: &Db, t: i64, max_age: u64) -> (r: BusyPoint)
    ensures
        r == busy_point(db.runner_samples@, db.api_samples@, t, max_age),
{
    let rows = &db.runner_samples;
    let api = &db.api_samples;
    let mut busy: u32 = 0;
    let mut online: u32 = 0;
    let mut gh_online: u32 = 0;
    let mut gh_known: u32 = 0;
    let mut i: usize = 0;
    while i < rows.len()
        invariant
            i <= rows@.len(),
            busy == clip32(tally(rows@, api@, t, max_age, i as int).busy),
            online == clip32(tally(rows@, api@, t, max_age, i as int).online),
            gh_online == clip32(tally(rows@, api@, t, max_age, i as int).gh_online),
            gh_known == clip32(tally(rows@, api@, t, max_age, i as int).gh_known),
        decreases rows@.len() - i,
    {
        let r = &rows[i];
        let ghost c = tally(rows@, api@, t, max_age, i as int);
        proof {
            tally_bound(rows@, api@, t, max_age, i as int);
        }
        if r.ts == t {
            let lo: i128 = r.ts as i128 - max_age as i128;
            let hits = readings_held(api, &r.org, r.agent_id, lo, r.ts);
            assert(at(hits@).len() == hits@.len());
            let w: usize = if hits.len() == 0 {
                1
            } else {
                hits.len()
            };
            if r.liveness == Liveness::Busy {
                busy = add_clipped(busy, w, Ghost(c.busy));
            }
            if r.liveness != Liveness::Offline {
                online = add_clipped(online, w, Ghost(c.online));
            }
            gh_online = add_clipped(gh_online, count_online(api, &hits), Ghost(c.gh_online));
            gh_known = add_clipped(gh_known, hits.len(), Ghost(c.gh_known));
        }
        i = i + 1;
    }
    BusyPoint { ts: t, busy, online, github: GhCount::new(gh_online, gh_known) }
}

proof fn with_tick_is_insert(s: Seq<i64>, t: i64, p: int)
    requires
        0 <= p <= s.len(),
        p > 0 ==> s[p - 1] < t,
        forall|k: int| p <= k < s.len() ==> #[trigger] s[k] > t,
    ensures
        with_tick(s, t) == s.insert(p, t),
    decreases s.len(),
{
    if p == s.len() {
        assert(s.insert(p, t) =~= s.push(t));
    } else {
        assert(s[s.len() - 1] > t);
        with_tick_is_insert(s.drop_last(), t, p);
        assert(s.insert(p, t) =~= s.drop_last().insert(p, t).push(s.last()));
    }
}

proof fn with_tick_is_same(s: Seq<i64>, t: i64, p: int)
    requires
        0 < p <= s.len(),
        s[p - 1] == t,
        forall|k: int| p <= k < s.len() ==> #[trigger] s[k] > t,
    ensures
        with_tick(s, t) == s,
    decreases s.len(),
{
    if p < s.len() {
        assert(s[s.len() - 1] > t);
        with_tick_is_same(s.drop_last(), t, p);
        assert(s =~= s.drop_last().push(s.last()));
    }
}

fn add_tick(s: &mut Vec<i64>, t: i64)
    ensures
        final(s)@ == with_tick(old(s)@, t),
{
    let mut p: usize = s.len();
    while p > 0 && s[p - 1] > t
        invariant
            p <= s@.len(),
            s@ == old(s)@,
            forall|k: int| p <= k < s@.len() ==> #[trigger] s@[k] > t,
        decreases p,
    {
        p = p - 1;
    }
    if p > 0 && s[p - 1] == t {
        proof {
            with_tick_is_same(s@, t, p as int);
        }
    } else {
        proof {
            with_tick_is_insert(s@, t, p as int);
        }
        s.insert(p, t);
    }
}

/// Fleet occupancy per tick, oldest first: the last `limit` ticks.
pub fn busy_series(db: &Db, limit: usize, max_age: u64) -> (r: Vec<BusyPoint>)
    ensures
        r@ == occupancy(db.runner_samples@, db.api_samples@, limit as nat, max_age),
{
    let rows = &db.runner_samples;
    let mut times: Vec<i64> = Vec::new();
    let mut i: usize = 0;
    while i < rows.len()
        invariant
            i <= rows@.len(),
            times@ == ticks(rows@, i as int),
        decreases rows@.len() - i,
    {
        add_tick(&mut times, rows[i].ts);
        i = i + 1;
    }
    let start: usize = if times.len() <= limit {
        0
    } else {
        times.len() - limit
    };
    let ghost kept = last_of(times@, limit as nat);
    assert(kept =~= times@.skip(start as int));
    let mut out: Vec<BusyPoint> = Vec::new();
    let mut k: usize = start;
    while k < times.len()
        invariant
            start <= k <= times@.len(),
            kept == times@.skip(start as int),
            out@ == kept.take(k - start).map_values(
                |t: i64| busy_point(db.runner_samples@, db.api_samples@, t, max_age),
            ),
        decreases times@.len() - k,
    {
        out.push(point_at(db, times[k], max_age));
        assert(kept[k - start] == times@[k as int]);
        assert(out@ =~= kept.take(k + 1 - start).map_values(
            |t: i64| busy_point(db.runner_samples@, db.api_samples@, t, max_age),
        ));
        k = k + 1;
    }
    assert(kept.take(k - start) =~= kept);
    out
}

} // verus!
