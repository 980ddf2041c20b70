//! What readers make of GitHub's readings: the newest view of each runner, the
//! edges, each org's health, and which reading held at a tick.

use vstd::prelude::*;

use crate::ipc::ApiRow;
use crate::models::{ApiReconcileState, ApiRunnerState, ApiState, GhView};
use crate::store::rows::{at, order, order_rows, select, select_rows};
use crate::store::reader::any_row;
use crate::store::tables::{ApiSample, Db};
use crate::text::{text_at_or_before, text_le};

verus! {

/// A difference of times, clipped to what a time holds.
pub open spec fn clip64(n: int) -> i64 {
    if n > i64::MAX {
        i64::MAX
    } else if n < i64::MIN {
        i64::MIN
    } else {
        n as i64
    }
}

/// The seconds from `then` to `now`.
pub fn elapsed(now: i64, then: i64) -> (r: i64)
    ensures
        r == clip64(now - then),
{
    let d: i128 = now as i128 - then as i128;
    if d > i64::MAX as i128 {
        i64::MAX
    } else if d < i64::MIN as i128 {
        i64::MIN
    } else {
        d as i64
    }
}

/// The seconds from `then` to `now`, never negative.
pub open spec fn age_between(now: i64, then: i64) -> i64 {
    if clip64(now - then) < 0 {
        0
    } else {
        clip64(now - then)
    }
}

/// The seconds from `then` to `now`, never negative.
pub fn age(now: i64, then: i64) -> (r: i64)
    ensures
        r == age_between(now, then),
{
    let d: i64 = elapsed(now, then);
    if d < 0 {
        0
    } else {
        d
    }
}

/// A reading of the runner with this key.
pub open spec fn is_of(s: ApiSample, org: Seq<char>, id: i64) -> bool {
    s.org@ == org && s.agent_id == id
}

/// The position of the newest of the first `n` readings of a runner, the last
/// written of those with the greatest time; -1 where there is none.
pub open spec fn newest_at(api: Seq<ApiSample>, org: Seq<char>, id: i64, n: int) -> int
    decreases n,
{
    if n <= 0 {
        -1
    } else {
        let b = newest_at(api, org, id, n - 1);
        if is_of(api[n - 1], org, id) && (b < 0 || api[n - 1].ts >= api[b].ts) {
            n - 1
        } else {
            b
        }
    }
}

/// `newest_at` is a reading of the runner, and no reading of it is newer.
pub proof fn newest_at_is_newest(api: Seq<ApiSample>, org: Seq<char>, id: i64, n: int)
    requires
        0 <= n <= api.len(),
    ensures
        -1 <= newest_at(api, org, id, n) < n || n == 0,
        newest_at(api, org, id, n) >= 0 ==> is_of(api[newest_at(api, org, id, n)], org, id),
        forall|j: int|
            0 <= j < n && is_of(#[trigger] api[j], org, id) ==> newest_at(api, org, id, n) >= 0
                && api[j].ts <= api[newest_at(api, org, id, n)].ts,
    decreases n,
{
    if n > 0 {
        newest_at_is_newest(api, org, id, n - 1);
    }
}

/// GitHub's view of a runner now: its newest reading, adjudged by its age.
pub open spec fn gh_view(api: Seq<ApiSample>, org: Seq<char>, id: i64, now: i64, max_age: u64) -> GhView {
    let k = newest_at(api, org, id, api.len() as int);
    if k < 0 {
        GhView::Unknown
    } else {
        GhView::adjudged(
            ApiState { online: api[k].online, busy: api[k].busy },
            clip64(now - api[k].ts),
            max_age,
        )
    }
}

/// One row per runner.
pub open spec fn distinct_views(rows: Seq<ApiRow>) -> bool {
    forall|i: int, j: int|
        0 <= i < j < rows.len() ==> #[trigger] rows[i].org@ != #[trigger] rows[j].org@
            || rows[i].agent_id != rows[j].agent_id
}

/// Some row is of the runner with this key.
pub open spec fn has_row(rows: Seq<ApiRow>, org: Seq<char>, id: i64) -> bool {
    exists|k: int| 0 <= k < rows.len() && #[trigger] rows[k].org@ == org && rows[k].agent_id == id
}

/// GitHub's view of every runner that it was ever seen to have, each once.
pub open spec fn lists_views(r: Seq<ApiRow>, samples: Seq<ApiSample>, now: i64, max_age: u64) -> bool {
    &&& distinct_views(r)
    &&& forall|k: int|
        0 <= k < r.len() ==> #[trigger] r[k].view == gh_view(
            samples,
            r[k].org@,
            r[k].agent_id,
            now,
            max_age,
        )
    &&& forall|org: Seq<char>, id: i64| #[trigger]
        has_row(r, org, id) <==> newest_at(samples, org, id, samples.len() as int) >= 0
}

spec fn same_runner(a: ApiSample, b: ApiSample) -> bool {
    a.org@ == b.org@ && a.agent_id == b.agent_id
}

spec fn represented(api: Seq<ApiSample>, best: Seq<usize>, s: ApiSample) -> bool {
    exists|k: int| 0 <= k < best.len() && same_runner(s, api[#[trigger] best[k] as int])
}

/// The newest reading of each runner, by position.
fn newest_positions(api: &Vec<ApiSample>) -> (best: Vec<usize>)
    ensures
        forall|k: int| 0 <= k < best@.len() ==> #[trigger] best@[k] < api@.len(),
        forall|k: int|
            0 <= k < best@.len() ==> #[trigger] best@[k] == newest_at(
                api@,
                api@[best@[k] as int].org@,
                api@[best@[k] as int].agent_id,
                api@.len() as int,
            ),
        forall|a: int, b: int|
            0 <= a < b < best@.len() ==> !same_runner(
                api@[#[trigger] best@[a] as int],
                api@[#[trigger] best@[b] as int],
            ),
        forall|j: int| 0 <= j < api@.len() ==> represented(api@, best@, #[trigger] api@[j]),
{
    let mut best: Vec<usize> = Vec::new();
    let mut i: usize = 0;
    while i < api.len()
        invariant
            i <= api@.len(),
            forall|k: int| 0 <= k < best@.len() ==> #[trigger] best@[k] < i,
            forall|k: int|
                0 <= k < best@.len() ==> #[trigger] best@[k] == newest_at(
                    api@,
                    api@[best@[k] as int].org@,
                    api@[best@[k] as int].agent_id,
                    i as int,
                ),
            forall|a: int, b: int|
                0 <= a < b < best@.len() ==> !same_runner(
                    api@[#[trigger] best@[a] as int],
                    api@[#[trigger] best@[b] as int],
                ),
            forall|j: int| 0 <= j < i ==> represented(api@, best@, #[trigger] api@[j]),
        decreases api@.len() - i,
    {
        let ghost was = best@;
        let k: usize = find_same(api, &best, i);
        if k < best.len() {
            if api[i].ts >= api[best[k]].ts {
                best.set(k, i);
            }
        } else {
            proof {
                // No earlier reading is of this runner.
                newest_at_is_newest(api@, api@[i as int].org@, api@[i as int].agent_id, i as int);
                if newest_at(api@, api@[i as int].org@, api@[i as int].agent_id, i as int) >= 0 {
                    let j = newest_at(api@, api@[i as int].org@, api@[i as int].agent_id, i as int);
                    assert(represented(api@, was, api@[j]));
                    let m = choose|m: int|
                        0 <= m < was.len() && same_runner(api@[j], api@[#[trigger] was[m] as int]);
                    assert(same_runner(api@[was[m] as int], api@[i as int]));
                }
            }
            best.push(i);
        }
        proof {
            assert forall|j: int| 0 <= j < i + 1 implies represented(
                api@,
                best@,
                #[trigger] api@[j],
            ) by {
                if j == i {
                    assert(same_runner(api@[j], api@[best@[k as int] as int]));
                } else {
                    assert(represented(api@, was, api@[j]));
                    let m = choose|m: int|
                        0 <= m < was.len() && same_runner(api@[j], api@[#[trigger] was[m] as int]);
                    assert(same_runner(api@[j], api@[best@[m] as int]));
                }
            }
        }
        i = i + 1;
    }
    best
}

fn find_same(api: &Vec<ApiSample>, best: &Vec<usize>, i: usize) -> (k: usize)
    requires
        i < api@.len(),
        forall|m: int| 0 <= m < best@.len() ==> #[trigger] best@[m] < api@.len(),
    ensures
        k <= best@.len(),
        k < best@.len() ==> same_runner(api@[best@[k as int] as int], api@[i as int]),
        forall|m: int|
            0 <= m < k ==> !same_runner(api@[#[trigger] best@[m] as int], api@[i as int]),
{
    let mut k: usize = 0;
    while k < best.len()
        invariant
            i < api@.len(),
            k <= best@.len(),
            forall|m: int| 0 <= m < best@.len() ==> #[trigger] best@[m] < api@.len(),
            forall|m: int|
                0 <= m < k ==> !same_runner(api@[#[trigger] best@[m] as int], api@[i as int]),
        decreases best@.len() - k,
    {
        let r = &api[best[k]];
        if r.agent_id == api[i].agent_id && r.org == api[i].org {
            return k;
        }
        k = k + 1;
    }
    k
}

/// GitHub's latest view of every runner it ever reported, one row each, with its
/// freshness adjudged at `now`.
pub fn latest_api_runners(db: &Db, now: i64, max_age: u64) -> (r: Vec<ApiRow>)
    ensures
        lists_views(r@, db.api_samples@, now, max_age),
{
    let api = &db.api_samples;
    let best = newest_positions(api);
    let mut out: Vec<ApiRow> = Vec::new();
    let mut k: usize = 0;
    while k < best.len()
        invariant
            k <= best@.len(),
            out@.len() == k,
            api@ == db.api_samples@,
            forall|m: int| 0 <= m < best@.len() ==> #[trigger] best@[m] < api@.len(),
            forall|m: int|
                0 <= m < best@.len() ==> #[trigger] best@[m] == newest_at(
                    api@,
                    api@[best@[m] as int].org@,
                    api@[best@[m] as int].agent_id,
                    api@.len() as int,
                ),
            forall|m: int|
                0 <= m < k ==> {
                    &&& #[trigger] out@[m].org == api@[best@[m] as int].org
                    &&& out@[m].agent_id == api@[best@[m] as int].agent_id
                    &&& out@[m].view == gh_view(api@, out@[m].org@, out@[m].agent_id, now, max_age)
                },
        decreases best@.len() - k,
    {
        let s = &api[best[k]];
        let view = GhView::observed(
            ApiState { online: s.online, busy: s.busy },
            elapsed(now, s.ts),
            max_age,
        );
        out.push(ApiRow { agent_id: s.agent_id, org: s.org.clone(), view });
        k = k + 1;
    }
    proof {
        assert forall|i: int, j: int| 0 <= i < j < out@.len() implies #[trigger] out@[i].org@
            != #[trigger] out@[j].org@ || out@[i].agent_id != out@[j].agent_id by {
            assert(!same_runner(api@[best@[i] as int], api@[best@[j] as int]));
        }
        assert forall|org: Seq<char>, id: i64| #[trigger]
            has_row(out@, org, id) <==> newest_at(api@, org, id, api@.len() as int) >= 0 by {
            newest_at_is_newest(api@, org, id, api@.len() as int);
            if has_row(out@, org, id) {
                let m = choose|m: int|
                    0 <= m < out@.len() && #[trigger] out@[m].org@ == org && out@[m].agent_id == id;
                assert(best@[m] == newest_at(api@, org, id, api@.len() as int));
            }
            if newest_at(api@, org, id, api@.len() as int) >= 0 {
                let j = newest_at(api@, org, id, api@.len() as int);
                assert(represented(api@, best@, api@[j]));
                let m = choose|m: int|
                    0 <= m < best@.len() && same_runner(api@[j], api@[#[trigger] best@[m] as int]);
                assert(is_of(api@[j], org, id));
                assert(0 <= m < out@.len());
                assert(same_runner(api@[j], api@[best@[m] as int]));
                assert(out@[m].org == api@[best@[m] as int].org);
                assert(out@[m].org@ == org && out@[m].agent_id == id);
            }
        }
    }
    out
}

/// Every persisted online edge.
pub fn api_runner_states(db: &Db) -> (r: Vec<ApiRunnerState>)
    ensures
        r@ == db.api_states@,
{
    let rows = &db.api_states;
    let mut out: Vec<ApiRunnerState> = Vec::new();
    let mut k: usize = 0;
    while k < rows.len()
        invariant
            k <= rows@.len(),
            out@ == rows@.take(k as int),
        decreases rows@.len() - k,
    {
        out.push(rows[k].clone());
        assert(out@ =~= rows@.take(k + 1));
        k = k + 1;
    }
    assert(rows@.take(k as int) =~= rows@);
    out
}

/// Health rows by the name of their org.
pub open spec fn healths_by_org(rows: Seq<ApiReconcileState>) -> spec_fn(int, int) -> bool {
    |i: int, j: int| text_le(rows[i].org@, rows[j].org@)
}

/// The health rows, by the name of their org.
pub open spec fn sorted_healths(rows: Seq<ApiReconcileState>) -> Seq<ApiReconcileState> {
    order(healths_by_org(rows), select(any_row(), rows.len() as int)).map_values(|i: int| rows[i])
}

/// Every org's health, by the name of the org.
pub fn api_reconcile_states(db: &Db) -> (r: Vec<ApiReconcileState>)
    ensures
        r@ == sorted_healths(db.reconcile_states@),
{
    let rows = &db.reconcile_states;
    let hit = |i: usize| -> (b: bool)
        ensures
            b,
    {
        true
    };
    let all = select_rows(rows.len(), hit, Ghost(any_row()));
    let before = |i: usize, j: usize| -> (b: bool)
        requires
            i < rows@.len(),
            j < rows@.len(),
        ensures
            b == text_le(rows@[i as int].org@, rows@[j as int].org@),
    {
        text_at_or_before(rows[i].org.as_str(), rows[j].org.as_str())
    };
    let sorted = order_rows(&all, rows.len(), before, Ghost(healths_by_org(rows@)));
    let mut out: Vec<ApiReconcileState> = Vec::new();
    let mut k: usize = 0;
    while k < sorted.len()
        invariant
            k <= sorted@.len(),
            forall|m: int| 0 <= m < sorted@.len() ==> #[trigger] sorted@[m] < rows@.len(),
            out@ == at(sorted@).take(k as int).map_values(|i: int| rows@[i]),
        decreases sorted@.len() - k,
    {
        out.push(rows[sorted[k]].clone());
        assert(out@ =~= at(sorted@).take(k + 1).map_values(|i: int| rows@[i]));
        k = k + 1;
    }
    assert(at(sorted@).take(k as int) =~= at(sorted@));
    out
}

// ---------------------------------------------------------------------------
// Readings as of a tick
// ---------------------------------------------------------------------------

/// The time of the newest of the first `n` readings of a runner between `lo` and
/// `hi`, both included.
pub open spec fn reading_time(
    api: Seq<ApiSample>,
    org: Seq<char>,
    id: i64,
    lo: int,
    hi: int,
    n: int,
) -> Option<i64>
    decreases n,
{
    if n <= 0 {
        None
    } else {
        let rest = reading_time(api, org, id, lo, hi, n - 1);
        if is_of(api[n - 1], org, id) && lo <= api[n - 1].ts <= hi {
            match rest {
                Some(t) => if t >= api[n - 1].ts {
                    Some(t)
                } else {
                    Some(api[n - 1].ts)
                },
                None => Some(api[n - 1].ts),
            }
        } else {
            rest
        }
    }
}

/// The time of a reading that held at a tick lies in the window: never in the
/// tick's future, never before it opens.
pub proof fn reading_time_is_within(
    api: Seq<ApiSample>,
    org: Seq<char>,
    id: i64,
    lo: int,
    hi: int,
    n: int,
)
    requires
        0 <= n <= api.len(),
    ensures
        reading_time(api, org, id, lo, hi, n) matches Some(t) ==> lo <= t <= hi,
        forall|j: int|
            0 <= j < n && is_of(#[trigger] api[j], org, id) && lo <= api[j].ts <= hi
                ==> reading_time(api, org, id, lo, hi, n) is Some && reading_time(
                api,
                org,
                id,
                lo,
                hi,
                n,
            )->0 >= api[j].ts,
    decreases n,
{
    if n > 0 {
        reading_time_is_within(api, org, id, lo, hi, n - 1);
    }
}

/// The time of the newest reading is the time of some reading.
pub proof fn reading_time_is_met(
    api: Seq<ApiSample>,
    org: Seq<char>,
    id: i64,
    lo: int,
    hi: int,
    n: int,
)
    requires
        0 <= n <= api.len(),
    ensures
        reading_time(api, org, id, lo, hi, n) matches Some(t) ==> exists|m: int|
            0 <= m < n && is_of(#[trigger] api[m], org, id) && api[m].ts == t,
    decreases n,
{
    if n > 0 {
        reading_time_is_met(api, org, id, lo, hi, n - 1);
        let rest = reading_time(api, org, id, lo, hi, n - 1);
        let t = reading_time(api, org, id, lo, hi, n);
        if t is Some && t == rest {
            let m = choose|m: int|
                0 <= m < n - 1 && is_of(#[trigger] api[m], org, id) && api[m].ts == rest->0;
            assert(is_of(api[m], org, id));
        } else if t is Some {
            assert(is_of(api[n - 1], org, id) && api[n - 1].ts == t->0);
        }
    }
}

/// Which readings of a runner have a given time.
pub open spec fn of_runner_at(
    api: Seq<ApiSample>,
    org: Seq<char>,
    id: i64,
    t: i64,
) -> spec_fn(int) -> bool {
    |j: int| is_of(api[j], org, id) && api[j].ts == t
}

/// The readings of a runner that held at `hi`: those with the newest time between
/// `lo` and `hi`.
pub open spec fn held(api: Seq<ApiSample>, org: Seq<char>, id: i64, lo: int, hi: int) -> Seq<int> {
    match reading_time(api, org, id, lo, hi, api.len() as int) {
        Some(t) => select(of_runner_at(api, org, id, t), api.len() as int),
        None => seq![],
    }
}

/// The readings of a runner that held at `hi`.
pub(crate) fn readings_held(api: &Vec<ApiSample>, org: &String, id: i64, lo: i128, hi: i64) -> (r: Vec<
    usize,
>)
    ensures
        at(r@) == held(api@, org@, id, lo as int, hi as int),
        forall|k: int| 0 <= k < r@.len() ==> #[trigger] r@[k] < api@.len(),
{
    let mut best: Option<i64> = None;
    let mut i: usize = 0;
    while i < api.len()
        invariant
            i <= api@.len(),
            best == reading_time(api@, org@, id, lo as int, hi as int, i as int),
        decreases api@.len() - i,
    {
        let s = &api[i];
        if s.agent_id == id && s.org == *org && lo <= s.ts as i128 && s.ts <= hi {
            best = match best {
                Some(t) => if t >= s.ts {
                    Some(t)
                } else {
                    Some(s.ts)
                },
                None => Some(s.ts),
            };
        }
        i = i + 1;
    }
    match best {
        Some(t) => {
            let hit = |j: usize| -> (b: bool)
                requires
                    j < api@.len(),
                ensures
                    b == (is_of(api@[j as int], org@, id) && api@[j as int].ts == t),
            {
                api[j].ts == t && api[j].agent_id == id && api[j].org == *org
            };
            select_rows(api.len(), hit, Ghost(of_runner_at(api@, org@, id, t)))
        },
        None => {
            let none: Vec<usize> = Vec::new();
            assert(at(none@) =~= seq![]);
            none
        },
    }
}

} // verus!
