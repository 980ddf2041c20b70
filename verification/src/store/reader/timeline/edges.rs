//! The edge streams: what changed between consecutive samples of a window.
//!
//! An edge exists only where both a row and its predecessor fall inside the
//! window: the first sample of a series is a baseline, not an edge.

use vstd::prelude::*;

use crate::models::timeline::{Edge, JobEdge, JobTransition, ReconcileEdge, TimelineQuery, Transition};
use crate::models::{copy_text, RunnerSample};
use crate::store::reader::any_row;
use crate::store::rows::{
    at, first_of, order, order_is_sorted, order_rows, select, select_is_exact, select_rows,
};
use crate::store::tables::{ApiSample, Db, JobEvent, ReconcileSample};
use crate::util::{rfc3339, to_rfc3339_utc};

verus! {

// ---------------------------------------------------------------------------
// Rows as values
// ---------------------------------------------------------------------------

/// A transition, its instant as text.
pub struct Change {
    pub ts: i64,
    pub at: Seq<char>,
    pub org: String,
    pub edge: Edge,
}

impl View for Transition {
    type V = Change;

    open spec fn view(&self) -> Change {
        Change { ts: self.ts, at: self.at@, org: self.org, edge: self.edge }
    }
}

/// Transitions as values.
pub open spec fn change_rows(v: Seq<Transition>) -> Seq<Change> {
    v.map_values(|t: Transition| t@)
}

/// A job transition, its instant as text.
pub struct JobChange {
    pub ts: i64,
    pub at: Seq<char>,
    pub org: String,
    pub runner: String,
    pub repo: String,
    pub job: String,
    pub edge: JobEdge,
}

impl View for JobTransition {
    type V = JobChange;

    open spec fn view(&self) -> JobChange {
        JobChange {
            ts: self.ts,
            at: self.at@,
            org: self.org,
            runner: self.runner,
            repo: self.repo,
            job: self.job,
            edge: self.edge,
        }
    }
}

/// Job transitions as values.
pub open spec fn job_changes(v: Seq<JobTransition>) -> Seq<JobChange> {
    v.map_values(|t: JobTransition| t@)
}

// ---------------------------------------------------------------------------
// Filters
// ---------------------------------------------------------------------------

/// A filter that is not set admits everything.
pub open spec fn admits(filter: Option<String>, text: Seq<char>) -> bool {
    match filter {
        Some(f) => f@ == text,
        None => true,
    }
}

/// Whether a filter admits a text.
pub(crate) fn passes(filter: &Option<String>, text: &String) -> (r: bool)
    ensures
        r == admits(*filter, text@),
{
    match filter {
        Some(f) => *f == *text,
        None => true,
    }
}

/// Which runner samples fall in the window and pass the filters.
pub open spec fn local_window(rows: Seq<RunnerSample>, q: TimelineQuery) -> spec_fn(int) -> bool {
    |i: int|
        rows[i].ts >= q.since_ts && admits(q.org, rows[i].org@) && admits(q.runner, rows[i].name@)
}

/// Which readings fall in the window and pass the filters.
pub open spec fn api_window(rows: Seq<ApiSample>, q: TimelineQuery) -> spec_fn(int) -> bool {
    |i: int|
        rows[i].ts >= q.since_ts && admits(q.org, rows[i].org@) && admits(q.runner, rows[i].name@)
}

/// Some runner with this name was sampled in this org.
pub open spec fn runner_in_org(rows: Seq<RunnerSample>, name: Seq<char>, org: Seq<char>) -> bool {
    exists|k: int| 0 <= k < rows.len() && #[trigger] rows[k].name@ == name && rows[k].org@ == org
}

/// Which reconcile outcomes fall in the window and pass the filters. A runner
/// narrows to the orgs it belongs to.
pub open spec fn reconcile_window(
    rows: Seq<ReconcileSample>,
    local: Seq<RunnerSample>,
    q: TimelineQuery,
) -> spec_fn(int) -> bool {
    |i: int|
        rows[i].ts >= q.since_ts && admits(q.org, rows[i].org@) && match q.runner {
            Some(name) => runner_in_org(local, name@, rows[i].org@),
            None => true,
        }
}

fn in_org(rows: &Vec<RunnerSample>, name: &String, org: &String) -> (r: bool)
    ensures
        r == runner_in_org(rows@, name@, org@),
{
    let mut k: usize = 0;
    while k < rows.len()
        invariant
            k <= rows@.len(),
            forall|m: int|
                0 <= m < k ==> !(#[trigger] rows@[m].name@ == name@ && rows@[m].org@ == org@),
        decreases rows@.len() - k,
    {
        if rows[k].name == *name && rows[k].org == *org {
            assert(rows@[k as int].name@ == name@);
            return true;
        }
        k = k + 1;
    }
    false
}

// ---------------------------------------------------------------------------
// Changes between consecutive rows
// ---------------------------------------------------------------------------

/// The last of the first `m` positions of `ord` that is in the same series as
/// `x`; -1 where there is none.
pub open spec fn previous(
    ord: Seq<int>,
    series: spec_fn(int, int) -> bool,
    x: int,
    m: int,
) -> int
    decreases m,
{
    if m <= 0 {
        -1
    } else if series(ord[m - 1], x) {
        ord[m - 1]
    } else {
        previous(ord, series, x, m - 1)
    }
}

/// The changes among the first `m` positions of `ord`, in its order: each pair is
/// a position and its predecessor in the same series, where the two differ.
pub open spec fn changes(
    ord: Seq<int>,
    series: spec_fn(int, int) -> bool,
    differ: spec_fn(int, int) -> bool,
    m: int,
) -> Seq<(int, int)>
    decreases m,
{
    if m <= 0 {
        seq![]
    } else {
        let rest = changes(ord, series, differ, m - 1);
        let x = ord[m - 1];
        let p = previous(ord, series, x, m - 1);
        if p >= 0 && differ(p, x) {
            rest.push((p, x))
        } else {
            rest
        }
    }
}

proof fn previous_is_in(ord: Seq<int>, series: spec_fn(int, int) -> bool, x: int, m: int)
    requires
        0 <= m <= ord.len(),
        forall|k: int| 0 <= k < ord.len() ==> #[trigger] ord[k] >= 0,
    ensures
        previous(ord, series, x, m) >= 0 ==> series(previous(ord, series, x, m), x) && exists|k: int|
            0 <= k < m && #[trigger] ord[k] == previous(ord, series, x, m) && forall|j: int|
                k < j < m ==> !series(#[trigger] ord[j], x),
        previous(ord, series, x, m) < 0 ==> forall|j: int|
            0 <= j < m ==> !series(#[trigger] ord[j], x),
    decreases m,
{
    if m > 0 {
        if series(ord[m - 1], x) {
            assert(ord[m - 1] == previous(ord, series, x, m));
        } else {
            previous_is_in(ord, series, x, m - 1);
            if previous(ord, series, x, m) >= 0 {
                let k = choose|k: int|
                    0 <= k < m - 1 && #[trigger] ord[k] == previous(ord, series, x, m - 1)
                        && forall|j: int| k < j < m - 1 ==> !series(#[trigger] ord[j], x);
                assert(ord[k] == previous(ord, series, x, m));
                assert forall|j: int| k < j < m implies !series(#[trigger] ord[j], x) by {
                    if j == m - 1 {
                        assert(!series(ord[m - 1], x));
                    }
                }
            }
        }
    }
}

/// Every change joins two rows of the window, of one series, that differ: nothing
/// is dated by a row outside the window.
pub proof fn changes_stay_inside(
    ord: Seq<int>,
    series: spec_fn(int, int) -> bool,
    differ: spec_fn(int, int) -> bool,
    m: int,
)
    requires
        0 <= m <= ord.len(),
        forall|k: int| 0 <= k < ord.len() ==> #[trigger] ord[k] >= 0,
    ensures
        forall|c: int|
            0 <= c < changes(ord, series, differ, m).len() ==> {
                let pair = #[trigger] changes(ord, series, differ, m)[c];
                &&& ord.contains(pair.0)
                &&& ord.contains(pair.1)
                &&& series(pair.0, pair.1)
                &&& differ(pair.0, pair.1)
            },
    decreases m,
{
    if m > 0 {
        changes_stay_inside(ord, series, differ, m - 1);
        let x = ord[m - 1];
        previous_is_in(ord, series, x, m - 1);
        let p = previous(ord, series, x, m - 1);
        if p >= 0 && differ(p, x) {
            let k = choose|k: int|
                0 <= k < m - 1 && #[trigger] ord[k] == p && forall|j: int|
                    k < j < m - 1 ==> !series(#[trigger] ord[j], x);
            assert(ord[k] == p);
            assert(ord[m - 1] == x);
        }
        let all = changes(ord, series, differ, m);
        let rest = changes(ord, series, differ, m - 1);
        assert forall|c: int| 0 <= c < all.len() implies {
            let pair = #[trigger] all[c];
            &&& ord.contains(pair.0)
            &&& ord.contains(pair.1)
            &&& series(pair.0, pair.1)
            &&& differ(pair.0, pair.1)
        } by {
            if c < rest.len() {
                assert(all[c] == rest[c]);
            } else {
                assert(all[c] == (p, x));
            }
        }
    }
}

/// The first row of a series has no predecessor, so it never makes a change.
pub proof fn baseline_is_no_edge(
    ord: Seq<int>,
    series: spec_fn(int, int) -> bool,
    differ: spec_fn(int, int) -> bool,
    k: int,
)
    requires
        0 <= k < ord.len(),
        forall|j: int| 0 <= j < k ==> !series(#[trigger] ord[j], ord[k]),
    ensures
        changes(ord, series, differ, k + 1) == changes(ord, series, differ, k),
{
    no_previous(ord, series, ord[k], k);
}

proof fn no_previous(ord: Seq<int>, series: spec_fn(int, int) -> bool, x: int, m: int)
    requires
        forall|j: int| 0 <= j < m ==> !series(#[trigger] ord[j], x),
    ensures
        previous(ord, series, x, m) == -1,
    decreases m,
{
    if m > 0 {
        assert(!series(ord[m - 1], x));
        no_previous(ord, series, x, m - 1);
    }
}

/// Changes come in the order of the rows they are dated by.
pub proof fn changes_keep_order(
    ord: Seq<int>,
    series: spec_fn(int, int) -> bool,
    differ: spec_fn(int, int) -> bool,
    key: spec_fn(int) -> int,
    m: int,
)
    requires
        0 <= m <= ord.len(),
        forall|a: int, b: int|
            0 <= a < b < ord.len() ==> key(#[trigger] ord[a]) <= key(#[trigger] ord[b]),
    ensures
        forall|c: int, d: int|
            0 <= c < d < changes(ord, series, differ, m).len() ==> key(
                (#[trigger] changes(ord, series, differ, m)[c]).1,
            ) <= key((#[trigger] changes(ord, series, differ, m)[d]).1),
        forall|c: int|
            0 <= c < changes(ord, series, differ, m).len() ==> m > 0 && key(
                (#[trigger] changes(ord, series, differ, m)[c]).1,
            ) <= key(ord[m - 1]),
    decreases m,
{
    if m > 0 {
        changes_keep_order(ord, series, differ, key, m - 1);
        let rest = changes(ord, series, differ, m - 1);
        let all = changes(ord, series, differ, m);
        assert forall|c: int| 0 <= c < all.len() implies key((#[trigger] all[c]).1) <= key(
            ord[m - 1],
        ) by {
            if c < rest.len() {
                assert(all[c] == rest[c]);
                assert(key(ord[m - 2]) <= key(ord[m - 1]));
            }
        }
        assert forall|c: int, d: int| 0 <= c < d < all.len() implies key((#[trigger] all[c]).1)
            <= key((#[trigger] all[d]).1) by {
            if d < rest.len() {
                assert(all[c] == rest[c] && all[d] == rest[d]);
            } else {
                assert(all[d].1 == ord[m - 1]);
            }
        }
    }
}

/// Pairs of positions, as executable code holds them.
pub open spec fn pairs_at(v: Seq<(usize, usize)>) -> Seq<(int, int)> {
    v.map_values(|p: (usize, usize)| (p.0 as int, p.1 as int))
}

fn change_pairs<F: Fn(usize, usize) -> bool, G: Fn(usize, usize) -> bool>(
    ord: &Vec<usize>,
    n: usize,
    series: F,
    differ: G,
    Ghost(sp): Ghost<spec_fn(int, int) -> bool>,
    Ghost(dp): Ghost<spec_fn(int, int) -> bool>,
) -> (r: Vec<(usize, usize)>)
    requires
        forall|k: int| 0 <= k < ord@.len() ==> #[trigger] ord@[k] < n,
        forall|i: usize, j: usize| i < n && j < n ==> #[trigger] call_requires(series, (i, j)),
        forall|i: usize, j: usize| i < n && j < n ==> #[trigger] call_requires(differ, (i, j)),
        forall|i: usize, j: usize, b: bool|
            i < n && j < n && #[trigger] call_ensures(series, (i, j), b) ==> b == sp(
                i as int,
                j as int,
            ),
        forall|i: usize, j: usize, b: bool|
            i < n && j < n && #[trigger] call_ensures(differ, (i, j), b) ==> b == dp(
                i as int,
                j as int,
            ),
    ensures
        pairs_at(r@) == changes(at(ord@), sp, dp, ord@.len() as int),
        forall|k: int| 0 <= k < r@.len() ==> (#[trigger] r@[k]).0 < n && r@[k].1 < n,
{
    let mut out: Vec<(usize, usize)> = Vec::new();
    let mut m: usize = 0;
    assert(pairs_at(out@) =~= seq![]);
    while m < ord.len()
        invariant
            m <= ord@.len(),
            forall|k: int| 0 <= k < ord@.len() ==> #[trigger] ord@[k] < n,
            forall|i: usize, j: usize| i < n && j < n ==> #[trigger] call_requires(series, (i, j)),
            forall|i: usize, j: usize| i < n && j < n ==> #[trigger] call_requires(differ, (i, j)),
            forall|i: usize, j: usize, b: bool|
                i < n && j < n && #[trigger] call_ensures(series, (i, j), b) ==> b == sp(
                    i as int,
                    j as int,
                ),
            forall|i: usize, j: usize, b: bool|
                i < n && j < n && #[trigger] call_ensures(differ, (i, j), b) ==> b == dp(
                    i as int,
                    j as int,
                ),
            pairs_at(out@) == changes(at(ord@), sp, dp, m as int),
            forall|k: int| 0 <= k < out@.len() ==> (#[trigger] out@[k]).0 < n && out@[k].1 < n,
        decreases ord@.len() - m,
    {
        let x: usize = ord[m];
        let mut p: usize = m;
        let mut found: bool = false;
        while p > 0 && !found
            invariant
                p <= m,
                m < ord@.len(),
                x < n,
                x == ord@[m as int],
                forall|k: int| 0 <= k < ord@.len() ==> #[trigger] ord@[k] < n,
                forall|i: usize, j: usize|
                    i < n && j < n ==> #[trigger] call_requires(series, (i, j)),
                forall|i: usize, j: usize, b: bool|
                    i < n && j < n && #[trigger] call_ensures(series, (i, j), b) ==> b == sp(
                        i as int,
                        j as int,
                    ),
                !found ==> previous(at(ord@), sp, x as int, m as int) == previous(
                    at(ord@),
                    sp,
                    x as int,
                    p as int,
                ),
                found ==> p < m && previous(at(ord@), sp, x as int, m as int) == ord@[p as int],
            decreases p, !found as int,
        {
            p = p - 1;
            if series(ord[p], x) {
                found = true;
            }
        }
        if found {
            let y: usize = ord[p];
            let ghost was = out@;
            if differ(y, x) {
                out.push((y, x));
                assert(pairs_at(out@) =~= pairs_at(was).push((y as int, x as int)));
            }
        }
        m = m + 1;
    }
    out
}

// ---------------------------------------------------------------------------
// The streams
// ---------------------------------------------------------------------------

/// Runner samples by time.
pub open spec fn local_by_ts(rows: Seq<RunnerSample>) -> spec_fn(int, int) -> bool {
    |i: int, j: int| rows[i].ts <= rows[j].ts
}

/// Samples of one runner, by org and id.
pub open spec fn local_series(rows: Seq<RunnerSample>) -> spec_fn(int, int) -> bool {
    |i: int, j: int| rows[i].org@ == rows[j].org@ && rows[i].agent_id == rows[j].agent_id
}

/// Samples whose liveness differs.
pub open spec fn liveness_differs(rows: Seq<RunnerSample>) -> spec_fn(int, int) -> bool {
    |i: int, j: int| rows[i].liveness != rows[j].liveness
}

/// The liveness edge between two samples.
pub open spec fn liveness_change(rows: Seq<RunnerSample>, p: (int, int)) -> Change {
    let r = rows[p.1];
    Change {
        ts: r.ts,
        at: rfc3339(r.ts as int),
        org: r.org,
        edge: Edge::Liveness { runner: r.name, from: rows[p.0].liveness, to: r.liveness },
    }
}

/// Every liveness edge of the window, newest first.
pub open spec fn liveness_stream(rows: Seq<RunnerSample>, q: TimelineQuery) -> Seq<Change> {
    let ord = order(local_by_ts(rows), select(local_window(rows, q), rows.len() as int));
    changes(ord, local_series(rows), liveness_differs(rows), ord.len() as int).reverse().map_values(
        |p: (int, int)| liveness_change(rows, p),
    )
}

/// Readings by time.
pub open spec fn api_by_ts(rows: Seq<ApiSample>) -> spec_fn(int, int) -> bool {
    |i: int, j: int| rows[i].ts <= rows[j].ts
}

/// Readings of one runner, by org and id.
pub open spec fn api_series(rows: Seq<ApiSample>) -> spec_fn(int, int) -> bool {
    |i: int, j: int| rows[i].org@ == rows[j].org@ && rows[i].agent_id == rows[j].agent_id
}

/// Readings whose online bit differs.
pub open spec fn online_differs(rows: Seq<ApiSample>) -> spec_fn(int, int) -> bool {
    |i: int, j: int| rows[i].online != rows[j].online
}

/// The online edge at a reading.
pub open spec fn online_change(rows: Seq<ApiSample>, p: (int, int)) -> Change {
    let r = rows[p.1];
    Change {
        ts: r.ts,
        at: rfc3339(r.ts as int),
        org: r.org,
        edge: Edge::GithubOnline { runner: r.name, online: r.online },
    }
}

/// Every online edge of the window, newest first.
pub open spec fn online_stream(rows: Seq<ApiSample>, q: TimelineQuery) -> Seq<Change> {
    let ord = order(api_by_ts(rows), select(api_window(rows, q), rows.len() as int));
    changes(ord, api_series(rows), online_differs(rows), ord.len() as int).reverse().map_values(
        |p: (int, int)| online_change(rows, p),
    )
}

/// Outcomes by time.
pub open spec fn reconcile_by_ts(rows: Seq<ReconcileSample>) -> spec_fn(int, int) -> bool {
    |i: int, j: int| rows[i].ts <= rows[j].ts
}

/// Outcomes of one org.
pub open spec fn reconcile_series(rows: Seq<ReconcileSample>) -> spec_fn(int, int) -> bool {
    |i: int, j: int| rows[i].org@ == rows[j].org@
}

/// Outcomes of which one succeeded and one did not.
pub open spec fn outcome_differs(rows: Seq<ReconcileSample>) -> spec_fn(int, int) -> bool {
    |i: int, j: int| rows[i].ok != rows[j].ok
}

/// The reconcile edge at an outcome: a recovery, or a failure with its cause.
pub open spec fn reconcile_change(rows: Seq<ReconcileSample>, p: (int, int)) -> Change {
    let r = rows[p.1];
    Change {
        ts: r.ts,
        at: rfc3339(r.ts as int),
        org: r.org,
        edge: Edge::Reconcile(
            if r.ok {
                ReconcileEdge::Recovered
            } else {
                ReconcileEdge::Failed { error_kind: r.error_kind, http_status: r.http_status }
            },
        ),
    }
}

/// Every reconcile edge of the window, newest first.
pub open spec fn reconcile_stream(
    rows: Seq<ReconcileSample>,
    local: Seq<RunnerSample>,
    q: TimelineQuery,
) -> Seq<Change> {
    let ord = order(
        reconcile_by_ts(rows),
        select(reconcile_window(rows, local, q), rows.len() as int),
    );
    changes(ord, reconcile_series(rows), outcome_differs(rows), ord.len() as int).reverse().map_values(
        |p: (int, int)| reconcile_change(rows, p),
    )
}

/// Newest first: no change is older than one behind it.
pub open spec fn newest_come_first(s: Seq<Change>) -> bool {
    forall|i: int, j: int| 0 <= i < j < s.len() ==> #[trigger] s[i].ts >= #[trigger] s[j].ts
}

/// Each stream of edges comes newest first.
pub proof fn streams_come_newest_first(
    local: Seq<RunnerSample>,
    api: Seq<ApiSample>,
    outcomes: Seq<ReconcileSample>,
    q: TimelineQuery,
)
    ensures
        newest_come_first(liveness_stream(local, q)),
        newest_come_first(online_stream(api, q)),
        newest_come_first(reconcile_stream(outcomes, local, q)),
{
    let w = select(local_window(local, q), local.len() as int);
    let ord = order(local_by_ts(local), w);
    order_is_sorted(local_by_ts(local), w);
    let key = |i: int| local[i].ts as int;
    assert forall|a: int, b: int| 0 <= a < b < ord.len() implies key(#[trigger] ord[a]) <= key(
        #[trigger] ord[b],
    ) by {
        assert(local_by_ts(local)(ord[a], ord[b]));
    }
    changes_keep_order(ord, local_series(local), liveness_differs(local), key, ord.len() as int);
    let cs = changes(ord, local_series(local), liveness_differs(local), ord.len() as int);
    let st = liveness_stream(local, q);
    assert forall|i: int, j: int| 0 <= i < j < st.len() implies #[trigger] st[i].ts
        >= #[trigger] st[j].ts by {
        assert(key(cs[cs.len() - 1 - j].1) <= key(cs[cs.len() - 1 - i].1));
    }

    let w = select(api_window(api, q), api.len() as int);
    let ord = order(api_by_ts(api), w);
    order_is_sorted(api_by_ts(api), w);
    let key = |i: int| api[i].ts as int;
    assert forall|a: int, b: int| 0 <= a < b < ord.len() implies key(#[trigger] ord[a]) <= key(
        #[trigger] ord[b],
    ) by {
        assert(api_by_ts(api)(ord[a], ord[b]));
    }
    changes_keep_order(ord, api_series(api), online_differs(api), key, ord.len() as int);
    let cs = changes(ord, api_series(api), online_differs(api), ord.len() as int);
    let st = online_stream(api, q);
    assert forall|i: int, j: int| 0 <= i < j < st.len() implies #[trigger] st[i].ts
        >= #[trigger] st[j].ts by {
        assert(key(cs[cs.len() - 1 - j].1) <= key(cs[cs.len() - 1 - i].1));
    }

    let w = select(reconcile_window(outcomes, local, q), outcomes.len() as int);
    let ord = order(reconcile_by_ts(outcomes), w);
    order_is_sorted(reconcile_by_ts(outcomes), w);
    let key = |i: int| outcomes[i].ts as int;
    assert forall|a: int, b: int| 0 <= a < b < ord.len() implies key(#[trigger] ord[a]) <= key(
        #[trigger] ord[b],
    ) by {
        assert(reconcile_by_ts(outcomes)(ord[a], ord[b]));
    }
    changes_keep_order(ord, reconcile_series(outcomes), outcome_differs(outcomes), key, ord.len() as int);
    let cs = changes(ord, reconcile_series(outcomes), outcome_differs(outcomes), ord.len() as int);
    let st = reconcile_stream(outcomes, local, q);
    assert forall|i: int, j: int| 0 <= i < j < st.len() implies #[trigger] st[i].ts
        >= #[trigger] st[j].ts by {
        assert(key(cs[cs.len() - 1 - j].1) <= key(cs[cs.len() - 1 - i].1));
    }
}

/// Local liveness edges of the window, newest first, at most `limit`.
pub(crate) fn liveness_edges(db: &Db, q: &TimelineQuery, limit: usize) -> (r: Vec<Transition>)
    ensures
        change_rows(r@) == first_of(liveness_stream(db.runner_samples@, *q), limit as nat),
        liveness_stream(db.runner_samples@, *q).len() <= usize::MAX,
{
    let rows = &db.runner_samples;
    let hit = |i: usize| -> (b: bool)
        requires
            i < rows@.len(),
        ensures
            b == (rows@[i as int].ts >= q.since_ts && admits(q.org, rows@[i as int].org@) && admits(
                q.runner,
                rows@[i as int].name@,
            )),
    {
        rows[i].ts >= q.since_ts && passes(&q.org, &rows[i].org) && passes(&q.runner, &rows[i].name)
    };
    let window = select_rows(rows.len(), hit, Ghost(local_window(rows@, *q)));
    let before = |i: usize, j: usize| -> (b: bool)
        requires
            i < rows@.len(),
            j < rows@.len(),
        ensures
            b == (rows@[i as int].ts <= rows@[j as int].ts),
    {
        rows[i].ts <= rows[j].ts
    };
    let ord = order_rows(&window, rows.len(), before, Ghost(local_by_ts(rows@)));
    let series = |i: usize, j: usize| -> (b: bool)
        requires
            i < rows@.len(),
            j < rows@.len(),
        ensures
            b == (rows@[i as int].org@ == rows@[j as int].org@ && rows@[i as int].agent_id
                == rows@[j as int].agent_id),
    {
        rows[i].agent_id == rows[j].agent_id && rows[i].org == rows[j].org
    };
    let differ = |i: usize, j: usize| -> (b: bool)
        requires
            i < rows@.len(),
            j < rows@.len(),
        ensures
            b == (rows@[i as int].liveness != rows@[j as int].liveness),
    {
        rows[i].liveness != rows[j].liveness
    };
    let pairs = change_pairs(
        &ord,
        rows.len(),
        series,
        differ,
        Ghost(local_series(rows@)),
        Ghost(liveness_differs(rows@)),
    );
    let ghost stream = liveness_stream(rows@, *q);
    assert(stream.len() == pairs@.len()) by {
        assert(pairs_at(pairs@).len() == pairs@.len());
    }
    let mut out: Vec<Transition> = Vec::new();
    let mut k: usize = 0;
    while k < pairs.len() && k < limit
        invariant
            k <= pairs@.len(),
            k <= limit,
            stream.len() == pairs@.len(),
            pairs_at(pairs@).reverse().map_values(|p: (int, int)| liveness_change(rows@, p))
                == stream,
            forall|m: int|
                0 <= m < pairs@.len() ==> (#[trigger] pairs@[m]).0 < rows@.len() && pairs@[m].1
                    < rows@.len(),
            change_rows(out@) == stream.take(k as int),
        decreases pairs@.len() - k,
    {
        let (p, x): (usize, usize) = pairs[pairs.len() - 1 - k];
        let r = &rows[x];
        let t = Transition {
            ts: r.ts,
            at: to_rfc3339_utc(r.ts),
            org: r.org.clone(),
            edge: Edge::Liveness {
                runner: r.name.clone(),
                from: rows[p].liveness,
                to: r.liveness,
            },
        };
        proof {
            assert(pairs_at(pairs@).reverse()[k as int] == (p as int, x as int));
            assert(t@ == stream[k as int]);
        }
        let ghost view = t@;
        let ghost was = out@;
        out.push(t);
        assert(change_rows(out@) =~= change_rows(was).push(view));
        assert(stream.take(k + 1) =~= stream.take(k as int).push(stream[k as int]));
        k = k + 1;
    }
    if pairs.len() <= limit {
        assert(stream.take(k as int) =~= stream);
    }
    out
}

/// Online edges of the window, newest first, at most `limit`. They come from
/// consecutive readings: a gap in the readings makes none.
pub(crate) fn github_edges(db: &Db, q: &TimelineQuery, limit: usize) -> (r: Vec<Transition>)
    ensures
        change_rows(r@) == first_of(online_stream(db.api_samples@, *q), limit as nat),
        online_stream(db.api_samples@, *q).len() <= usize::MAX,
{
    let rows = &db.api_samples;
    let hit = |i: usize| -> (b: bool)
        requires
            i < rows@.len(),
        ensures
            b == (rows@[i as int].ts >= q.since_ts && admits(q.org, rows@[i as int].org@) && admits(
                q.runner,
                rows@[i as int].name@,
            )),
    {
        rows[i].ts >= q.since_ts && passes(&q.org, &rows[i].org) && passes(&q.runner, &rows[i].name)
    };
    let window = select_rows(rows.len(), hit, Ghost(api_window(rows@, *q)));
    let before = |i: usize, j: usize| -> (b: bool)
        requires
            i < rows@.len(),
            j < rows@.len(),
        ensures
            b == (rows@[i as int].ts <= rows@[j as int].ts),
    {
        rows[i].ts <= rows[j].ts
    };
    let ord = order_rows(&window, rows.len(), before, Ghost(api_by_ts(rows@)));
    let series = |i: usize, j: usize| -> (b: bool)
        requires
            i < rows@.len(),
            j < rows@.len(),
        ensures
            b == (rows@[i as int].org@ == rows@[j as int].org@ && rows@[i as int].agent_id
                == rows@[j as int].agent_id),
    {
        rows[i].agent_id == rows[j].agent_id && rows[i].org == rows[j].org
    };
    let differ = |i: usize, j: usize| -> (b: bool)
        requires
            i < rows@.len(),
            j < rows@.len(),
        ensures
            b == (rows@[i as int].online != rows@[j as int].online),
    {
        rows[i].online != rows[j].online
    };
    let pairs = change_pairs(
        &ord,
        rows.len(),
        series,
        differ,
        Ghost(api_series(rows@)),
        Ghost(online_differs(rows@)),
    );
    let ghost stream = online_stream(rows@, *q);
    assert(stream.len() == pairs@.len()) by {
        assert(pairs_at(pairs@).len() == pairs@.len());
    }
    let mut out: Vec<Transition> = Vec::new();
    let mut k: usize = 0;
    while k < pairs.len() && k < limit
        invariant
            k <= pairs@.len(),
            k <= limit,
            stream.len() == pairs@.len(),
            pairs_at(pairs@).reverse().map_values(|p: (int, int)| online_change(rows@, p))
                == stream,
            forall|m: int|
                0 <= m < pairs@.len() ==> (#[trigger] pairs@[m]).0 < rows@.len() && pairs@[m].1
                    < rows@.len(),
            change_rows(out@) == stream.take(k as int),
        decreases pairs@.len() - k,
    {
        let (p, x): (usize, usize) = pairs[pairs.len() - 1 - k];
        let r = &rows[x];
        let t = Transition {
            ts: r.ts,
            at: to_rfc3339_utc(r.ts),
            org: r.org.clone(),
            edge: Edge::GithubOnline { runner: r.name.clone(), online: r.online },
        };
        proof {
            assert(pairs_at(pairs@).reverse()[k as int] == (p as int, x as int));
            assert(t@ == stream[k as int]);
        }
        let ghost view = t@;
        let ghost was = out@;
        out.push(t);
        assert(change_rows(out@) =~= change_rows(was).push(view));
        assert(stream.take(k + 1) =~= stream.take(k as int).push(stream[k as int]));
        k = k + 1;
    }
    if pairs.len() <= limit {
        assert(stream.take(k as int) =~= stream);
    }
    out
}

/// Reconcile edges of the window, newest first, at most `limit`.
pub(crate) fn reconcile_edges(db: &Db, q: &TimelineQuery, limit: usize) -> (r: Vec<Transition>)
    ensures
        change_rows(r@) == first_of(
            reconcile_stream(db.reconcile_samples@, db.runner_samples@, *q),
            limit as nat,
        ),
        reconcile_stream(db.reconcile_samples@, db.runner_samples@, *q).len() <= usize::MAX,
{
    let rows = &db.reconcile_samples;
    let local = &db.runner_samples;
    let hit = |i: usize| -> (b: bool)
        requires
            i < rows@.len(),
        ensures
            b == reconcile_window(rows@, local@, *q)(i as int),
    {
        rows[i].ts >= q.since_ts && passes(&q.org, &rows[i].org) && match &q.runner {
            Some(name) => in_org(local, name, &rows[i].org),
            None => true,
        }
    };
    let window = select_rows(rows.len(), hit, Ghost(reconcile_window(rows@, local@, *q)));
    let before = |i: usize, j: usize| -> (b: bool)
        requires
            i < rows@.len(),
            j < rows@.len(),
        ensures
            b == (rows@[i as int].ts <= rows@[j as int].ts),
    {
        rows[i].ts <= rows[j].ts
    };
    let ord = order_rows(&window, rows.len(), before, Ghost(reconcile_by_ts(rows@)));
    let series = |i: usize, j: usize| -> (b: bool)
        requires
            i < rows@.len(),
            j < rows@.len(),
        ensures
            b == (rows@[i as int].org@ == rows@[j as int].org@),
    {
        rows[i].org == rows[j].org
    };
    let differ = |i: usize, j: usize| -> (b: bool)
        requires
            i < rows@.len(),
            j < rows@.len(),
        ensures
            b == (rows@[i as int].ok != rows@[j as int].ok),
    {
        rows[i].ok != rows[j].ok
    };
    let pairs = change_pairs(
        &ord,
        rows.len(),
        series,
        differ,
        Ghost(reconcile_series(rows@)),
        Ghost(outcome_differs(rows@)),
    );
    let ghost stream = reconcile_stream(rows@, local@, *q);
    assert(stream.len() == pairs@.len()) by {
        assert(pairs_at(pairs@).len() == pairs@.len());
    }
    let mut out: Vec<Transition> = Vec::new();
    let mut k: usize = 0;
    while k < pairs.len() && k < limit
        invariant
            k <= pairs@.len(),
            k <= limit,
            stream.len() == pairs@.len(),
            pairs_at(pairs@).reverse().map_values(|p: (int, int)| reconcile_change(rows@, p))
                == stream,
            forall|m: int|
                0 <= m < pairs@.len() ==> (#[trigger] pairs@[m]).0 < rows@.len() && pairs@[m].1
                    < rows@.len(),
            change_rows(out@) == stream.take(k as int),
        decreases pairs@.len() - k,
    {
        let (p, x): (usize, usize) = pairs[pairs.len() - 1 - k];
        let r = &rows[x];
        let edge = if r.ok {
            ReconcileEdge::Recovered
        } else {
            ReconcileEdge::Failed {
                error_kind: copy_text(&r.error_kind),
                http_status: r.http_status,
            }
        };
        let t = Transition {
            ts: r.ts,
            at: to_rfc3339_utc(r.ts),
            org: r.org.clone(),
            edge: Edge::Reconcile(edge),
        };
        proof {
            assert(pairs_at(pairs@).reverse()[k as int] == (p as int, x as int));
            assert(t@ == stream[k as int]);
        }
        let ghost view = t@;
        let ghost was = out@;
        out.push(t);
        assert(change_rows(out@) =~= change_rows(was).push(view));
        assert(stream.take(k + 1) =~= stream.take(k as int).push(stream[k as int]));
        k = k + 1;
    }
    if pairs.len() <= limit {
        assert(stream.take(k as int) =~= stream);
    }
    out
}

// ---------------------------------------------------------------------------
// Jobs
// ---------------------------------------------------------------------------

/// Which jobs started in the window and pass the filters.
pub open spec fn started_window(rows: Seq<JobEvent>, q: TimelineQuery) -> spec_fn(int) -> bool {
    |i: int|
        rows[i].started_at is Some && rows[i].started_at->0 >= q.since_ts && admits(
            q.org,
            rows[i].org@,
        ) && admits(q.runner, rows[i].runner_name@)
}

/// Which jobs completed in the window and pass the filters.
pub open spec fn completed_window(rows: Seq<JobEvent>, q: TimelineQuery) -> spec_fn(int) -> bool {
    |i: int|
        rows[i].completed_at is Some && rows[i].completed_at->0 >= q.since_ts && admits(
            q.org,
            rows[i].org@,
        ) && admits(q.runner, rows[i].runner_name@)
}

/// The ends of jobs that fall in the window: the starts, then the completions.
/// A job that lies half inside gives the end that is inside.
pub open spec fn job_ends(rows: Seq<JobEvent>, q: TimelineQuery) -> Seq<(bool, int)> {
    select(started_window(rows, q), rows.len() as int).map_values(|i: int| (true, i)) + select(
        completed_window(rows, q),
        rows.len() as int,
    ).map_values(|i: int| (false, i))
}

/// The time of one end of a job.
pub open spec fn end_time(rows: Seq<JobEvent>, e: (bool, int)) -> i64 {
    if e.0 {
        rows[e.1].started_at->0
    } else {
        rows[e.1].completed_at->0
    }
}

/// Ends, newest first.
pub open spec fn ends_newest_first(rows: Seq<JobEvent>, ends: Seq<(bool, int)>) -> spec_fn(
    int,
    int,
) -> bool {
    |i: int, j: int| end_time(rows, ends[i]) >= end_time(rows, ends[j])
}

/// The transition at one end of a job.
pub open spec fn job_change(rows: Seq<JobEvent>, e: (bool, int)) -> JobChange {
    let j = rows[e.1];
    JobChange {
        ts: end_time(rows, e),
        at: rfc3339(end_time(rows, e) as int),
        org: j.org,
        runner: j.runner_name,
        repo: j.repo,
        job: j.job,
        edge: if e.0 {
            JobEdge::Started
        } else {
            JobEdge::Completed { conclusion: j.conclusion }
        },
    }
}

/// Every start and completion of the window, newest first.
pub open spec fn job_stream(rows: Seq<JobEvent>, q: TimelineQuery) -> Seq<JobChange> {
    let ends = job_ends(rows, q);
    order(
        ends_newest_first(rows, ends),
        select(any_row(), ends.len() as int),
    ).map_values(|k: int| job_change(rows, ends[k]))
}

/// Ends, as executable code holds them.
spec fn ends_at(v: Seq<(bool, usize)>) -> Seq<(bool, int)> {
    v.map_values(|p: (bool, usize)| (p.0, p.1 as int))
}

fn collect_ends(db: &Db, q: &TimelineQuery) -> (r: Vec<(bool, usize)>)
    ensures
        ends_at(r@) == job_ends(db.jobs@, *q),
        forall|k: int|
            0 <= k < r@.len() ==> {
                &&& (#[trigger] r@[k]).1 < db.jobs@.len()
                &&& r@[k].0 ==> db.jobs@[r@[k].1 as int].started_at is Some
                &&& !r@[k].0 ==> db.jobs@[r@[k].1 as int].completed_at is Some
            },
{
    let rows = &db.jobs;
    let began = |i: usize| -> (b: bool)
        requires
            i < rows@.len(),
        ensures
            b == started_window(rows@, *q)(i as int),
    {
        match rows[i].started_at {
            Some(t) => t >= q.since_ts && passes(&q.org, &rows[i].org) && passes(
                &q.runner,
                &rows[i].runner_name,
            ),
            None => false,
        }
    };
    let starts = select_rows(rows.len(), began, Ghost(started_window(rows@, *q)));
    let ended = |i: usize| -> (b: bool)
        requires
            i < rows@.len(),
        ensures
            b == completed_window(rows@, *q)(i as int),
    {
        match rows[i].completed_at {
            Some(t) => t >= q.since_ts && passes(&q.org, &rows[i].org) && passes(
                &q.runner,
                &rows[i].runner_name,
            ),
            None => false,
        }
    };
    let completions = select_rows(rows.len(), ended, Ghost(completed_window(rows@, *q)));
    proof {
        select_is_exact(started_window(rows@, *q), rows@.len() as int);
        select_is_exact(completed_window(rows@, *q), rows@.len() as int);
        assert(at(starts@).len() == starts@.len());
        assert(at(completions@).len() == completions@.len());
    }
    let mut out: Vec<(bool, usize)> = Vec::new();
    let mut k: usize = 0;
    let ghost first = at(starts@).map_values(|i: int| (true, i));
    let ghost second = at(completions@).map_values(|i: int| (false, i));
    while k < starts.len()
        invariant
            k <= starts@.len(),
            rows@ == db.jobs@,
            first == at(starts@).map_values(|i: int| (true, i)),
            at(starts@) == select(started_window(rows@, *q), rows@.len() as int),
            forall|m: int|
                0 <= m < at(starts@).len() ==> started_window(rows@, *q)(#[trigger] at(starts@)[m]),
            forall|m: int| 0 <= m < starts@.len() ==> #[trigger] starts@[m] < rows@.len(),
            ends_at(out@) == first.take(k as int),
            forall|m: int|
                0 <= m < out@.len() ==> {
                    &&& (#[trigger] out@[m]).1 < db.jobs@.len()
                    &&& out@[m].0
                    &&& db.jobs@[out@[m].1 as int].started_at is Some
                },
        decreases starts@.len() - k,
    {
        let ghost was = out@;
        assert(started_window(rows@, *q)(at(starts@)[k as int]));
        out.push((true, starts[k]));
        assert(ends_at(out@) =~= ends_at(was).push((true, starts@[k as int] as int)));
        assert(first.take(k + 1) =~= first.take(k as int).push(first[k as int]));
        k = k + 1;
    }
    assert(first.take(k as int) =~= first);
    let mut k: usize = 0;
    assert(first + second.take(0) =~= first);
    while k < completions.len()
        invariant
            k <= completions@.len(),
            rows@ == db.jobs@,
            second == at(completions@).map_values(|i: int| (false, i)),
            forall|m: int|
                0 <= m < at(completions@).len() ==> completed_window(rows@, *q)(
                    #[trigger] at(completions@)[m],
                ),
            forall|m: int| 0 <= m < completions@.len() ==> #[trigger] completions@[m] < rows@.len(),
            ends_at(out@) == first + second.take(k as int),
            forall|m: int|
                0 <= m < out@.len() ==> {
                    &&& (#[trigger] out@[m]).1 < db.jobs@.len()
                    &&& out@[m].0 ==> db.jobs@[out@[m].1 as int].started_at is Some
                    &&& !out@[m].0 ==> db.jobs@[out@[m].1 as int].completed_at is Some
                },
        decreases completions@.len() - k,
    {
        let ghost was = out@;
        assert(completed_window(rows@, *q)(at(completions@)[k as int]));
        out.push((false, completions[k]));
        assert(ends_at(out@) =~= ends_at(was).push((false, completions@[k as int] as int)));
        assert(first + second.take(k + 1) =~= (first + second.take(k as int)).push(
            second[k as int],
        ));
        k = k + 1;
    }
    assert(second.take(k as int) =~= second);
    out
}

fn end_ts(rows: &Vec<JobEvent>, e: (bool, usize)) -> (r: i64)
    requires
        e.1 < rows@.len(),
        e.0 ==> rows@[e.1 as int].started_at is Some,
        !e.0 ==> rows@[e.1 as int].completed_at is Some,
    ensures
        r == end_time(rows@, (e.0, e.1 as int)),
{
    if e.0 {
        rows[e.1].started_at.unwrap()
    } else {
        rows[e.1].completed_at.unwrap()
    }
}

/// Job starts and completions of the window, newest first, at most `limit`.
pub(crate) fn job_edges(db: &Db, q: &TimelineQuery, limit: usize) -> (r: Vec<JobTransition>)
    ensures
        job_changes(r@) == first_of(job_stream(db.jobs@, *q), limit as nat),
        job_stream(db.jobs@, *q).len() <= usize::MAX,
{
    let rows = &db.jobs;
    let ends = collect_ends(db, q);
    let ghost model = job_ends(rows@, *q);
    assert(ends_at(ends@).len() == ends@.len());
    let hit = |i: usize| -> (b: bool)
        ensures
            b,
    {
        true
    };
    let all = select_rows(ends.len(), hit, Ghost(any_row()));
    let before = |i: usize, j: usize| -> (b: bool)
        requires
            i < ends@.len(),
            j < ends@.len(),
            forall|k: int|
                0 <= k < ends@.len() ==> {
                    &&& (#[trigger] ends@[k]).1 < rows@.len()
                    &&& ends@[k].0 ==> rows@[ends@[k].1 as int].started_at is Some
                    &&& !ends@[k].0 ==> rows@[ends@[k].1 as int].completed_at is Some
                },
        ensures
            b == (end_time(rows@, ends_at(ends@)[i as int]) >= end_time(
                rows@,
                ends_at(ends@)[j as int],
            )),
    {
        end_ts(rows, ends[i]) >= end_ts(rows, ends[j])
    };
    let sorted = order_rows(&all, ends.len(), before, Ghost(ends_newest_first(rows@, model)));
    let ghost stream = job_stream(rows@, *q);
    assert(stream.len() == sorted@.len()) by {
        assert(at(sorted@).len() == sorted@.len());
    }
    let mut out: Vec<JobTransition> = Vec::new();
    let mut k: usize = 0;
    while k < sorted.len() && k < limit
        invariant
            k <= sorted@.len(),
            k <= limit,
            rows@ == db.jobs@,
            stream.len() == sorted@.len(),
            model == ends_at(ends@),
            stream == at(sorted@).map_values(|m: int| job_change(rows@, model[m])),
            forall|m: int| 0 <= m < sorted@.len() ==> #[trigger] sorted@[m] < ends@.len(),
            forall|m: int|
                0 <= m < ends@.len() ==> {
                    &&& (#[trigger] ends@[m]).1 < rows@.len()
                    &&& ends@[m].0 ==> rows@[ends@[m].1 as int].started_at is Some
                    &&& !ends@[m].0 ==> rows@[ends@[m].1 as int].completed_at is Some
                },
            job_changes(out@) == stream.take(k as int),
        decreases sorted@.len() - k,
    {
        let e: (bool, usize) = ends[sorted[k]];
        let j = &rows[e.1];
        let ts: i64 = end_ts(rows, e);
        let edge = if e.0 {
            JobEdge::Started
        } else {
            JobEdge::Completed { conclusion: copy_text(&j.conclusion) }
        };
        let t = JobTransition {
            ts,
            at: to_rfc3339_utc(ts),
            org: j.org.clone(),
            runner: j.runner_name.clone(),
            repo: j.repo.clone(),
            job: j.job.clone(),
            edge,
        };
        proof {
            assert(at(sorted@)[k as int] == sorted@[k as int] as int);
            assert(model[sorted@[k as int] as int] == (e.0, e.1 as int));
            assert(t@ == stream[k as int]);
        }
        let ghost view = t@;
        let ghost was = out@;
        out.push(t);
        assert(job_changes(out@) =~= job_changes(was).push(view));
        assert(stream.take(k + 1) =~= stream.take(k as int).push(stream[k as int]));
        k = k + 1;
    }
    if sorted.len() <= limit {
        assert(stream.take(k as int) =~= stream);
    }
    out
}

} // verus!
