//! What a timeline tells of the tables: every change of the window, every end of a
//! job and every sample, and nothing else.

use vstd::prelude::*;

use crate::models::timeline::{
    newest_first_cut, Edge, JobEdge, ReconcileEdge, Timeline, TimelinePoint, TimelineQuery,
};
use crate::models::{GhView, RunnerSample};
use crate::store::reader::any_row;
use crate::store::reader::github::{
    is_of, of_runner_at, reading_time, reading_time_is_met, reading_time_is_within,
};
use crate::store::reader::timeline::edges::{
    api_by_ts, api_series, api_window, change_rows, changes, completed_window, ends_newest_first,
    job_change, job_changes, job_ends, job_stream, liveness_differs, liveness_stream, local_by_ts,
    local_series, local_window, online_differs, online_stream, outcome_differs, previous,
    reconcile_by_ts, reconcile_series, reconcile_stream, reconcile_window, started_window, Change,
    JobChange,
};
use crate::store::reader::timeline::{
    answers, edge_stream, local_filter, newest_first, placed, points_of, readings_of,
    sample_points, sample_stream, samples_newest_first,
};
use crate::store::reader::min_ts_where;
use crate::store::rows::{
    ascends, earlier, in_order, order, order_is_a_permutation, order_is_sorted, order_is_stable,
    select, select_is_exact, total_preorder,
};
use crate::store::tables::{ApiSample, Db, JobEvent, ReconcileSample};
use crate::text::{text_le, text_le_total, text_le_transitive};
use crate::util::rfc3339;

verus! {

// ---------------------------------------------------------------------------
// Neighbours
// ---------------------------------------------------------------------------

/// `a` is the row before `b` in its series, among the first `n` rows that lie in
/// the window: none of the series stands between them.
spec fn adjacent(
    n: int,
    window: spec_fn(int) -> bool,
    key: spec_fn(int) -> int,
    series: spec_fn(int, int) -> bool,
    a: int,
    b: int,
) -> bool {
    &&& 0 <= a < n && 0 <= b < n
    &&& window(a) && window(b)
    &&& series(a, b)
    &&& earlier(key, a, b)
    &&& forall|c: int|
        0 <= c < n && #[trigger] window(c) && series(c, b) ==> !(earlier(key, a, c) && earlier(
            key,
            c,
            b,
        ))
}

proof fn previous_is_the_neighbour(
    ord: Seq<int>,
    series: spec_fn(int, int) -> bool,
    x: int,
    i: int,
    m: int,
)
    requires
        0 <= i < m <= ord.len(),
        series(ord[i], x),
        forall|j: int| i < j < m ==> !series(#[trigger] ord[j], x),
    ensures
        previous(ord, series, x, m) == ord[i],
    decreases m,
{
    if m - 1 > i {
        assert(!series(ord[m - 1], x));
        previous_is_the_neighbour(ord, series, x, i, m - 1);
    }
}

proof fn previous_is_near(ord: Seq<int>, series: spec_fn(int, int) -> bool, x: int, m: int) -> (i:
    int)
    requires
        0 <= m <= ord.len(),
        previous(ord, series, x, m) >= 0,
    ensures
        0 <= i < m,
        ord[i] == previous(ord, series, x, m),
        series(ord[i], x),
        forall|j: int| i < j < m ==> !series(#[trigger] ord[j], x),
    decreases m,
{
    if m <= 0 {
        0
    } else if series(ord[m - 1], x) {
        m - 1
    } else {
        previous_is_near(ord, series, x, m - 1)
    }
}

proof fn change_is_kept(
    ord: Seq<int>,
    series: spec_fn(int, int) -> bool,
    differ: spec_fn(int, int) -> bool,
    i: int,
    j: int,
    m: int,
)
    requires
        0 <= i < j < m <= ord.len(),
        ord[i] >= 0,
        series(ord[i], ord[j]),
        forall|k: int| i < k < j ==> !series(#[trigger] ord[k], ord[j]),
        differ(ord[i], ord[j]),
    ensures
        changes(ord, series, differ, m).contains((ord[i], ord[j])),
    decreases m,
{
    let all = changes(ord, series, differ, m);
    let rest = changes(ord, series, differ, m - 1);
    if j == m - 1 {
        previous_is_the_neighbour(ord, series, ord[j], i, j);
        assert(all[all.len() - 1] == (ord[i], ord[j]));
    } else {
        change_is_kept(ord, series, differ, i, j, m - 1);
        let c = choose|c: int| 0 <= c < rest.len() && rest[c] == (ord[i], ord[j]);
        assert(all[c] == rest[c]);
    }
}

/// What stands behind each change: two positions of `ord`, the nearest of one
/// series, that differ; and the changes follow the order of the second.
proof fn changes_are_sound(
    ord: Seq<int>,
    series: spec_fn(int, int) -> bool,
    differ: spec_fn(int, int) -> bool,
    m: int,
) -> (w: Seq<(int, int)>)
    requires
        0 <= m <= ord.len(),
    ensures
        w.len() == changes(ord, series, differ, m).len(),
        forall|c: int|
            #![trigger w[c]]
            0 <= c < w.len() ==> {
                &&& 0 <= w[c].0 < w[c].1 < m
                &&& changes(ord, series, differ, m)[c] == (ord[w[c].0], ord[w[c].1])
                &&& series(ord[w[c].0], ord[w[c].1])
                &&& differ(ord[w[c].0], ord[w[c].1])
                &&& forall|k: int|
                    w[c].0 < k < w[c].1 ==> !series(#[trigger] ord[k], ord[w[c].1])
            },
        forall|c: int, d: int|
            0 <= c < d < w.len() ==> (#[trigger] w[c]).1 < (#[trigger] w[d]).1,
    decreases m,
{
    if m <= 0 {
        seq![]
    } else {
        let w = changes_are_sound(ord, series, differ, m - 1);
        let x = ord[m - 1];
        let p = previous(ord, series, x, m - 1);
        if p >= 0 && differ(p, x) {
            let i = previous_is_near(ord, series, x, m - 1);
            w.push((i, m - 1))
        } else {
            w
        }
    }
}

/// The changes of a window are exactly the neighbours that differ, oldest first,
/// each once.
proof fn changes_of_window(
    n: int,
    window: spec_fn(int) -> bool,
    before: spec_fn(int, int) -> bool,
    key: spec_fn(int) -> int,
    series: spec_fn(int, int) -> bool,
    differ: spec_fn(int, int) -> bool,
)
    requires
        n >= 0,
        forall|i: int, j: int| #[trigger] before(i, j) == (key(i) <= key(j)),
    ensures
        ({
            let ord = order(before, select(window, n));
            let cs = changes(ord, series, differ, ord.len() as int);
            &&& forall|a: int, b: int| #[trigger]
                adjacent(n, window, key, series, a, b) && differ(a, b) ==> cs.contains((a, b))
            &&& forall|c: int|
                0 <= c < cs.len() ==> adjacent(
                    n,
                    window,
                    key,
                    series,
                    (#[trigger] cs[c]).0,
                    cs[c].1,
                ) && differ(cs[c].0, cs[c].1)
            &&& forall|c: int, d: int|
                0 <= c < d < cs.len() ==> earlier(key, (#[trigger] cs[c]).1, (#[trigger] cs[d]).1)
        }),
{
    let idx = select(window, n);
    let ord = order(before, idx);
    let m = ord.len() as int;
    let cs = changes(ord, series, differ, m);
    select_is_exact(window, n);
    order_is_stable(before, key, idx);
    assert forall|k: int| 0 <= k < m implies 0 <= #[trigger] ord[k] < n && window(ord[k]) by {
        assert(ord.contains(ord[k]));
        let j = choose|j: int| 0 <= j < idx.len() && idx[j] == ord[k];
        assert(window(idx[j]));
    }
    assert forall|a: int, b: int| #[trigger] adjacent(n, window, key, series, a, b) && differ(a, b)
        implies cs.contains((a, b)) by {
        assert(idx.contains(a) && idx.contains(b));
        assert(ord.contains(a) && ord.contains(b));
        let i = choose|i: int| 0 <= i < m && ord[i] == a;
        let j = choose|j: int| 0 <= j < m && ord[j] == b;
        if j <= i {
            if j < i {
                assert(earlier(key, ord[j], ord[i]));
            }
            assert(false);
        }
        assert forall|k: int| i < k < j implies !series(#[trigger] ord[k], b) by {
            assert(earlier(key, ord[i], ord[k]) && earlier(key, ord[k], ord[j]));
            assert(window(ord[k]));
        }
        change_is_kept(ord, series, differ, i, j, m);
    }
    let w = changes_are_sound(ord, series, differ, m);
    assert forall|c: int| 0 <= c < cs.len() implies adjacent(
        n,
        window,
        key,
        series,
        (#[trigger] cs[c]).0,
        cs[c].1,
    ) && differ(cs[c].0, cs[c].1) by {
        let i = w[c].0;
        let j = w[c].1;
        assert(earlier(key, ord[i], ord[j]));
        assert forall|x: int|
            0 <= x < n && #[trigger] window(x) && series(x, ord[j]) implies !(earlier(
            key,
            ord[i],
            x,
        ) && earlier(key, x, ord[j])) by {
            assert(idx.contains(x));
            assert(ord.contains(x));
            let k = choose|k: int| 0 <= k < m && ord[k] == x;
            if k < i {
                assert(earlier(key, ord[k], ord[i]));
            } else if k > j {
                assert(earlier(key, ord[j], ord[k]));
            } else if i < k < j {
                assert(!series(ord[k], ord[j]));
            }
        }
    }
    assert forall|c: int, d: int| 0 <= c < d < cs.len() implies earlier(
        key,
        (#[trigger] cs[c]).1,
        (#[trigger] cs[d]).1,
    ) by {
        assert(w[c].1 < w[d].1);
        assert(earlier(key, ord[w[c].1], ord[w[d].1]));
    }
}

// ---------------------------------------------------------------------------
// Liveness
// ---------------------------------------------------------------------------

/// What a query asks about: from its time on, of its org and its runner where it
/// names them.
pub open spec fn asked(q: TimelineQuery, ts: i64, org: Seq<char>, name: Seq<char>) -> bool {
    &&& ts >= q.since_ts
    &&& q.org matches Some(o) ==> o@ == org
    &&& q.runner matches Some(r) ==> r@ == name
}

/// Samples `a` and `b` are of one runner and in the window, `a` before `b`, with no
/// other of the runner between them. Samples of one time count as written.
pub open spec fn sampled_in_turn(rows: Seq<RunnerSample>, q: TimelineQuery, a: int, b: int) -> bool {
    &&& 0 <= a < rows.len() && 0 <= b < rows.len()
    &&& rows[a].org@ == rows[b].org@ && rows[a].agent_id == rows[b].agent_id
    &&& asked(q, rows[a].ts, rows[a].org@, rows[a].name@)
    &&& asked(q, rows[b].ts, rows[b].org@, rows[b].name@)
    &&& rows[a].ts < rows[b].ts || rows[a].ts == rows[b].ts && a < b
    &&& forall|c: int|
        0 <= c < rows.len() && c != a && c != b && (#[trigger] rows[c]).org@ == rows[b].org@
            && rows[c].agent_id == rows[b].agent_id && asked(
            q,
            rows[c].ts,
            rows[c].org@,
            rows[c].name@,
        ) ==> {
            ||| rows[c].ts < rows[a].ts
            ||| rows[c].ts == rows[a].ts && c < a
            ||| rows[c].ts > rows[b].ts
            ||| rows[c].ts == rows[b].ts && c > b
        }
}

/// The transition that two samples of a runner make.
pub open spec fn tells_liveness(t: Change, was: RunnerSample, now: RunnerSample) -> bool {
    &&& t.ts == now.ts
    &&& t.at == rfc3339(now.ts as int)
    &&& t.org@ == now.org@
    &&& t.edge matches Edge::Liveness { runner, from, to } && runner@ == now.name@ && from
        == was.liveness && to == now.liveness
}

/// Every change of a runner's liveness is told: where two samples in turn differ,
/// whatever the two states, the stream holds the transition at the later one's time
/// from the one state to the other.
pub proof fn every_liveness_change_is_told(
    rows: Seq<RunnerSample>,
    q: TimelineQuery,
    a: int,
    b: int,
)
    requires
        sampled_in_turn(rows, q, a, b),
        rows[a].liveness != rows[b].liveness,
    ensures
        exists|k: int|
            0 <= k < liveness_stream(rows, q).len() && tells_liveness(
                #[trigger] liveness_stream(rows, q)[k],
                rows[a],
                rows[b],
            ),
{
    let n = rows.len() as int;
    let key = |i: int| rows[i].ts as int;
    changes_of_window(
        n,
        local_window(rows, q),
        local_by_ts(rows),
        key,
        local_series(rows),
        liveness_differs(rows),
    );
    let ord = order(local_by_ts(rows), select(local_window(rows, q), n));
    let cs = changes(ord, local_series(rows), liveness_differs(rows), ord.len() as int);
    assert(adjacent(n, local_window(rows, q), key, local_series(rows), a, b)) by {
        assert forall|c: int|
            0 <= c < n && #[trigger] local_window(rows, q)(c) && local_series(rows)(
                c,
                b,
            ) implies !(earlier(key, a, c) && earlier(key, c, b)) by {
            assert(rows[c].org@ == rows[b].org@);
        }
    }
    assert(liveness_differs(rows)(a, b));
    assert(cs.contains((a, b)));
    let c = choose|c: int| 0 <= c < cs.len() && cs[c] == (a, b);
    let k = cs.len() - 1 - c;
    assert(tells_liveness(liveness_stream(rows, q)[k], rows[a], rows[b]));
}

/// No change of liveness is told that was not sampled: each transition of the
/// stream is that of two samples in turn that differ, no two are of one sample, and
/// the newest come first.
pub proof fn told_liveness_changes_were_sampled(rows: Seq<RunnerSample>, q: TimelineQuery) -> (w:
    Seq<(int, int)>)
    ensures
        w.len() == liveness_stream(rows, q).len(),
        forall|k: int|
            0 <= k < w.len() ==> {
                &&& sampled_in_turn(rows, q, (#[trigger] w[k]).0, w[k].1)
                &&& rows[w[k].0].liveness != rows[w[k].1].liveness
                &&& tells_liveness(liveness_stream(rows, q)[k], rows[w[k].0], rows[w[k].1])
            },
        forall|k: int, m: int|
            0 <= k < m < w.len() ==> (#[trigger] w[k]).1 != (#[trigger] w[m]).1 && rows[w[k].1].ts
                >= rows[w[m].1].ts,
{
    let n = rows.len() as int;
    let key = |i: int| rows[i].ts as int;
    changes_of_window(
        n,
        local_window(rows, q),
        local_by_ts(rows),
        key,
        local_series(rows),
        liveness_differs(rows),
    );
    let ord = order(local_by_ts(rows), select(local_window(rows, q), n));
    let cs = changes(ord, local_series(rows), liveness_differs(rows), ord.len() as int);
    let w = cs.reverse();
    assert forall|k: int| 0 <= k < w.len() implies {
        &&& sampled_in_turn(rows, q, (#[trigger] w[k]).0, w[k].1)
        &&& rows[w[k].0].liveness != rows[w[k].1].liveness
        &&& tells_liveness(liveness_stream(rows, q)[k], rows[w[k].0], rows[w[k].1])
    } by {
        let c = cs.len() - 1 - k;
        assert(cs[c] == w[k]);
        let (a, b) = cs[c];
        assert(adjacent(n, local_window(rows, q), key, local_series(rows), a, b));
        assert(liveness_differs(rows)(a, b));
        assert forall|x: int|
            0 <= x < rows.len() && x != a && x != b && (#[trigger] rows[x]).org@ == rows[b].org@
                && rows[x].agent_id == rows[b].agent_id && asked(
                q,
                rows[x].ts,
                rows[x].org@,
                rows[x].name@,
            ) implies {
            ||| rows[x].ts < rows[a].ts
            ||| rows[x].ts == rows[a].ts && x < a
            ||| rows[x].ts > rows[b].ts
            ||| rows[x].ts == rows[b].ts && x > b
        } by {
            assert(local_window(rows, q)(x));
            assert(local_series(rows)(x, b));
        }
    }
    assert forall|k: int, m: int| 0 <= k < m < w.len() implies (#[trigger] w[k]).1 != (
    #[trigger] w[m]).1 && rows[w[k].1].ts >= rows[w[m].1].ts by {
        assert(earlier(key, cs[cs.len() - 1 - m].1, cs[cs.len() - 1 - k].1));
    }
    w
}

// ---------------------------------------------------------------------------
// GitHub's readings
// ---------------------------------------------------------------------------

/// Readings `a` and `b` are of one runner and in the window, `a` before `b`, with no
/// other of the runner between them.
pub open spec fn read_in_turn(rows: Seq<ApiSample>, q: TimelineQuery, a: int, b: int) -> bool {
    &&& 0 <= a < rows.len() && 0 <= b < rows.len()
    &&& rows[a].org@ == rows[b].org@ && rows[a].agent_id == rows[b].agent_id
    &&& asked(q, rows[a].ts, rows[a].org@, rows[a].name@)
    &&& asked(q, rows[b].ts, rows[b].org@, rows[b].name@)
    &&& rows[a].ts < rows[b].ts || rows[a].ts == rows[b].ts && a < b
    &&& forall|c: int|
        0 <= c < rows.len() && c != a && c != b && (#[trigger] rows[c]).org@ == rows[b].org@ && rows[c].agent_id == rows[b].agent_id && asked(q, rows[c].ts, rows[c].org@, rows[c].name@) ==> {
            ||| rows[c].ts < rows[a].ts
            ||| rows[c].ts == rows[a].ts && c < a
            ||| rows[c].ts > rows[b].ts
            ||| rows[c].ts == rows[b].ts && c > b
        }
}

/// The transition at a reading.
pub open spec fn tells_online(t: Change, now: ApiSample) -> bool {
    &&& t.ts == now.ts
    &&& t.at == rfc3339(now.ts as int)
    &&& t.org@ == now.org@
    &&& t.edge matches Edge::GithubOnline { runner, online } && runner@ == now.name@ && online
        == now.online
}

/// Every flip of the online bit is told: where two readings in turn differ, the
/// stream holds the transition at the later one's time, with what it said.
pub proof fn every_online_change_is_told(rows: Seq<ApiSample>, q: TimelineQuery, a: int, b: int)
    requires
        read_in_turn(rows, q, a, b),
        rows[a].online != rows[b].online,
    ensures
        exists|k: int|
            0 <= k < online_stream(rows, q).len() && tells_online(#[trigger] online_stream(rows, q)[k], rows[b]),
{
    let n = rows.len() as int;
    let key = |i: int| rows[i].ts as int;
    let win = api_window(rows, q);
    changes_of_window(n, win, api_by_ts(rows), key, api_series(rows), online_differs(rows));
    let ord = order(api_by_ts(rows), select(win, n));
    let cs = changes(ord, api_series(rows), online_differs(rows), ord.len() as int);
    assert(adjacent(n, win, key, api_series(rows), a, b)) by {
        assert forall|c: int|
            0 <= c < n && #[trigger] win(c) && api_series(rows)(c, b) implies !(earlier(key, a, c)
            && earlier(key, c, b)) by {
            assert(rows[c].org@ == rows[b].org@);
        }
    }
    assert(online_differs(rows)(a, b));
    assert(cs.contains((a, b)));
    let c = choose|c: int| 0 <= c < cs.len() && cs[c] == (a, b);
    let k = cs.len() - 1 - c;
    assert(tells_online(online_stream(rows, q)[k], rows[b]));
}

/// No flip is told that was not read: each transition is that of two readings in turn
/// that differ, no two are of one reading, and the newest come first.
pub proof fn told_online_changes_were_read(rows: Seq<ApiSample>, q: TimelineQuery) -> (w: Seq<(int, int)>)
    ensures
        w.len() == online_stream(rows, q).len(),
        forall|k: int|
            0 <= k < w.len() ==> {
                &&& read_in_turn(rows, q, (#[trigger] w[k]).0, w[k].1)
                &&& rows[w[k].0].online != rows[w[k].1].online
                &&& tells_online(online_stream(rows, q)[k], rows[w[k].1])
            },
        forall|k: int, m: int|
            0 <= k < m < w.len() ==> (#[trigger] w[k]).1 != (#[trigger] w[m]).1 && rows[w[k].1].ts
                >= rows[w[m].1].ts,
{
    let n = rows.len() as int;
    let key = |i: int| rows[i].ts as int;
    let win = api_window(rows, q);
    changes_of_window(n, win, api_by_ts(rows), key, api_series(rows), online_differs(rows));
    let ord = order(api_by_ts(rows), select(win, n));
    let cs = changes(ord, api_series(rows), online_differs(rows), ord.len() as int);
    let w = cs.reverse();
    assert forall|k: int| 0 <= k < w.len() implies {
        &&& read_in_turn(rows, q, (#[trigger] w[k]).0, w[k].1)
        &&& rows[w[k].0].online != rows[w[k].1].online
        &&& tells_online(online_stream(rows, q)[k], rows[w[k].1])
    } by {
        let c = cs.len() - 1 - k;
        assert(cs[c] == w[k]);
        let (a, b) = cs[c];
        assert(adjacent(n, win, key, api_series(rows), a, b));
        assert(online_differs(rows)(a, b));
        assert forall|c: int|
            0 <= c < rows.len() && c != a && c != b && (#[trigger] rows[c]).org@ == rows[b].org@ && rows[c].agent_id == rows[b].agent_id && asked(q, rows[c].ts, rows[c].org@, rows[c].name@) implies {
            ||| rows[c].ts < rows[a].ts
            ||| rows[c].ts == rows[a].ts && c < a
            ||| rows[c].ts > rows[b].ts
            ||| rows[c].ts == rows[b].ts && c > b
        } by {
            assert(win(c));
            assert(api_series(rows)(c, b));
        }
    }
    assert forall|k: int, m: int| 0 <= k < m < w.len() implies (#[trigger] w[k]).1 != (
    #[trigger] w[m]).1 && rows[w[k].1].ts >= rows[w[m].1].ts by {
        assert(earlier(key, cs[cs.len() - 1 - m].1, cs[cs.len() - 1 - k].1));
    }
    w
}

// ---------------------------------------------------------------------------
// Outcomes of asking GitHub
// ---------------------------------------------------------------------------

/// What a query asks about of the orgs: from its time on, of its org where it names
/// one, and of the orgs in which the runner that it names was ever sampled.
pub open spec fn asked_org(q: TimelineQuery, local: Seq<RunnerSample>, ts: i64, org: Seq<char>) -> bool {
    &&& ts >= q.since_ts
    &&& q.org matches Some(o) ==> o@ == org
    &&& q.runner matches Some(r) ==> exists|k: int|
        0 <= k < local.len() && #[trigger] local[k].name@ == r@ && local[k].org@ == org
}

/// Outcomes `a` and `b` are of one org and in the window, `a` before `b`, with no other
/// of the org between them.
pub open spec fn tried_in_turn(rows: Seq<ReconcileSample>, local: Seq<RunnerSample>, q: TimelineQuery, a: int, b: int) -> bool {
    &&& 0 <= a < rows.len() && 0 <= b < rows.len()
    &&& rows[a].org@ == rows[b].org@
    &&& asked_org(q, local, rows[a].ts, rows[a].org@)
    &&& asked_org(q, local, rows[b].ts, rows[b].org@)
    &&& rows[a].ts < rows[b].ts || rows[a].ts == rows[b].ts && a < b
    &&& forall|c: int|
        0 <= c < rows.len() && c != a && c != b && (#[trigger] rows[c]).org@ == rows[b].org@ && asked_org(q, local, rows[c].ts, rows[c].org@) ==> {
            ||| rows[c].ts < rows[a].ts
            ||| rows[c].ts == rows[a].ts && c < a
            ||| rows[c].ts > rows[b].ts
            ||| rows[c].ts == rows[b].ts && c > b
        }
}

/// The transition at an outcome.
pub open spec fn tells_outcome(t: Change, now: ReconcileSample) -> bool {
    &&& t.ts == now.ts
    &&& t.at == rfc3339(now.ts as int)
    &&& t.org@ == now.org@
    &&& now.ok ==> t.edge == Edge::Reconcile(ReconcileEdge::Recovered)
    &&& !now.ok ==> (t.edge matches Edge::Reconcile(
        ReconcileEdge::Failed { error_kind, http_status },
    ) && error_kind == now.error_kind && http_status == now.http_status)
}

/// Every turn of an org's outcomes is told: where one succeeded and the next did not,
/// or the other way round, the stream holds a failure with its cause, or a recovery.
pub proof fn every_outcome_change_is_told(rows: Seq<ReconcileSample>, local: Seq<RunnerSample>, q: TimelineQuery, a: int, b: int)
    requires
        tried_in_turn(rows, local, q, a, b),
        rows[a].ok != rows[b].ok,
    ensures
        exists|k: int|
            0 <= k < reconcile_stream(rows, local, q).len() && tells_outcome(#[trigger] reconcile_stream(rows, local, q)[k], rows[b]),
{
    let n = rows.len() as int;
    let key = |i: int| rows[i].ts as int;
    let win = reconcile_window(rows, local, q);
    changes_of_window(n, win, reconcile_by_ts(rows), key, reconcile_series(rows), outcome_differs(rows));
    let ord = order(reconcile_by_ts(rows), select(win, n));
    let cs = changes(ord, reconcile_series(rows), outcome_differs(rows), ord.len() as int);
    assert(adjacent(n, win, key, reconcile_series(rows), a, b)) by {
        assert forall|c: int|
            0 <= c < n && #[trigger] win(c) && reconcile_series(rows)(c, b) implies !(earlier(key, a, c)
            && earlier(key, c, b)) by {
            assert(rows[c].org@ == rows[b].org@);
        }
    }
    assert(outcome_differs(rows)(a, b));
    assert(cs.contains((a, b)));
    let c = choose|c: int| 0 <= c < cs.len() && cs[c] == (a, b);
    let k = cs.len() - 1 - c;
    assert(tells_outcome(reconcile_stream(rows, local, q)[k], rows[b]));
}

/// No turn is told that was not met: each transition is that of two outcomes in turn
/// that differ, no two are of one outcome, and the newest come first.
pub proof fn told_outcome_changes_were_met(rows: Seq<ReconcileSample>, local: Seq<RunnerSample>, q: TimelineQuery) -> (w: Seq<(int, int)>)
    ensures
        w.len() == reconcile_stream(rows, local, q).len(),
        forall|k: int|
            0 <= k < w.len() ==> {
                &&& tried_in_turn(rows, local, q, (#[trigger] w[k]).0, w[k].1)
                &&& rows[w[k].0].ok != rows[w[k].1].ok
                &&& tells_outcome(reconcile_stream(rows, local, q)[k], rows[w[k].1])
            },
        forall|k: int, m: int|
            0 <= k < m < w.len() ==> (#[trigger] w[k]).1 != (#[trigger] w[m]).1 && rows[w[k].1].ts
                >= rows[w[m].1].ts,
{
    let n = rows.len() as int;
    let key = |i: int| rows[i].ts as int;
    let win = reconcile_window(rows, local, q);
    changes_of_window(n, win, reconcile_by_ts(rows), key, reconcile_series(rows), outcome_differs(rows));
    let ord = order(reconcile_by_ts(rows), select(win, n));
    let cs = changes(ord, reconcile_series(rows), outcome_differs(rows), ord.len() as int);
    let w = cs.reverse();
    assert forall|k: int| 0 <= k < w.len() implies {
        &&& tried_in_turn(rows, local, q, (#[trigger] w[k]).0, w[k].1)
        &&& rows[w[k].0].ok != rows[w[k].1].ok
        &&& tells_outcome(reconcile_stream(rows, local, q)[k], rows[w[k].1])
    } by {
        let c = cs.len() - 1 - k;
        assert(cs[c] == w[k]);
        let (a, b) = cs[c];
        assert(adjacent(n, win, key, reconcile_series(rows), a, b));
        assert(outcome_differs(rows)(a, b));
        assert forall|c: int|
            0 <= c < rows.len() && c != a && c != b && (#[trigger] rows[c]).org@ == rows[b].org@ && asked_org(q, local, rows[c].ts, rows[c].org@) implies {
            ||| rows[c].ts < rows[a].ts
            ||| rows[c].ts == rows[a].ts && c < a
            ||| rows[c].ts > rows[b].ts
            ||| rows[c].ts == rows[b].ts && c > b
        } by {
            assert(win(c));
            assert(reconcile_series(rows)(c, b));
        }
    }
    assert forall|k: int, m: int| 0 <= k < m < w.len() implies (#[trigger] w[k]).1 != (
    #[trigger] w[m]).1 && rows[w[k].1].ts >= rows[w[m].1].ts by {
        assert(earlier(key, cs[cs.len() - 1 - m].1, cs[cs.len() - 1 - k].1));
    }
    w
}

// ---------------------------------------------------------------------------
// Jobs
// ---------------------------------------------------------------------------

/// The transition at one end of a job.
pub open spec fn tells_job(t: JobChange, j: JobEvent, started: bool, ts: i64) -> bool {
    &&& t.ts == ts
    &&& t.at == rfc3339(ts as int)
    &&& t.org@ == j.org@
    &&& t.runner@ == j.runner_name@
    &&& t.repo@ == j.repo@
    &&& t.job@ == j.job@
    &&& started ==> t.edge == JobEdge::Started
    &&& !started ==> (t.edge matches JobEdge::Completed { conclusion } && conclusion
        == j.conclusion)
}

/// The time of one end of a job, where it has come.
pub open spec fn end_of(j: JobEvent, started: bool) -> Option<i64> {
    if started {
        j.started_at
    } else {
        j.completed_at
    }
}

proof fn job_ends_are(rows: Seq<JobEvent>, q: TimelineQuery)
    ensures
        forall|e: (bool, int)|
            #![trigger job_ends(rows, q).contains(e)]
            job_ends(rows, q).contains(e) <==> 0 <= e.1 < rows.len() && end_of(rows[e.1], e.0)
                is Some && asked(
                q,
                end_of(rows[e.1], e.0)->0,
                rows[e.1].org@,
                rows[e.1].runner_name@,
            ),
        forall|a: int, b: int|
            0 <= a < b < job_ends(rows, q).len() ==> #[trigger] job_ends(rows, q)[a]
                != #[trigger] job_ends(rows, q)[b],
{
    let n = rows.len() as int;
    let p = started_window(rows, q);
    let c = completed_window(rows, q);
    let s = select(p, n);
    let d = select(c, n);
    let ends = job_ends(rows, q);
    select_is_exact(p, n);
    select_is_exact(c, n);
    assert forall|e: (bool, int)|
        #![trigger job_ends(rows, q).contains(e)]
        ends.contains(e) <==> 0 <= e.1 < rows.len() && end_of(rows[e.1], e.0) is Some && asked(
            q,
            end_of(rows[e.1], e.0)->0,
            rows[e.1].org@,
            rows[e.1].runner_name@,
        ) by {
        if ends.contains(e) {
            let k = choose|k: int| 0 <= k < ends.len() && ends[k] == e;
            if k < s.len() {
                assert(p(s[k]));
            } else {
                assert(c(d[k - s.len()]));
            }
        }
        if 0 <= e.1 < rows.len() && end_of(rows[e.1], e.0) is Some && asked(
            q,
            end_of(rows[e.1], e.0)->0,
            rows[e.1].org@,
            rows[e.1].runner_name@,
        ) {
            if e.0 {
                assert(p(e.1));
                assert(s.contains(e.1));
                let k = choose|k: int| 0 <= k < s.len() && s[k] == e.1;
                assert(ends[k] == e);
            } else {
                assert(c(e.1));
                assert(d.contains(e.1));
                let k = choose|k: int| 0 <= k < d.len() && d[k] == e.1;
                assert(ends[s.len() + k] == e);
            }
        }
    }
    assert forall|a: int, b: int| 0 <= a < b < ends.len() implies #[trigger] ends[a]
        != #[trigger] ends[b] by {
        if b < s.len() {
            assert(s[a] < s[b]);
        } else if a >= s.len() {
            assert(d[a - s.len()] < d[b - s.len()]);
        }
    }
}

proof fn jobs_ordered(rows: Seq<JobEvent>, q: TimelineQuery) -> (ord: Seq<int>)
    ensures
        ord == order(
            ends_newest_first(rows, job_ends(rows, q)),
            select(any_row(), job_ends(rows, q).len() as int),
        ),
        forall|k: int| 0 <= k < ord.len() ==> 0 <= #[trigger] ord[k] < job_ends(rows, q).len(),
        forall|y: int| 0 <= y < job_ends(rows, q).len() ==> #[trigger] ord.contains(y),
        ascends(
            |k: int| -(crate::store::reader::timeline::edges::end_time(rows, job_ends(rows, q)[k]) as int),
            ord,
        ),
{
    let ends = job_ends(rows, q);
    let n = ends.len() as int;
    let before = ends_newest_first(rows, ends);
    let key = |k: int| -(crate::store::reader::timeline::edges::end_time(rows, ends[k]) as int);
    let all = any_row();
    let idx = select(all, n);
    select_is_exact(all, n);
    order_is_stable(before, key, idx);
    let ord = order(before, idx);
    assert forall|k: int| 0 <= k < ord.len() implies 0 <= #[trigger] ord[k] < n by {
        assert(ord.contains(ord[k]));
        let j = choose|j: int| 0 <= j < idx.len() && idx[j] == ord[k];
        assert(0 <= idx[j] < n);
    }
    assert forall|y: int| 0 <= y < n implies #[trigger] ord.contains(y) by {
        assert(all(y));
        assert(idx.contains(y));
    }
    ord
}

/// Every end of a job that lies in the window is told: its start and its
/// completion, each at its own time, the completion with the conclusion.
pub proof fn every_job_end_is_told(rows: Seq<JobEvent>, q: TimelineQuery, i: int, started: bool)
    requires
        0 <= i < rows.len(),
        end_of(rows[i], started) matches Some(ts) && asked(q, ts, rows[i].org@, rows[i].runner_name@),
    ensures
        exists|k: int|
            0 <= k < job_stream(rows, q).len() && tells_job(
                #[trigger] job_stream(rows, q)[k],
                rows[i],
                started,
                end_of(rows[i], started)->0,
            ),
{
    let ends = job_ends(rows, q);
    job_ends_are(rows, q);
    let ord = jobs_ordered(rows, q);
    assert(ends.contains((started, i)));
    let e = choose|e: int| 0 <= e < ends.len() && ends[e] == (started, i);
    assert(ord.contains(e));
    let k = choose|k: int| 0 <= k < ord.len() && ord[k] == e;
    assert(job_stream(rows, q)[k] == job_change(rows, ends[ord[k]]));
}

/// Nothing is told of jobs that did not happen: each transition is one end of one
/// job in the window, none is told twice, and the newest come first.
pub proof fn told_job_ends_happened(rows: Seq<JobEvent>, q: TimelineQuery) -> (w: Seq<(bool, int)>)
    ensures
        w.len() == job_stream(rows, q).len(),
        forall|k: int|
            0 <= k < w.len() ==> {
                &&& 0 <= (#[trigger] w[k]).1 < rows.len()
                &&& end_of(rows[w[k].1], w[k].0) matches Some(ts) && asked(
                    q,
                    ts,
                    rows[w[k].1].org@,
                    rows[w[k].1].runner_name@,
                ) && tells_job(job_stream(rows, q)[k], rows[w[k].1], w[k].0, ts)
            },
        forall|k: int, m: int|
            0 <= k < m < w.len() ==> #[trigger] w[k] != #[trigger] w[m] && job_stream(rows, q)[k].ts
                >= job_stream(rows, q)[m].ts,
{
    let ends = job_ends(rows, q);
    job_ends_are(rows, q);
    let ord = jobs_ordered(rows, q);
    let key = |k: int| -(crate::store::reader::timeline::edges::end_time(rows, ends[k]) as int);
    let w = ord.map_values(|k: int| ends[k]);
    assert forall|k: int| 0 <= k < w.len() implies {
        &&& 0 <= (#[trigger] w[k]).1 < rows.len()
        &&& end_of(rows[w[k].1], w[k].0) matches Some(ts) && asked(
            q,
            ts,
            rows[w[k].1].org@,
            rows[w[k].1].runner_name@,
        ) && tells_job(job_stream(rows, q)[k], rows[w[k].1], w[k].0, ts)
    } by {
        assert(0 <= ord[k] < ends.len());
        assert(ends.contains(ends[ord[k]]));
        assert(job_stream(rows, q)[k] == job_change(rows, ends[ord[k]]));
    }
    assert forall|k: int, m: int| 0 <= k < m < w.len() implies #[trigger] w[k] != #[trigger] w[m]
        && job_stream(rows, q)[k].ts >= job_stream(rows, q)[m].ts by {
        assert(earlier(key, ord[k], ord[m]));
        assert(ord[k] != ord[m]);
        assert(0 <= ord[k] < ends.len() && 0 <= ord[m] < ends.len());
        if ord[k] < ord[m] {
            assert(ends[ord[k]] != ends[ord[m]]);
        } else {
            assert(ends[ord[m]] != ends[ord[k]]);
        }
        assert(job_stream(rows, q)[k] == job_change(rows, ends[ord[k]]));
        assert(job_stream(rows, q)[m] == job_change(rows, ends[ord[m]]));
    }
    w
}

// ---------------------------------------------------------------------------
// Samples
// ---------------------------------------------------------------------------

/// A point with what a sample says of its runner.
pub open spec fn tells_sample(p: TimelinePoint, r: RunnerSample) -> bool {
    p.ts == r.ts && p.org@ == r.org@ && p.runner@ == r.name@ && p.liveness == r.liveness
}

/// Reading `j` is the newest of the sample's runner at or before the sample.
pub open spec fn newest_before(api: Seq<ApiSample>, r: RunnerSample, j: int) -> bool {
    &&& 0 <= j < api.len()
    &&& api[j].org@ == r.org@ && api[j].agent_id == r.agent_id
    &&& api[j].ts <= r.ts
    &&& forall|k: int|
        0 <= k < api.len() && (#[trigger] api[k]).org@ == r.org@ && api[k].agent_id == r.agent_id
            && api[k].ts <= r.ts ==> api[k].ts <= api[j].ts
}

/// No reading of the sample's runner was there by then.
pub open spec fn unread_before(api: Seq<ApiSample>, r: RunnerSample) -> bool {
    forall|k: int|
        0 <= k < api.len() && (#[trigger] api[k]).org@ == r.org@ && api[k].agent_id == r.agent_id
            ==> api[k].ts > r.ts
}

/// What a reading says of a runner at a later time: its state while its age is
/// within the window, and its age alone from then on.
pub open spec fn seen_at(v: GhView, s: ApiSample, ts: int, max_age: u64) -> bool {
    let age = if ts - s.ts > i64::MAX {
        i64::MAX as int
    } else {
        ts - s.ts
    };
    if age <= max_age {
        v matches GhView::Fresh { state, age_s } && state.online == s.online && state.busy == s.busy
            && age_s == age
    } else {
        v matches GhView::Stale { age_s } && age_s == age
    }
}

proof fn joined_readings_are_the_newest(api: Seq<ApiSample>, r: RunnerSample)
    ensures
        forall|j: int| #[trigger] readings_of(api, r).contains(j) <==> newest_before(api, r, j),
        readings_of(api, r).len() == 0 <==> unread_before(api, r),
{
    let n = api.len() as int;
    let lo = i64::MIN as int;
    let hi = r.ts as int;
    reading_time_is_within(api, r.org@, r.agent_id, lo, hi, n);
    let t = reading_time(api, r.org@, r.agent_id, lo, hi, n);
    reading_time_is_met(api, r.org@, r.agent_id, lo, hi, n);
    let hits = readings_of(api, r);
    match t {
        None => {
            assert forall|k: int|
                0 <= k < api.len() && (#[trigger] api[k]).org@ == r.org@ && api[k].agent_id
                    == r.agent_id implies api[k].ts > r.ts by {
                if api[k].ts <= r.ts {
                    assert(is_of(api[k], r.org@, r.agent_id));
                }
            }
        },
        Some(t) => {
            let p = of_runner_at(api, r.org@, r.agent_id, t);
            select_is_exact(p, n);
            let m = choose|m: int|
                0 <= m < n && is_of(#[trigger] api[m], r.org@, r.agent_id) && api[m].ts == t;
            assert(p(m));
            assert(hits.contains(m));
            assert forall|j: int| #[trigger] hits.contains(j) <==> newest_before(api, r, j) by {
                if hits.contains(j) {
                    let k = choose|k: int| 0 <= k < hits.len() && hits[k] == j;
                    assert(p(hits[k]));
                    assert forall|x: int|
                        0 <= x < api.len() && (#[trigger] api[x]).org@ == r.org@
                            && api[x].agent_id == r.agent_id && api[x].ts
                            <= r.ts implies api[x].ts <= api[j].ts by {
                        assert(is_of(api[x], r.org@, r.agent_id));
                    }
                }
                if newest_before(api, r, j) {
                    assert(is_of(api[j], r.org@, r.agent_id));
                    assert(api[m].org@ == r.org@);
                    assert(api[j].ts == t);
                    assert(p(j));
                }
            }
            assert(api[m].org@ == r.org@ && api[m].ts <= r.ts);
        },
    }
}

proof fn points_are(
    rows: Seq<RunnerSample>,
    api: Seq<ApiSample>,
    idx: Seq<int>,
    max_age: u64,
    p: TimelinePoint,
)
    ensures
        points_of(rows, api, idx, max_age).contains(p) <==> exists|k: int|
            0 <= k < idx.len() && sample_points(api, rows[#[trigger] idx[k]], max_age).contains(p),
    decreases idx.len(),
{
    if idx.len() > 0 {
        let init = idx.drop_last();
        points_are(rows, api, init, max_age, p);
        let a = points_of(rows, api, init, max_age);
        let b = sample_points(api, rows[idx.last()], max_age);
        let all = points_of(rows, api, idx, max_age);
        assert(all == a + b);
        if all.contains(p) {
            let k = choose|k: int| 0 <= k < all.len() && all[k] == p;
            if k < a.len() {
                assert(a[k] == p);
                let m = choose|m: int|
                    0 <= m < init.len() && sample_points(
                        api,
                        rows[#[trigger] init[m]],
                        max_age,
                    ).contains(p);
                assert(idx[m] == init[m]);
            } else {
                assert(b[k - a.len()] == p);
                assert(idx[idx.len() - 1] == idx.last());
            }
        }
        if exists|k: int|
            0 <= k < idx.len() && sample_points(api, rows[#[trigger] idx[k]], max_age).contains(p) {
            let k = choose|k: int|
                0 <= k < idx.len() && sample_points(
                    api,
                    rows[#[trigger] idx[k]],
                    max_age,
                ).contains(p);
            if k < init.len() {
                assert(init[k] == idx[k]);
                assert(a.contains(p));
                let m = choose|m: int| 0 <= m < a.len() && a[m] == p;
                assert(all[m] == p);
            } else {
                let m = choose|m: int| 0 <= m < b.len() && b[m] == p;
                assert(all[a.len() + m] == p);
            }
        }
    }
}

/// Every sample of the window is told with what GitHub had said by then: with each
/// newest reading at or before it, its age taken at the sample, and as unknown only
/// where there was none.
pub proof fn every_sample_is_told(
    rows: Seq<RunnerSample>,
    api: Seq<ApiSample>,
    q: TimelineQuery,
    max_age: u64,
    i: int,
)
    requires
        0 <= i < rows.len(),
        asked(q, rows[i].ts, rows[i].org@, rows[i].name@),
    ensures
        unread_before(api, rows[i]) ==> exists|k: int|
            0 <= k < sample_stream(rows, api, q, max_age).len() && tells_sample(
                #[trigger] sample_stream(rows, api, q, max_age)[k],
                rows[i],
            ) && sample_stream(rows, api, q, max_age)[k].github is Unknown,
        forall|j: int| #[trigger]
            newest_before(api, rows[i], j) ==> exists|k: int|
                0 <= k < sample_stream(rows, api, q, max_age).len() && tells_sample(
                    #[trigger] sample_stream(rows, api, q, max_age)[k],
                    rows[i],
                ) && seen_at(
                    sample_stream(rows, api, q, max_age)[k].github,
                    api[j],
                    rows[i].ts as int,
                    max_age,
                ),
{
    let n = rows.len() as int;
    let win = local_window(rows, q);
    let idx = select(win, n);
    let before = samples_newest_first(rows);
    let ord = order(before, idx);
    let r = rows[i];
    let st = sample_stream(rows, api, q, max_age);
    select_is_exact(win, n);
    order_is_a_permutation(before, idx);
    assert(win(i));
    assert(ord.contains(i)) by {
        broadcast use vstd::seq_lib::group_to_multiset_ensures;

        assert(idx.contains(i));
        assert(idx.to_multiset().count(i) > 0);
    }
    let m = choose|m: int| 0 <= m < ord.len() && ord[m] == i;
    joined_readings_are_the_newest(api, r);
    let hits = readings_of(api, r);
    let pts = sample_points(api, r, max_age);
    if unread_before(api, r) {
        let p = pts[0];
        assert(pts.contains(p));
        assert(sample_points(api, rows[ord[m]], max_age).contains(p));
        points_are(rows, api, ord, max_age, p);
        let k = choose|k: int| 0 <= k < st.len() && st[k] == p;
        assert(tells_sample(st[k], r) && st[k].github is Unknown);
    }
    assert forall|j: int| #[trigger] newest_before(api, r, j) implies exists|k: int|
        0 <= k < st.len() && tells_sample(#[trigger] st[k], r) && seen_at(
            st[k].github,
            api[j],
            r.ts as int,
            max_age,
        ) by {
        assert(hits.contains(j));
        let h = choose|h: int| 0 <= h < hits.len() && hits[h] == j;
        let p = pts[h];
        assert(pts.contains(p));
        assert(sample_points(api, rows[ord[m]], max_age).contains(p));
        points_are(rows, api, ord, max_age, p);
        let k = choose|k: int| 0 <= k < st.len() && st[k] == p;
        assert(tells_sample(st[k], r) && seen_at(st[k].github, api[j], r.ts as int, max_age));
    }
}

/// No point is told that was not sampled: each is a sample of the window with one of
/// the newest readings at or before it, or with none where there was none.
pub proof fn told_samples_were_taken(
    rows: Seq<RunnerSample>,
    api: Seq<ApiSample>,
    q: TimelineQuery,
    max_age: u64,
    k: int,
) -> (i: int)
    requires
        0 <= k < sample_stream(rows, api, q, max_age).len(),
    ensures
        0 <= i < rows.len(),
        asked(q, rows[i].ts, rows[i].org@, rows[i].name@),
        tells_sample(sample_stream(rows, api, q, max_age)[k], rows[i]),
        unread_before(api, rows[i]) ==> sample_stream(rows, api, q, max_age)[k].github is Unknown,
        !unread_before(api, rows[i]) ==> exists|j: int| #[trigger]
            newest_before(api, rows[i], j) && seen_at(
                sample_stream(rows, api, q, max_age)[k].github,
                api[j],
                rows[i].ts as int,
                max_age,
            ),
{
    let n = rows.len() as int;
    let win = local_window(rows, q);
    let idx = select(win, n);
    let before = samples_newest_first(rows);
    let ord = order(before, idx);
    let st = sample_stream(rows, api, q, max_age);
    let p = st[k];
    select_is_exact(win, n);
    order_is_a_permutation(before, idx);
    assert(st.contains(p));
    points_are(rows, api, ord, max_age, p);
    let m = choose|m: int|
        0 <= m < ord.len() && sample_points(api, rows[#[trigger] ord[m]], max_age).contains(p);
    let i = ord[m];
    assert(idx.contains(i)) by {
        broadcast use vstd::seq_lib::group_to_multiset_ensures;

        assert(ord.contains(ord[m]));
        assert(ord.to_multiset().count(i) > 0);
    }
    let x = choose|x: int| 0 <= x < idx.len() && idx[x] == i;
    assert(win(idx[x]));
    joined_readings_are_the_newest(api, rows[i]);
    let hits = readings_of(api, rows[i]);
    let pts = sample_points(api, rows[i], max_age);
    let h = choose|h: int| 0 <= h < pts.len() && pts[h] == p;
    if hits.len() > 0 {
        assert(hits.contains(hits[h]));
        assert(newest_before(api, rows[i], hits[h]));
    }
    i
}

// ---------------------------------------------------------------------------
// The answer
// ---------------------------------------------------------------------------

proof fn placed_holds(s: Seq<Change>, x: Change, y: Change)
    ensures
        placed(s, x).contains(y) <==> s.contains(y) || y == x,
    decreases s.len(),
{
    let r = placed(s, x);
    if s.len() == 0 || s.last().ts >= x.ts {
        if s.contains(y) {
            let k = choose|k: int| 0 <= k < s.len() && s[k] == y;
            assert(r[k] == y);
        }
        if y == x {
            assert(r[s.len() as int] == y);
        }
    } else {
        let init = s.drop_last();
        let m = placed(init, x);
        placed_holds(init, x, y);
        if r.contains(y) {
            let k = choose|k: int| 0 <= k < r.len() && r[k] == y;
            if k < m.len() {
                assert(m[k] == y);
                if init.contains(y) {
                    let j = choose|j: int| 0 <= j < init.len() && init[j] == y;
                    assert(s[j] == y);
                }
            } else {
                assert(s[s.len() - 1] == y);
            }
        }
        if s.contains(y) {
            let k = choose|k: int| 0 <= k < s.len() && s[k] == y;
            if k < init.len() {
                assert(init[k] == y);
            } else {
                assert(r[m.len() as int] == y);
            }
        }
        if m.contains(y) {
            let k = choose|k: int| 0 <= k < m.len() && m[k] == y;
            assert(r[k] == y);
        }
    }
}

proof fn newest_first_holds(s: Seq<Change>, y: Change)
    ensures
        newest_first(s).contains(y) <==> s.contains(y),
    decreases s.len(),
{
    if s.len() > 0 {
        let init = s.drop_last();
        newest_first_holds(init, y);
        placed_holds(newest_first(init), s.last(), y);
        if s.contains(y) {
            let k = choose|k: int| 0 <= k < s.len() && s[k] == y;
            if k < init.len() {
                assert(init[k] == y);
            }
        }
        if init.contains(y) {
            let k = choose|k: int| 0 <= k < init.len() && init[k] == y;
            assert(s[k] == y);
        }
        if y == s.last() {
            assert(s[s.len() - 1] == y);
        }
    }
}

/// One of the three kinds of change that a window holds.
pub open spec fn is_change(db: Db, q: TimelineQuery, c: Change) -> bool {
    ||| liveness_stream(db.runner_samples@, q).contains(c)
    ||| online_stream(db.api_samples@, q).contains(c)
    ||| reconcile_stream(db.reconcile_samples@, db.runner_samples@, q).contains(c)
}

proof fn edges_are_the_changes(db: Db, q: TimelineQuery, c: Change)
    ensures
        edge_stream(db, q).contains(c) <==> is_change(db, q, c),
{
    let a = liveness_stream(db.runner_samples@, q);
    let b = online_stream(db.api_samples@, q);
    let d = reconcile_stream(db.reconcile_samples@, db.runner_samples@, q);
    let all = a + b + d;
    newest_first_holds(all, c);
    if all.contains(c) {
        let k = choose|k: int| 0 <= k < all.len() && all[k] == c;
        if k < a.len() {
            assert(a[k] == c);
        } else if k < a.len() + b.len() {
            assert(b[k - a.len()] == c);
        } else {
            assert(d[k - a.len() - b.len()] == c);
        }
    }
    if a.contains(c) {
        let k = choose|k: int| 0 <= k < a.len() && a[k] == c;
        assert(all[k] == c);
    }
    if b.contains(c) {
        let k = choose|k: int| 0 <= k < b.len() && b[k] == c;
        assert(all[a.len() + k] == c);
    }
    if d.contains(c) {
        let k = choose|k: int| 0 <= k < d.len() && d[k] == c;
        assert(all[a.len() + b.len() + k] == c);
    }
}

/// A cut keeps the newest, oldest first, and says whether it left any out.
pub open spec fn is_newest_of<T>(
    kept: Seq<T>,
    all: Seq<T>,
    ts: spec_fn(T) -> int,
    limit: nat,
) -> bool {
    &&& kept.len() <= limit
    &&& kept.len() <= all.len()
    &&& kept.len() < all.len() ==> kept.len() == limit
    &&& forall|i: int, j: int|
        0 <= i < j < kept.len() ==> ts(#[trigger] kept[i]) <= ts(#[trigger] kept[j])
    &&& forall|i: int| 0 <= i < kept.len() ==> all.contains(#[trigger] kept[i])
    &&& forall|x: T| #[trigger]
        all.contains(x) ==> kept.contains(x) || kept.len() < all.len() && forall|i: int|
            0 <= i < kept.len() ==> ts(x) <= ts(#[trigger] kept[i])
}

proof fn cut_is_newest<T>(all: Seq<T>, ts: spec_fn(T) -> int, limit: nat)
    requires
        forall|i: int, j: int|
            0 <= i < j < all.len() ==> ts(#[trigger] all[i]) >= ts(#[trigger] all[j]),
    ensures
        is_newest_of(newest_first_cut(all, limit), all, ts, limit),
{
    let kept = newest_first_cut(all, limit);
    let n = kept.len() as int;
    assert forall|i: int| 0 <= i < n implies #[trigger] kept[i] == all[n - 1 - i] by {}
    assert forall|i: int, j: int| 0 <= i < j < n implies ts(#[trigger] kept[i]) <= ts(
        #[trigger] kept[j],
    ) by {
        assert(ts(all[n - 1 - j]) >= ts(all[n - 1 - i]));
    }
    assert forall|x: T| #[trigger] all.contains(x) implies kept.contains(x) || kept.len()
        < all.len() && forall|i: int| 0 <= i < kept.len() ==> ts(x) <= ts(#[trigger] kept[i]) by {
        let k = choose|k: int| 0 <= k < all.len() && all[k] == x;
        if k < n {
            assert(kept[n - 1 - k] == x);
        } else {
            assert forall|i: int| 0 <= i < n implies ts(x) <= ts(#[trigger] kept[i]) by {
                assert(ts(all[n - 1 - i]) >= ts(all[k]));
            }
        }
    }
}

/// The transitions of an answer are those of the window: all of them where nothing
/// was left out, and otherwise the newest; in the order of their times, and no more
/// than were asked for.
pub proof fn an_answer_holds_the_changes(
    r: Timeline,
    db: Db,
    q: TimelineQuery,
    now: i64,
    max_age: u64,
)
    requires
        answers(r, db, q, now, max_age),
    ensures
        r.transitions.items@.len() <= q.limit,
        r.transitions.limited ==> r.transitions.items@.len() == q.limit,
        forall|i: int, j: int|
            0 <= i < j < r.transitions.items@.len() ==> (#[trigger] r.transitions.items@[i]).ts <= (
            #[trigger] r.transitions.items@[j]).ts,
        forall|i: int|
            0 <= i < r.transitions.items@.len() ==> is_change(
                db,
                q,
                (#[trigger] r.transitions.items@[i])@,
            ),
        forall|c: Change| #[trigger]
            is_change(db, q, c) ==> change_rows(r.transitions.items@).contains(c)
                || r.transitions.limited && forall|i: int|
                0 <= i < r.transitions.items@.len() ==> c.ts <= (
                #[trigger] r.transitions.items@[i]).ts,
        !r.transitions.limited ==> r.transitions.items@.len() == liveness_stream(
            db.runner_samples@,
            q,
        ).len() + online_stream(db.api_samples@, q).len() + reconcile_stream(
            db.reconcile_samples@,
            db.runner_samples@,
            q,
        ).len(),
        r.transitions.limited ==> r.transitions.items@.len() < liveness_stream(
            db.runner_samples@,
            q,
        ).len() + online_stream(db.api_samples@, q).len() + reconcile_stream(
            db.reconcile_samples@,
            db.runner_samples@,
            q,
        ).len(),
{
    let all = edge_stream(db, q);
    let items = r.transitions.items@;
    let kept = change_rows(items);
    let ts = |c: Change| c.ts as int;
    super::newest_first_descends(
        liveness_stream(db.runner_samples@, q) + online_stream(db.api_samples@, q)
            + reconcile_stream(db.reconcile_samples@, db.runner_samples@, q),
    );
    assert forall|i: int, j: int| 0 <= i < j < all.len() implies ts(#[trigger] all[i]) >= ts(
        #[trigger] all[j],
    ) by {
        assert(all[i].ts >= all[j].ts);
    }
    cut_is_newest(all, ts, q.limit as nat);
    assert(kept.len() == items.len());
    assert forall|i: int, j: int| 0 <= i < j < items.len() implies (#[trigger] items[i]).ts <= (
    #[trigger] items[j]).ts by {
        assert(ts(kept[i]) <= ts(kept[j]));
    }
    assert forall|i: int| 0 <= i < items.len() implies is_change(db, q, (#[trigger] items[i])@) by {
        assert(all.contains(kept[i]));
        edges_are_the_changes(db, q, items[i]@);
    }
    assert forall|c: Change| #[trigger] is_change(db, q, c) implies kept.contains(c)
        || r.transitions.limited && forall|i: int|
        0 <= i < items.len() ==> c.ts <= (#[trigger] items[i]).ts by {
        edges_are_the_changes(db, q, c);
        assert(all.contains(c));
        if !kept.contains(c) {
            assert forall|i: int| 0 <= i < items.len() implies c.ts <= (#[trigger] items[i]).ts by {
                assert(ts(c) <= ts(kept[i]));
            }
        }
    }
}

/// The job transitions of an answer are the ends of jobs in the window: all of them
/// where nothing was left out, and otherwise the newest; in the order of their
/// times, and no more than were asked for.
pub proof fn an_answer_holds_the_jobs(
    r: Timeline,
    db: Db,
    q: TimelineQuery,
    now: i64,
    max_age: u64,
)
    requires
        answers(r, db, q, now, max_age),
    ensures
        is_newest_of(
            job_changes(r.jobs.items@),
            job_stream(db.jobs@, q),
            |c: JobChange| c.ts as int,
            q.limit as nat,
        ),
        r.jobs.limited <==> r.jobs.items@.len() < job_stream(db.jobs@, q).len(),
{
    let all = job_stream(db.jobs@, q);
    let ts = |c: JobChange| c.ts as int;
    let w = told_job_ends_happened(db.jobs@, q);
    assert forall|i: int, j: int| 0 <= i < j < all.len() implies ts(#[trigger] all[i]) >= ts(
        #[trigger] all[j],
    ) by {
        assert(w[i] != w[j]);
    }
    cut_is_newest(all, ts, q.limit as nat);
    assert(job_changes(r.jobs.items@).len() == r.jobs.items@.len());
}

proof fn samples_are_preordered(rows: Seq<RunnerSample>)
    ensures
        total_preorder(samples_newest_first(rows)),
{
    let before = samples_newest_first(rows);
    assert forall|a: int, b: int| #[trigger] before(a, b) || before(b, a) by {
        text_le_total(rows[a].name@, rows[b].name@);
    }
    assert forall|a: int, b: int, c: int| #[trigger]
        before(a, b) && #[trigger] before(b, c) implies before(a, c) by {
        if rows[a].ts == rows[b].ts && rows[b].ts == rows[c].ts {
            text_le_transitive(rows[a].name@, rows[b].name@, rows[c].name@);
        }
    }
}

/// The point of the later time first; of one time, the one whose runner's name sorts
/// first.
pub open spec fn point_leads(a: TimelinePoint, b: TimelinePoint) -> bool {
    a.ts > b.ts || a.ts == b.ts && text_le(a.runner@, b.runner@)
}

proof fn points_descend(
    rows: Seq<RunnerSample>,
    api: Seq<ApiSample>,
    idx: Seq<int>,
    max_age: u64,
)
    requires
        in_order(samples_newest_first(rows), idx),
    ensures
        forall|i: int, j: int|
            0 <= i < j < points_of(rows, api, idx, max_age).len() ==> point_leads(
                #[trigger] points_of(rows, api, idx, max_age)[i],
                #[trigger] points_of(rows, api, idx, max_age)[j],
            ),
        forall|i: int|
            0 <= i < points_of(rows, api, idx, max_age).len() ==> idx.len() > 0 && {
                let p = #[trigger] points_of(rows, api, idx, max_age)[i];
                let r = rows[idx.last()];
                p.ts > r.ts || p.ts == r.ts && text_le(p.runner@, r.name@)
            },
    decreases idx.len(),
{
    if idx.len() > 0 {
        let init = idx.drop_last();
        let r = rows[idx.last()];
        assert(in_order(samples_newest_first(rows), init)) by {
            assert forall|a: int, b: int| 0 <= a < b < init.len() implies samples_newest_first(
                rows,
            )(#[trigger] init[a], #[trigger] init[b]) by {
                assert(samples_newest_first(rows)(idx[a], idx[b]));
            }
        }
        points_descend(rows, api, init, max_age);
        let a = points_of(rows, api, init, max_age);
        let all = points_of(rows, api, idx, max_age);
        text_le_total(r.name@, r.name@);
        assert forall|i: int| 0 <= i < all.len() implies {
            let p = #[trigger] all[i];
            p.ts > r.ts || p.ts == r.ts && text_le(p.runner@, r.name@)
        } by {
            if i < a.len() {
                let was = rows[init.last()];
                assert(a[i] == all[i]);
                assert(samples_newest_first(rows)(idx[idx.len() - 2], idx[idx.len() - 1]));
                if a[i].ts == was.ts && was.ts == r.ts {
                    text_le_transitive(a[i].runner@, was.name@, r.name@);
                }
            }
        }
        assert forall|i: int, j: int| 0 <= i < j < all.len() implies point_leads(
            #[trigger] all[i],
            #[trigger] all[j],
        ) by {
            if j < a.len() {
                assert(point_leads(a[i], a[j]));
            } else {
                assert(all[j].ts == r.ts && all[j].runner@ == r.name@);
            }
        }
    }
}

/// The samples of an answer, where they were asked for, are those of the window: all
/// of them where nothing was left out, and otherwise the newest; in the order of
/// their times and, at one time, with the names of the runners descending; and no
/// more than were asked for.
pub proof fn an_answer_holds_the_samples(
    r: Timeline,
    db: Db,
    q: TimelineQuery,
    now: i64,
    max_age: u64,
)
    requires
        answers(r, db, q, now, max_age),
    ensures
        r.samples is Some <==> q.samples,
        r.samples matches Some(s) ==> forall|i: int, j: int|
            0 <= i < j < s.items@.len() ==> point_leads(
                #[trigger] s.items@[j],
                #[trigger] s.items@[i],
            ),
        r.samples matches Some(s) ==> is_newest_of(
            s.items@,
            sample_stream(db.runner_samples@, db.api_samples@, q, max_age),
            |p: TimelinePoint| p.ts as int,
            q.limit as nat,
        ) && (s.limited ==> s.items@.len() == q.limit) && (q.limit < usize::MAX ==> (s.limited
            <==> s.items@.len() < sample_stream(
            db.runner_samples@,
            db.api_samples@,
            q,
            max_age,
        ).len())),
{
    let rows = db.runner_samples@;
    let all = sample_stream(rows, db.api_samples@, q, max_age);
    let ts = |p: TimelinePoint| p.ts as int;
    let idx = select(local_window(rows, q), rows.len() as int);
    samples_are_preordered(rows);
    order_is_sorted(samples_newest_first(rows), idx);
    points_descend(rows, db.api_samples@, order(samples_newest_first(rows), idx), max_age);
    assert forall|i: int, j: int| 0 <= i < j < all.len() implies ts(#[trigger] all[i]) >= ts(
        #[trigger] all[j],
    ) by {
        assert(point_leads(all[i], all[j]));
    }
    cut_is_newest(all, ts, q.limit as nat);
    if let Some(s) = r.samples {
        let kept = s.items@;
        let n = kept.len() as int;
        assert forall|i: int, j: int| 0 <= i < j < kept.len() implies point_leads(
            #[trigger] kept[j],
            #[trigger] kept[i],
        ) by {
            assert(kept[i] == all[n - 1 - i] && kept[j] == all[n - 1 - j]);
        }
    }
}

proof fn least_is_met(rows: Seq<RunnerSample>, p: spec_fn(int) -> bool, n: int)
    requires
        0 <= n <= rows.len(),
    ensures
        min_ts_where(rows, p, n) is None <==> forall|i: int| 0 <= i < n ==> !#[trigger] p(i),
        min_ts_where(rows, p, n) matches Some(t) ==> {
            &&& exists|i: int| 0 <= i < n && #[trigger] p(i) && rows[i].ts == t
            &&& forall|i: int| 0 <= i < n && #[trigger] p(i) ==> rows[i].ts >= t
        },
    decreases n,
{
    if n > 0 {
        least_is_met(rows, p, n - 1);
        let rest = min_ts_where(rows, p, n - 1);
        let t = min_ts_where(rows, p, n);
        if p(n - 1) {
            assert(p(n - 1));
            if rest is Some && t == rest {
                let i = choose|i: int| 0 <= i < n - 1 && #[trigger] p(i) && rows[i].ts == rest->0;
                assert(p(i));
            }
        } else if rest is Some {
            let i = choose|i: int| 0 <= i < n - 1 && #[trigger] p(i) && rows[i].ts == rest->0;
            assert(p(i));
        }
    }
}

/// An answer says what it covers: from the time asked for until now; and where the
/// store's samples start later than that, when the first of them was taken.
pub proof fn an_answer_says_what_it_covers(
    r: Timeline,
    db: Db,
    q: TimelineQuery,
    now: i64,
    max_age: u64,
)
    requires
        answers(r, db, q, now, max_age),
    ensures
        r.window.since_epoch == q.since_ts,
        r.window.until_epoch == now && r.generated_at_epoch == now,
        r.window.since@ == rfc3339(q.since_ts as int) && r.generated_at@ == rfc3339(now as int),
        ({
            let rows = db.runner_samples@;
            let held = |i: int|
                (q.org matches Some(o) ==> o@ == rows[i].org@) && (q.runner matches Some(n) ==> n@
                    == rows[i].name@);
            &&& r.window.truncated_at matches Some(t) ==> t > q.since_ts && (exists|i: int|
                0 <= i < rows.len() && #[trigger] held(i) && rows[i].ts == t) && forall|i: int|
                0 <= i < rows.len() && #[trigger] held(i) ==> rows[i].ts >= t
            &&& r.window.truncated_at is None ==> (forall|i: int|
                0 <= i < rows.len() ==> !#[trigger] held(i)) || exists|i: int|
                0 <= i < rows.len() && #[trigger] held(i) && rows[i].ts <= q.since_ts
        }),
{
    let rows = db.runner_samples@;
    let held = |i: int|
        (q.org matches Some(o) ==> o@ == rows[i].org@) && (q.runner matches Some(n) ==> n@
            == rows[i].name@);
    let p = local_filter(rows, q);
    assert forall|i: int| #[trigger] held(i) == p(i) by {}
    least_is_met(rows, p, rows.len() as int);
    let first = min_ts_where(rows, p, rows.len() as int);
    if first is Some {
        let i = choose|i: int| 0 <= i < rows.len() && #[trigger] p(i) && rows[i].ts == first->0;
        assert(held(i));
    } else {
        assert forall|i: int| 0 <= i < rows.len() implies !#[trigger] held(i) by {
            assert(!p(i));
        }
    }
    if r.window.truncated_at is Some {
        assert forall|i: int| 0 <= i < rows.len() && #[trigger] held(i) implies rows[i].ts
            >= r.window.truncated_at->0 by {
            assert(p(i));
        }
    }
}

} // verus!
