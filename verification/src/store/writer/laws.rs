//! What a round of writing leaves in the tables, row by row.

use vstd::prelude::*;

use crate::models::{
    ApiErrorKind, ApiOrgOutcome, ApiRunnerRow, ApiRunnerState, HookEvent, HostSample, RunnerSample,
    RunnerState,
};
use crate::store::rows::first_where_is_least;
use crate::store::tables::{
    distinct_dirs, distinct_runners, healths, job_rows, ApiSample, Db, Health, Job, QueueSample,
    ReconcileSample,
};
use crate::store::writer::github::{
    api_written, edge_seen, edges_after, edges_seen, health_seen, healths_after,
    online_edge_moves_only_on_a_flip, org_at, readings_after, runner_at,
};
use crate::store::writer::jobs::{event_key, hooks_applied, job_at, job_seen, jobs_seen, owner_of};
use crate::store::writer::{
    dir_at, edge_moves_only_on_a_change, local_written, other_runners_are_untouched, pruned,
    state_seen, states_seen,
};

verus! {

// ---------------------------------------------------------------------------
// The liveness edges of a round
// ---------------------------------------------------------------------------

/// How a runner's edge stands after the runner was sampled: its liveness is the
/// sample's; it holds since it first did, or since the sample where it was another,
/// or the runner was not known.
pub open spec fn edge_follows(states: Seq<RunnerState>, s: RunnerState, r: RunnerSample) -> bool {
    &&& s.dir@ == r.dir@
    &&& s.liveness == r.liveness
    &&& s.last_seen_ts == r.ts
    &&& forall|i: int|
        0 <= i < states.len() && (#[trigger] states[i]).dir@ == r.dir@ ==> s.since_ts == (
        if states[i].liveness == r.liveness {
            states[i].since_ts
        } else {
            r.ts
        })
    &&& (forall|i: int| 0 <= i < states.len() ==> (#[trigger] states[i]).dir@ != r.dir@)
        ==> s.since_ts == r.ts
}

proof fn one_sample_keeps_the_rest(states: Seq<RunnerState>, r: RunnerSample)
    ensures
        ({
            let after = state_seen(states, r);
            &&& after.len() >= states.len()
            &&& forall|i: int|
                0 <= i < states.len() ==> (#[trigger] after[i]).dir@ == states[i].dir@
            &&& forall|i: int|
                0 <= i < states.len() && states[i].dir@ != r.dir@ ==> #[trigger] after[i]
                    == states[i]
            &&& forall|i: int|
                states.len() <= i < after.len() ==> (#[trigger] after[i]).dir@ == r.dir@
        }),
{
    let p = |i: int| states[i].dir@ == r.dir@;
    first_where_is_least(p, states.len() as int);
    if dir_at(states, r.dir@) < states.len() {
        assert(p(dir_at(states, r.dir@)));
    }
}

proof fn a_tick_keeps_the_rest(states: Seq<RunnerState>, tick: Seq<RunnerSample>)
    ensures
        ({
            let after = states_seen(states, tick);
            &&& after.len() >= states.len()
            &&& forall|i: int|
                0 <= i < states.len() ==> (#[trigger] after[i]).dir@ == states[i].dir@
            &&& forall|i: int|
                0 <= i < states.len() && (forall|k: int|
                    0 <= k < tick.len() ==> (#[trigger] tick[k]).dir@ != states[i].dir@)
                    ==> #[trigger] after[i] == states[i]
            &&& forall|i: int|
                states.len() <= i < after.len() ==> exists|k: int|
                    0 <= k < tick.len() && (#[trigger] tick[k]).dir@ == (#[trigger] after[i]).dir@
        }),
    decreases tick.len(),
{
    if tick.len() > 0 {
        let init = tick.drop_last();
        let mid = states_seen(states, init);
        let after = states_seen(states, tick);
        a_tick_keeps_the_rest(states, init);
        one_sample_keeps_the_rest(mid, tick.last());
        assert(tick[tick.len() - 1] == tick.last());
        assert forall|i: int|
            0 <= i < states.len() && (forall|k: int|
                0 <= k < tick.len() ==> (#[trigger] tick[k]).dir@ != states[i].dir@) implies #[trigger] after[i]
            == states[i] by {
            assert forall|k: int| 0 <= k < init.len() implies (#[trigger] init[k]).dir@
                != states[i].dir@ by {
                assert(init[k] == tick[k]);
            }
            assert(mid[i] == states[i]);
        }
        assert forall|i: int| 0 <= i < states.len() implies (#[trigger] after[i]).dir@
            == states[i].dir@ by {
            assert(mid[i].dir@ == states[i].dir@);
        }
        assert forall|i: int| states.len() <= i < after.len() implies exists|k: int|
            0 <= k < tick.len() && (#[trigger] tick[k]).dir@ == (#[trigger] after[i]).dir@ by {
            if i < mid.len() {
                assert(mid[i].dir@ == after[i].dir@);
                let k = choose|k: int| 0 <= k < init.len() && (#[trigger] init[k]).dir@ == mid[i].dir@;
                assert(tick[k].dir@ == after[i].dir@);
            } else {
                assert(tick[tick.len() - 1].dir@ == after[i].dir@);
            }
        }
    }
}

proof fn a_sampled_runner_has_its_edge(
    states: Seq<RunnerState>,
    tick: Seq<RunnerSample>,
    k: int,
) -> (j: int)
    requires
        distinct_dirs(states),
        0 <= k < tick.len(),
        forall|i: int|
            0 <= i < tick.len() && i != k ==> (#[trigger] tick[i]).dir@ != tick[k].dir@,
    ensures
        0 <= j < states_seen(states, tick).len(),
        edge_follows(states, states_seen(states, tick)[j], tick[k]),
    decreases tick.len(),
{
    let init = tick.drop_last();
    let mid = states_seen(states, init);
    let after = states_seen(states, tick);
    let last = tick.last();
    assert(tick[tick.len() - 1] == last);
    if k < tick.len() - 1 {
        assert(init[k] == tick[k]);
        assert forall|i: int| 0 <= i < init.len() && i != k implies (#[trigger] init[i]).dir@
            != init[k].dir@ by {
            assert(init[i] == tick[i]);
        }
        let j = a_sampled_runner_has_its_edge(states, init, k);
        assert(last.dir@ != tick[k].dir@);
        other_runners_are_untouched(mid, last, j);
        one_sample_keeps_the_rest(mid, last);
        j
    } else {
        a_tick_keeps_the_rest(states, init);
        edge_moves_only_on_a_change(mid, last);
        let p = |i: int| mid[i].dir@ == last.dir@;
        first_where_is_least(p, mid.len() as int);
        let j = dir_at(mid, last.dir@);
        assert forall|m: int| 0 <= m < init.len() implies (#[trigger] init[m]).dir@ != last.dir@ by {
            assert(init[m] == tick[m]);
        }
        assert forall|i: int| 0 <= i < mid.len() && p(i) implies i < states.len() && mid[i]
            == states[i] by {
            if i >= states.len() {
                let m = choose|m: int|
                    0 <= m < init.len() && (#[trigger] init[m]).dir@ == mid[i].dir@;
                assert(init[m].dir@ != last.dir@);
            } else {
                assert(mid[i].dir@ == states[i].dir@);
            }
        }
        assert forall|i: int|
            0 <= i < states.len() && (#[trigger] states[i]).dir@ == last.dir@ implies i == j by {
            assert(mid[i].dir@ == states[i].dir@);
            assert(p(i));
            assert(j < mid.len());
            assert(p(j));
            assert(states[j].dir@ == last.dir@);
        }
        if j < mid.len() {
            assert(p(j));
            assert(states[j].dir@ == last.dir@);
        }
        j
    }
}

/// After a round, each runner that was sampled once in it has an edge that follows
/// its sample; the edge of a runner that was not sampled is as it was, and no other
/// edge is there.
pub proof fn a_round_moves_its_edges(
    before: Db,
    after: Db,
    runners: Seq<RunnerSample>,
    host: HostSample,
)
    requires
        local_written(before, after, runners, host),
        distinct_dirs(before.runner_states@),
    ensures
        forall|k: int|
            0 <= k < runners.len() && (forall|i: int|
                0 <= i < runners.len() && i != k ==> (#[trigger] runners[i]).dir@
                    != runners[k].dir@) ==> exists|j: int|
                0 <= j < after.runner_states@.len() && edge_follows(
                    before.runner_states@,
                    #[trigger] after.runner_states@[j],
                    #[trigger] runners[k],
                ),
        forall|i: int|
            0 <= i < before.runner_states@.len() && (forall|k: int|
                0 <= k < runners.len() ==> (#[trigger] runners[k]).dir@
                    != before.runner_states@[i].dir@) ==> #[trigger] after.runner_states@[i]
                == before.runner_states@[i],
        forall|i: int|
            before.runner_states@.len() <= i < after.runner_states@.len() ==> exists|k: int|
                0 <= k < runners.len() && (#[trigger] runners[k]).dir@ == (
                #[trigger] after.runner_states@[i]).dir@,
{
    let states = before.runner_states@;
    a_tick_keeps_the_rest(states, runners);
    assert forall|k: int|
        0 <= k < runners.len() && (forall|i: int|
            0 <= i < runners.len() && i != k ==> (#[trigger] runners[i]).dir@ != runners[k].dir@) implies exists|
        j: int,
    |
        0 <= j < after.runner_states@.len() && edge_follows(
            states,
            #[trigger] after.runner_states@[j],
            #[trigger] runners[k],
        ) by {
        let j = a_sampled_runner_has_its_edge(states, runners, k);
        assert(edge_follows(states, after.runner_states@[j], runners[k]));
    }
}

// ---------------------------------------------------------------------------
// GitHub's readings and their edges
// ---------------------------------------------------------------------------

/// A reading records a row that was fetched at `ts`.
pub open spec fn records_row(s: ApiSample, ts: i64, r: ApiRunnerRow) -> bool {
    &&& s.ts == ts
    &&& s.agent_id == r.agent_id
    &&& s.org@ == r.org@
    &&& s.name@ == r.name@
    &&& s.online == r.online
    &&& s.busy == r.busy
}

/// The rows that an outcome fetched: those of a fetch, none of a failure.
pub open spec fn fetched(o: ApiOrgOutcome) -> Seq<ApiRunnerRow> {
    if let ApiOrgOutcome::Fetched { rows, .. } = o {
        rows@
    } else {
        seq![]
    }
}

proof fn readings_are_recorded(samples: Seq<ApiSample>, ts: i64, outcomes: Seq<ApiOrgOutcome>) -> (w:
    Seq<(int, int)>)
    ensures
        ({
            let all = readings_after(samples, ts, outcomes);
            &&& all.len() == samples.len() + w.len()
            &&& forall|i: int| 0 <= i < samples.len() ==> #[trigger] all[i] == samples[i]
            &&& forall|n: int|
                0 <= n < w.len() ==> {
                    &&& 0 <= (#[trigger] w[n]).0 < outcomes.len()
                    &&& 0 <= w[n].1 < fetched(outcomes[w[n].0]).len()
                    &&& records_row(all[samples.len() + n], ts, fetched(outcomes[w[n].0])[w[n].1])
                }
            &&& forall|o: int, k: int|
                0 <= o < outcomes.len() && 0 <= k < fetched(outcomes[o]).len()
                    ==> #[trigger] w.contains((o, k))
        }),
    decreases outcomes.len(),
{
    if outcomes.len() == 0 {
        Seq::empty()
    } else {
        let init = outcomes.drop_last();
        let v = readings_are_recorded(samples, ts, init);
        let m = outcomes.len() - 1;
        let rows = outcomes.last().rows_seq();
        assert(outcomes[m] == outcomes.last());
        assert(fetched(outcomes[m]) =~= rows);
        let w = v + Seq::new(rows.len(), |k: int| (m, k));
        let head = readings_after(samples, ts, init);
        let all = readings_after(samples, ts, outcomes);
        assert forall|i: int| 0 <= i < samples.len() implies #[trigger] all[i] == samples[i] by {
            assert(head[i] == samples[i]);
        }
        assert forall|n: int| 0 <= n < w.len() implies {
            &&& 0 <= (#[trigger] w[n]).0 < outcomes.len()
            &&& 0 <= w[n].1 < fetched(outcomes[w[n].0]).len()
            &&& records_row(all[samples.len() + n], ts, fetched(outcomes[w[n].0])[w[n].1])
        } by {
            if n < v.len() {
                assert(w[n] == v[n]);
                assert(init[v[n].0] == outcomes[v[n].0]);
                assert(all[samples.len() + n] == head[samples.len() + n]);
            }
        }
        assert forall|o: int, k: int|
            0 <= o < outcomes.len() && 0 <= k < fetched(
                outcomes[o],
            ).len() implies #[trigger] w.contains((o, k)) by {
            if o < m {
                assert(init[o] == outcomes[o]);
                assert(v.contains((o, k)));
                let n = choose|n: int| 0 <= n < v.len() && v[n] == (o, k);
                assert(w[n] == (o, k));
            } else {
                assert(w[v.len() + k] == (o, k));
            }
        }
        w
    }
}

/// A round of asking appends a reading for every row that was fetched, and no other;
/// the readings before it stay. Gives, for each new reading, the outcome and the row
/// that it records.
pub proof fn a_round_records_its_rows(
    before: Db,
    after: Db,
    ts: i64,
    outcomes: Seq<ApiOrgOutcome>,
) -> (w: Seq<(int, int)>)
    requires
        api_written(before, after, ts, outcomes),
    ensures
        after.api_samples@.len() == before.api_samples@.len() + w.len(),
        forall|i: int|
            0 <= i < before.api_samples@.len() ==> #[trigger] after.api_samples@[i]
                == before.api_samples@[i],
        forall|n: int|
            0 <= n < w.len() ==> {
                &&& 0 <= (#[trigger] w[n]).0 < outcomes.len()
                &&& 0 <= w[n].1 < fetched(outcomes[w[n].0]).len()
                &&& records_row(
                    after.api_samples@[before.api_samples@.len() + n],
                    ts,
                    fetched(outcomes[w[n].0])[w[n].1],
                )
            },
        forall|o: int, k: int|
            0 <= o < outcomes.len() && 0 <= k < fetched(outcomes[o]).len() ==> #[trigger] w.contains(
                (o, k),
            ),
{
    readings_are_recorded(before.api_samples@, ts, outcomes)
}

/// How a runner's online edge stands after the runner was reported: its bit is the
/// row's; it holds since it first did, or since the round where it was another, or
/// the runner was not known.
pub open spec fn online_follows(
    states: Seq<ApiRunnerState>,
    s: ApiRunnerState,
    ts: i64,
    r: ApiRunnerRow,
) -> bool {
    &&& s.org@ == r.org@ && s.agent_id == r.agent_id
    &&& s.online == r.online
    &&& s.last_seen_ts == ts
    &&& forall|i: int|
        0 <= i < states.len() && (#[trigger] states[i]).org@ == r.org@ && states[i].agent_id
            == r.agent_id ==> s.since_ts == (if states[i].online == r.online {
            states[i].since_ts
        } else {
            ts
        })
    &&& (forall|i: int|
        0 <= i < states.len() ==> !((#[trigger] states[i]).org@ == r.org@ && states[i].agent_id
            == r.agent_id)) ==> s.since_ts == ts
}

/// An edge and a row are of one runner.
pub open spec fn is_edge_of(s: ApiRunnerState, r: ApiRunnerRow) -> bool {
    s.org@ == r.org@ && s.agent_id == r.agent_id
}

/// One of the rows is of the edge's runner.
spec fn edge_among(s: ApiRunnerState, rows: spec_fn(ApiRunnerRow) -> bool) -> bool {
    exists|r: ApiRunnerRow| #[trigger] rows(r) && is_edge_of(s, r)
}

spec fn rows_keep(
    states: Seq<ApiRunnerState>,
    after: Seq<ApiRunnerState>,
    rows: spec_fn(ApiRunnerRow) -> bool,
) -> bool {
    &&& after.len() >= states.len()
    &&& forall|i: int|
        0 <= i < states.len() ==> (#[trigger] after[i]).org@ == states[i].org@ && after[i].agent_id
            == states[i].agent_id
    &&& forall|i: int|
        0 <= i < states.len() && (forall|r: ApiRunnerRow| #[trigger] rows(r) ==> !is_edge_of(states[i], r))
            ==> #[trigger] after[i] == states[i]
    &&& forall|i: int| states.len() <= i < after.len() ==> edge_among(#[trigger] after[i], rows)
}

proof fn one_row_keeps_the_rest(states: Seq<ApiRunnerState>, ts: i64, r: ApiRunnerRow)
    ensures
        rows_keep(states, edge_seen(states, ts, r), |x: ApiRunnerRow| x == r),
{
    let rows = |x: ApiRunnerRow| x == r;
    let p = |i: int| states[i].org@ == r.org@ && states[i].agent_id == r.agent_id;
    first_where_is_least(p, states.len() as int);
    let k = runner_at(states, r.org@, r.agent_id);
    if k < states.len() {
        assert(p(k));
    }
    let after = edge_seen(states, ts, r);
    assert(rows(r));
    assert forall|i: int| states.len() <= i < after.len() implies edge_among(
        #[trigger] after[i],
        rows,
    ) by {
        assert(rows(r) && is_edge_of(after[i], r));
    }
    assert forall|i: int|
        0 <= i < states.len() && (forall|x: ApiRunnerRow| #[trigger]
            rows(x) ==> !is_edge_of(states[i], x)) implies #[trigger] after[i] == states[i] by {
        assert(rows(r));
    }
}

proof fn keeping_chains(
    a: Seq<ApiRunnerState>,
    b: Seq<ApiRunnerState>,
    c: Seq<ApiRunnerState>,
    first: spec_fn(ApiRunnerRow) -> bool,
    second: spec_fn(ApiRunnerRow) -> bool,
    both: spec_fn(ApiRunnerRow) -> bool,
)
    requires
        rows_keep(a, b, first),
        rows_keep(b, c, second),
        forall|r: ApiRunnerRow| #[trigger] both(r) <==> first(r) || second(r),
    ensures
        rows_keep(a, c, both),
{
    assert forall|i: int|
        0 <= i < a.len() && (forall|r: ApiRunnerRow| #[trigger] both(r) ==> !is_edge_of(a[i], r)) implies #[trigger] c[i]
        == a[i] by {
        assert forall|r: ApiRunnerRow| #[trigger] first(r) implies !is_edge_of(a[i], r) by {
            assert(both(r));
        }
        assert(b[i] == a[i]);
        assert forall|r: ApiRunnerRow| #[trigger] second(r) implies !is_edge_of(b[i], r) by {
            assert(both(r));
        }
    }
    assert forall|i: int| 0 <= i < a.len() implies (#[trigger] c[i]).org@ == a[i].org@
        && c[i].agent_id == a[i].agent_id by {
        assert(b[i].org@ == a[i].org@);
    }
    assert forall|i: int| a.len() <= i < c.len() implies edge_among(#[trigger] c[i], both) by {
        if i < b.len() {
            assert(edge_among(b[i], first));
            let r = choose|r: ApiRunnerRow| #[trigger] first(r) && is_edge_of(b[i], r);
            assert(c[i].org@ == b[i].org@);
            assert(both(r) && is_edge_of(c[i], r));
        } else {
            assert(edge_among(c[i], second));
            let r = choose|r: ApiRunnerRow| #[trigger] second(r) && is_edge_of(c[i], r);
            assert(both(r) && is_edge_of(c[i], r));
        }
    }
}

proof fn an_org_keeps_the_rest(states: Seq<ApiRunnerState>, ts: i64, rows: Seq<ApiRunnerRow>)
    ensures
        rows_keep(states, edges_seen(states, ts, rows), |x: ApiRunnerRow| rows.contains(x)),
    decreases rows.len(),
{
    let all = |x: ApiRunnerRow| rows.contains(x);
    if rows.len() > 0 {
        let init = rows.drop_last();
        let last = rows.last();
        an_org_keeps_the_rest(states, ts, init);
        let mid = edges_seen(states, ts, init);
        one_row_keeps_the_rest(mid, ts, last);
        let first = |x: ApiRunnerRow| init.contains(x);
        let second = |x: ApiRunnerRow| x == last;
        assert forall|r: ApiRunnerRow| #[trigger] all(r) <==> first(r) || second(r) by {
            if all(r) {
                let k = choose|k: int| 0 <= k < rows.len() && rows[k] == r;
                if k < init.len() {
                    assert(init[k] == r);
                }
            }
            if first(r) {
                let k = choose|k: int| 0 <= k < init.len() && init[k] == r;
                assert(rows[k] == r);
            }
            if second(r) {
                assert(rows[rows.len() - 1] == r);
            }
        }
        keeping_chains(states, mid, edges_seen(states, ts, rows), first, second, all);
    }
}

/// One of the outcomes fetched the row.
pub open spec fn some_fetched(outcomes: Seq<ApiOrgOutcome>, r: ApiRunnerRow) -> bool {
    exists|o: int| 0 <= o < outcomes.len() && fetched(#[trigger] outcomes[o]).contains(r)
}

proof fn a_tick_of_orgs_keeps_the_rest(
    states: Seq<ApiRunnerState>,
    ts: i64,
    outcomes: Seq<ApiOrgOutcome>,
)
    ensures
        rows_keep(
            states,
            edges_after(states, ts, outcomes),
            |x: ApiRunnerRow| some_fetched(outcomes, x),
        ),
    decreases outcomes.len(),
{
    let all = |x: ApiRunnerRow| some_fetched(outcomes, x);
    if outcomes.len() > 0 {
        let init = outcomes.drop_last();
        let rows = outcomes.last().rows_seq();
        a_tick_of_orgs_keeps_the_rest(states, ts, init);
        let mid = edges_after(states, ts, init);
        an_org_keeps_the_rest(mid, ts, rows);
        let first = |x: ApiRunnerRow| some_fetched(init, x);
        let second = |x: ApiRunnerRow| rows.contains(x);
        assert(outcomes[outcomes.len() - 1] == outcomes.last());
        assert(fetched(outcomes.last()) =~= rows);
        assert forall|r: ApiRunnerRow| #[trigger] all(r) <==> first(r) || second(r) by {
            if all(r) {
                let o = choose|o: int|
                    0 <= o < outcomes.len() && fetched(#[trigger] outcomes[o]).contains(r);
                if o < init.len() {
                    assert(fetched(init[o]).contains(r));
                }
            }
            if first(r) {
                let o = choose|o: int| 0 <= o < init.len() && fetched(#[trigger] init[o]).contains(r);
                assert(fetched(outcomes[o]).contains(r));
            }
            if second(r) {
                assert(fetched(outcomes[outcomes.len() - 1]).contains(r));
            }
        }
        keeping_chains(states, mid, edges_after(states, ts, outcomes), first, second, all);
    }
}

/// No other row of an org is of the runner.
pub open spec fn single_row(rows: Seq<ApiRunnerRow>, k: int) -> bool {
    forall|i: int|
        0 <= i < rows.len() && i != k ==> !((#[trigger] rows[i]).org@ == rows[k].org@
            && rows[i].agent_id == rows[k].agent_id)
}

proof fn a_reported_runner_has_its_edge(
    states: Seq<ApiRunnerState>,
    ts: i64,
    rows: Seq<ApiRunnerRow>,
    k: int,
) -> (j: int)
    requires
        distinct_runners(states),
        0 <= k < rows.len(),
        single_row(rows, k),
    ensures
        0 <= j < edges_seen(states, ts, rows).len(),
        online_follows(states, edges_seen(states, ts, rows)[j], ts, rows[k]),
    decreases rows.len(),
{
    let init = rows.drop_last();
    let mid = edges_seen(states, ts, init);
    let after = edges_seen(states, ts, rows);
    let last = rows.last();
    assert(rows[rows.len() - 1] == last);
    if k < rows.len() - 1 {
        assert(init[k] == rows[k]);
        assert forall|i: int| 0 <= i < init.len() && i != k implies !((#[trigger] init[i]).org@
            == init[k].org@ && init[i].agent_id == init[k].agent_id) by {
            assert(init[i] == rows[i]);
        }
        let j = a_reported_runner_has_its_edge(states, ts, init, k);
        one_row_keeps_the_rest(mid, ts, last);
        assert(!is_edge_of(mid[j], last));
        assert(after[j] == mid[j]);
        j
    } else {
        an_org_keeps_the_rest(states, ts, init);
        online_edge_moves_only_on_a_flip(mid, ts, last);
        let among = |x: ApiRunnerRow| init.contains(x);
        let p = |i: int| mid[i].org@ == last.org@ && mid[i].agent_id == last.agent_id;
        first_where_is_least(p, mid.len() as int);
        let j = runner_at(mid, last.org@, last.agent_id);
        assert forall|x: ApiRunnerRow| #[trigger] among(x) implies !(x.org@ == last.org@ && x.agent_id
            == last.agent_id) by {
            let m = choose|m: int| 0 <= m < init.len() && init[m] == x;
            assert(rows[m] == x);
        }
        assert forall|i: int| 0 <= i < mid.len() && p(i) implies i < states.len() && mid[i]
            == states[i] by {
            if i >= states.len() {
                assert(edge_among(mid[i], among));
                let x = choose|x: ApiRunnerRow| #[trigger] among(x) && is_edge_of(mid[i], x);
                assert(!(x.org@ == last.org@ && x.agent_id == last.agent_id));
            } else {
                assert(mid[i].org@ == states[i].org@);
                assert forall|x: ApiRunnerRow| #[trigger] among(x) implies !is_edge_of(states[i], x) by {
                    assert(!(x.org@ == last.org@ && x.agent_id == last.agent_id));
                }
            }
        }
        assert forall|i: int|
            0 <= i < states.len() && (#[trigger] states[i]).org@ == last.org@ && states[i].agent_id
                == last.agent_id implies i == j by {
            assert(mid[i].org@ == states[i].org@);
            assert(p(i));
            assert(p(j));
            assert(states[j].org@ == last.org@);
        }
        if j < mid.len() {
            assert(p(j));
            assert(states[j].org@ == last.org@);
        }
        j
    }
}

/// One of the outcomes fetched a row of the edge's runner.
pub open spec fn was_reported(outcomes: Seq<ApiOrgOutcome>, s: ApiRunnerState) -> bool {
    exists|r: ApiRunnerRow| #[trigger] some_fetched(outcomes, r) && is_edge_of(s, r)
}

/// One of the edges follows the row.
pub open spec fn has_followed(
    before: Seq<ApiRunnerState>,
    after: Seq<ApiRunnerState>,
    ts: i64,
    r: ApiRunnerRow,
) -> bool {
    exists|j: int| 0 <= j < after.len() && online_follows(before, #[trigger] after[j], ts, r)
}

/// No row but the `k`th of the `o`th outcome is of its runner.
pub open spec fn only_row(outcomes: Seq<ApiOrgOutcome>, o: int, k: int) -> bool {
    &&& single_row(fetched(outcomes[o]), k)
    &&& forall|p: int, r: ApiRunnerRow|
        0 <= p < outcomes.len() && p != o && #[trigger] fetched(outcomes[p]).contains(r) ==> !(r.org@
            == fetched(outcomes[o])[k].org@ && r.agent_id == fetched(outcomes[o])[k].agent_id)
}

/// After a round of asking, the edge of a runner that no fetched row is of is as it
/// was, and each runner with one row in what was fetched has an edge that follows
/// the row. No other edge is there.
pub proof fn a_round_of_asking_moves_its_edges(
    before: Db,
    after: Db,
    ts: i64,
    outcomes: Seq<ApiOrgOutcome>,
)
    requires
        api_written(before, after, ts, outcomes),
        distinct_runners(before.api_states@),
    ensures
        forall|i: int|
            0 <= i < before.api_states@.len() && !was_reported(outcomes, before.api_states@[i])
                ==> #[trigger] after.api_states@[i] == before.api_states@[i],
        forall|i: int|
            before.api_states@.len() <= i < after.api_states@.len() ==> was_reported(
                outcomes,
                #[trigger] after.api_states@[i],
            ),
        forall|o: int, k: int|
            0 <= o < outcomes.len() && 0 <= k < fetched(outcomes[o]).len() && #[trigger] only_row(
                outcomes,
                o,
                k,
            ) ==> has_followed(
                before.api_states@,
                after.api_states@,
                ts,
                fetched(outcomes[o])[k],
            ),
{
    let states = before.api_states@;
    let all = |x: ApiRunnerRow| some_fetched(outcomes, x);
    a_tick_of_orgs_keeps_the_rest(states, ts, outcomes);
    assert forall|i: int|
        0 <= i < states.len() && !was_reported(
            outcomes,
            states[i],
        ) implies #[trigger] after.api_states@[i] == states[i] by {
        assert forall|r: ApiRunnerRow| #[trigger] all(r) implies !is_edge_of(states[i], r) by {
            assert(some_fetched(outcomes, r));
        }
    }
    assert forall|i: int| states.len() <= i < after.api_states@.len() implies was_reported(
        outcomes,
        #[trigger] after.api_states@[i],
    ) by {
        assert(edge_among(after.api_states@[i], all));
        let r = choose|r: ApiRunnerRow| #[trigger] all(r) && is_edge_of(after.api_states@[i], r);
        assert(some_fetched(outcomes, r));
    }
    assert forall|o: int, k: int|
        0 <= o < outcomes.len() && 0 <= k < fetched(outcomes[o]).len() && #[trigger] only_row(
            outcomes,
            o,
            k,
        ) implies has_followed(states, after.api_states@, ts, fetched(outcomes[o])[k]) by {
        let j = an_outcome_has_its_edges(states, ts, outcomes, o, k);
        assert(online_follows(states, after.api_states@[j], ts, fetched(outcomes[o])[k]));
    }
}

proof fn an_outcome_has_its_edges(
    states: Seq<ApiRunnerState>,
    ts: i64,
    outcomes: Seq<ApiOrgOutcome>,
    o: int,
    k: int,
) -> (j: int)
    requires
        distinct_runners(states),
        0 <= o < outcomes.len(),
        0 <= k < fetched(outcomes[o]).len(),
        single_row(fetched(outcomes[o]), k),
        forall|p: int, r: ApiRunnerRow|
            0 <= p < outcomes.len() && p != o && #[trigger] fetched(outcomes[p]).contains(r) ==> !(
            r.org@ == fetched(outcomes[o])[k].org@ && r.agent_id == fetched(
                outcomes[o],
            )[k].agent_id),
    ensures
        0 <= j < edges_after(states, ts, outcomes).len(),
        online_follows(
            states,
            edges_after(states, ts, outcomes)[j],
            ts,
            fetched(outcomes[o])[k],
        ),
    decreases outcomes.len(),
{
    let init = outcomes.drop_last();
    let last = outcomes.last();
    let mid = edges_after(states, ts, init);
    let row = fetched(outcomes[o])[k];
    assert(outcomes[outcomes.len() - 1] == last);
    assert(fetched(last) =~= last.rows_seq());
    if o < outcomes.len() - 1 {
        assert(init[o] == outcomes[o]);
        assert forall|p: int, r: ApiRunnerRow|
            0 <= p < init.len() && p != o && #[trigger] fetched(init[p]).contains(r) implies !(r.org@
            == fetched(init[o])[k].org@ && r.agent_id == fetched(init[o])[k].agent_id) by {
            assert(init[p] == outcomes[p]);
            assert(fetched(outcomes[p]).contains(r));
        }
        let j = an_outcome_has_its_edges(states, ts, init, o, k);
        an_org_keeps_the_rest(mid, ts, last.rows_seq());
        let among = |x: ApiRunnerRow| last.rows_seq().contains(x);
        assert forall|x: ApiRunnerRow| #[trigger] among(x) implies !is_edge_of(mid[j], x) by {
            assert(fetched(outcomes[outcomes.len() - 1]).contains(x));
        }
        assert(edges_after(states, ts, outcomes)[j] == mid[j]);
        j
    } else {
        a_tick_of_orgs_keeps_the_rest(states, ts, init);
        crate::store::writer::github::edges_after_keeps_keys(states, ts, init);
        let j = a_reported_runner_has_its_edge(mid, ts, last.rows_seq(), k);
        let among = |x: ApiRunnerRow| some_fetched(init, x);
        assert forall|x: ApiRunnerRow| #[trigger] among(x) implies !(x.org@ == row.org@ && x.agent_id
            == row.agent_id) by {
            let p = choose|p: int| 0 <= p < init.len() && fetched(#[trigger] init[p]).contains(x);
            assert(fetched(outcomes[p]).contains(x));
        }
        assert forall|i: int|
            0 <= i < mid.len() && (#[trigger] mid[i]).org@ == row.org@ && mid[i].agent_id
                == row.agent_id implies i < states.len() && mid[i] == states[i] by {
            if i >= states.len() {
                assert(edge_among(mid[i], among));
                let x = choose|x: ApiRunnerRow| #[trigger] among(x) && is_edge_of(mid[i], x);
                assert(!(x.org@ == row.org@ && x.agent_id == row.agent_id));
            } else {
                assert forall|x: ApiRunnerRow| #[trigger] among(x) implies !is_edge_of(states[i], x) by {
                    assert(!(x.org@ == row.org@ && x.agent_id == row.agent_id));
                }
            }
        }
        let s = edges_after(states, ts, outcomes)[j];
        assert forall|i: int|
            0 <= i < states.len() && (#[trigger] states[i]).org@ == row.org@ && states[i].agent_id
                == row.agent_id implies s.since_ts == (if states[i].online == row.online {
            states[i].since_ts
        } else {
            ts
        }) by {
            assert(mid[i].org@ == states[i].org@);
            assert(mid[i] == states[i]);
        }
        if forall|i: int|
            0 <= i < states.len() ==> !((#[trigger] states[i]).org@ == row.org@
                && states[i].agent_id == row.agent_id) {
            assert forall|i: int| 0 <= i < mid.len() implies !((#[trigger] mid[i]).org@ == row.org@
                && mid[i].agent_id == row.agent_id) by {
                if mid[i].org@ == row.org@ && mid[i].agent_id == row.agent_id {
                    assert(states[i].org@ == row.org@);
                }
            }
        }
        j
    }
}

// ---------------------------------------------------------------------------
// Each org's health, and the audit
// ---------------------------------------------------------------------------

/// The outcome is about the org.
pub open spec fn is_about(o: ApiOrgOutcome, name: Seq<char>) -> bool {
    match o {
        ApiOrgOutcome::Fetched { org, .. } => org@ == name,
        ApiOrgOutcome::Failed { org, .. } => org@ == name,
        ApiOrgOutcome::Unconfigured { org } => org@ == name,
    }
}

/// The status and the label under which an outcome is kept: those of a failure;
/// neither where nothing failed.
pub open spec fn kept_as(o: ApiOrgOutcome, status: Option<u16>, label: Option<Seq<char>>) -> bool {
    if let ApiOrgOutcome::Failed { kind, .. } = o {
        match kind {
            ApiErrorKind::Unauthorized => status == Some(401u16) && label == Some("http_401"@),
            ApiErrorKind::Forbidden => status == Some(403u16) && label == Some("http_403"@),
            ApiErrorKind::NotFound => status == Some(404u16) && label == Some("http_404"@),
            ApiErrorKind::Http(c) => status == Some(c) && label == Some(
                "http_"@ + crate::text::dec(c as int),
            ),
            ApiErrorKind::Transport => status is None && label == Some("transport"@),
            ApiErrorKind::Decode => status is None && label == Some("decode"@),
        }
    } else {
        status is None && label is None
    }
}

/// How an org's health stands after the org was asked about: tried at the round,
/// well only where the fetch succeeded, and last well then or, failing, when it was
/// before.
pub open spec fn health_follows(
    states: Seq<Health>,
    s: Health,
    ts: i64,
    o: ApiOrgOutcome,
) -> bool {
    &&& is_about(o, s.org)
    &&& s.last_try_ts == ts
    &&& s.ok <==> o is Fetched
    &&& s.configured <==> o !is Unconfigured
    &&& kept_as(o, s.http_status, s.error_kind)
    &&& o is Fetched ==> s.last_ok_ts == Some(ts)
    &&& o !is Fetched ==> forall|i: int|
        0 <= i < states.len() && (#[trigger] states[i]).org == s.org ==> s.last_ok_ts
            == states[i].last_ok_ts
    &&& o !is Fetched && (forall|i: int|
        0 <= i < states.len() ==> (#[trigger] states[i]).org != s.org) ==> s.last_ok_ts is None
}

proof fn one_outcome_keeps_the_rest(states: Seq<Health>, ts: i64, o: ApiOrgOutcome)
    ensures
        ({
            let after = health_seen(states, ts, o);
            let k = org_at(states, o.org_name()@);
            &&& after.len() >= states.len()
            &&& forall|i: int| 0 <= i < states.len() ==> (#[trigger] after[i]).org == states[i].org
            &&& forall|i: int|
                0 <= i < states.len() && states[i].org != o.org_name()@ ==> #[trigger] after[i]
                    == states[i]
            &&& forall|i: int|
                states.len() <= i < after.len() ==> (#[trigger] after[i]).org == o.org_name()@
            &&& 0 <= k < after.len()
            &&& k < states.len() ==> states[k].org == o.org_name()@
            &&& k == states.len() ==> forall|i: int|
                0 <= i < states.len() ==> (#[trigger] states[i]).org != o.org_name()@
        }),
{
    let p = |i: int| states[i].org == o.org_name()@;
    first_where_is_least(p, states.len() as int);
    let k = org_at(states, o.org_name()@);
    if k < states.len() {
        assert(p(k));
    } else {
        assert forall|i: int| 0 <= i < states.len() implies (#[trigger] states[i]).org
            != o.org_name()@ by {
            assert(!p(i));
        }
    }
}

proof fn outcomes_keep_the_rest(states: Seq<Health>, ts: i64, outcomes: Seq<ApiOrgOutcome>)
    ensures
        ({
            let after = healths_after(states, ts, outcomes);
            &&& after.len() >= states.len()
            &&& forall|i: int| 0 <= i < states.len() ==> (#[trigger] after[i]).org == states[i].org
            &&& forall|i: int|
                0 <= i < states.len() && (forall|k: int|
                    0 <= k < outcomes.len() ==> !is_about(#[trigger] outcomes[k], states[i].org))
                    ==> #[trigger] after[i] == states[i]
            &&& forall|i: int|
                states.len() <= i < after.len() ==> asked_about(outcomes, (#[trigger] after[i]).org)
        }),
    decreases outcomes.len(),
{
    if outcomes.len() > 0 {
        let init = outcomes.drop_last();
        let last = outcomes.last();
        let mid = healths_after(states, ts, init);
        let after = healths_after(states, ts, outcomes);
        outcomes_keep_the_rest(states, ts, init);
        one_outcome_keeps_the_rest(mid, ts, last);
        assert(outcomes[outcomes.len() - 1] == last);
        assert forall|i: int| 0 <= i < states.len() implies (#[trigger] after[i]).org
            == states[i].org by {
            assert(mid[i].org == states[i].org);
        }
        assert forall|i: int|
            0 <= i < states.len() && (forall|k: int|
                0 <= k < outcomes.len() ==> !is_about(
                    #[trigger] outcomes[k],
                    states[i].org,
                )) implies #[trigger] after[i] == states[i] by {
            assert forall|k: int| 0 <= k < init.len() implies !is_about(
                #[trigger] init[k],
                states[i].org,
            ) by {
                assert(init[k] == outcomes[k]);
            }
            assert(mid[i] == states[i]);
            assert(!is_about(last, states[i].org));
        }
        assert forall|i: int| states.len() <= i < after.len() implies asked_about(
            outcomes,
            (#[trigger] after[i]).org,
        ) by {
            if i < mid.len() {
                assert(mid[i].org == after[i].org);
                assert(asked_about(init, mid[i].org));
                let k = choose|k: int|
                    0 <= k < init.len() && is_about(#[trigger] init[k], mid[i].org);
                assert(is_about(outcomes[k], after[i].org));
            } else {
                assert(is_about(outcomes[outcomes.len() - 1], after[i].org));
            }
        }
    }
}

/// One of the outcomes is about the org.
pub open spec fn asked_about(outcomes: Seq<ApiOrgOutcome>, org: Seq<char>) -> bool {
    exists|k: int| 0 <= k < outcomes.len() && is_about(#[trigger] outcomes[k], org)
}

/// One of the health rows follows the outcome.
pub open spec fn health_followed(
    before: Seq<Health>,
    after: Seq<Health>,
    ts: i64,
    o: ApiOrgOutcome,
) -> bool {
    exists|j: int| 0 <= j < after.len() && health_follows(before, #[trigger] after[j], ts, o)
}

proof fn an_asked_org_has_its_health(
    states: Seq<Health>,
    ts: i64,
    outcomes: Seq<ApiOrgOutcome>,
    k: int,
) -> (j: int)
    requires
        crate::store::tables::distinct_orgs(states),
        0 <= k < outcomes.len(),
        forall|i: int|
            0 <= i < outcomes.len() && i != k ==> !is_about(
                #[trigger] outcomes[i],
                outcomes[k].org_name()@,
            ),
    ensures
        0 <= j < healths_after(states, ts, outcomes).len(),
        health_follows(states, healths_after(states, ts, outcomes)[j], ts, outcomes[k]),
    decreases outcomes.len(),
{
    let init = outcomes.drop_last();
    let last = outcomes.last();
    let mid = healths_after(states, ts, init);
    let name = outcomes[k].org_name()@;
    assert(outcomes[outcomes.len() - 1] == last);
    one_outcome_keeps_the_rest(mid, ts, last);
    if k < outcomes.len() - 1 {
        assert(init[k] == outcomes[k]);
        assert forall|i: int| 0 <= i < init.len() && i != k implies !is_about(
            #[trigger] init[i],
            init[k].org_name()@,
        ) by {
            assert(init[i] == outcomes[i]);
        }
        let j = an_asked_org_has_its_health(states, ts, init, k);
        assert(!is_about(last, name));
        assert(healths_after(states, ts, outcomes)[j] == mid[j]);
        j
    } else {
        outcomes_keep_the_rest(states, ts, init);
        assert forall|i: int| 0 <= i < init.len() implies !is_about(#[trigger] init[i], name) by {
            assert(init[i] == outcomes[i]);
        }
        let j = org_at(mid, name);
        assert forall|i: int| 0 <= i < mid.len() && (#[trigger] mid[i]).org == name implies i
            < states.len() && mid[i] == states[i] by {
            if i >= states.len() {
                assert(asked_about(init, mid[i].org));
                let m = choose|m: int|
                    0 <= m < init.len() && is_about(#[trigger] init[m], mid[i].org);
                assert(!is_about(init[m], name));
            }
        }
        let s = healths_after(states, ts, outcomes)[j];
        assert(s.org == name);
        assert forall|i: int| 0 <= i < states.len() && (#[trigger] states[i]).org == name implies i
            == j by {
            assert(mid[i].org == name);
            assert(j < mid.len());
            assert(mid[j].org == name);
            assert(states[j].org == name);
        }
        if j < mid.len() {
            assert(mid[j].org == name);
            assert(states[j].org == name);
        }
        j
    }
}

/// After a round of asking, each org that was asked about once has a health row that
/// follows its outcome; the row of an org that was not asked about is as it was, and
/// no other row is there.
pub proof fn a_round_moves_the_healths(
    before: Db,
    after: Db,
    ts: i64,
    outcomes: Seq<ApiOrgOutcome>,
)
    requires
        api_written(before, after, ts, outcomes),
        before.wf(),
    ensures
        forall|k: int|
            0 <= k < outcomes.len() && (forall|i: int, org: Seq<char>|
                0 <= i < outcomes.len() && i != k && is_about(outcomes[k], org) ==> !#[trigger]
                is_about(outcomes[i], org)) ==> health_followed(
                healths(before.reconcile_states@),
                healths(after.reconcile_states@),
                ts,
                #[trigger] outcomes[k],
            ),
        forall|i: int|
            0 <= i < before.reconcile_states@.len() && !asked_about(
                outcomes,
                before.reconcile_states@[i].org@,
            ) ==> (#[trigger] after.reconcile_states@[i])@ == before.reconcile_states@[i]@,
        forall|i: int|
            before.reconcile_states@.len() <= i < after.reconcile_states@.len() ==> asked_about(
                outcomes,
                (#[trigger] after.reconcile_states@[i]).org@,
            ),
{
    let states = healths(before.reconcile_states@);
    let late = healths(after.reconcile_states@);
    outcomes_keep_the_rest(states, ts, outcomes);
    assert forall|k: int|
        0 <= k < outcomes.len() && (forall|i: int, org: Seq<char>|
            0 <= i < outcomes.len() && i != k && is_about(outcomes[k], org) ==> !#[trigger] is_about(
                outcomes[i],
                org,
            )) implies health_followed(states, late, ts, #[trigger] outcomes[k]) by {
        let name = outcomes[k].org_name()@;
        assert(is_about(outcomes[k], name));
        let j = an_asked_org_has_its_health(states, ts, outcomes, k);
        assert(health_follows(states, late[j], ts, outcomes[k]));
    }
    assert forall|i: int|
        0 <= i < before.reconcile_states@.len() && !asked_about(
            outcomes,
            before.reconcile_states@[i].org@,
        ) implies (#[trigger] after.reconcile_states@[i])@ == before.reconcile_states@[i]@ by {
        assert(states[i] == before.reconcile_states@[i]@);
        assert(late[i] == after.reconcile_states@[i]@);
        assert(late[i] == states[i]);
    }
    assert forall|i: int|
        before.reconcile_states@.len() <= i < after.reconcile_states@.len() implies asked_about(
        outcomes,
        (#[trigger] after.reconcile_states@[i]).org@,
    ) by {
        assert(late[i] == after.reconcile_states@[i]@);
    }
}

/// A round of asking leaves one audit row for each outcome, in their order, behind
/// those before it: when, of which org, whether it went well, how it failed, and how
/// many runners were fetched.
pub proof fn a_round_is_audited(before: Db, after: Db, ts: i64, outcomes: Seq<ApiOrgOutcome>)
    requires
        api_written(before, after, ts, outcomes),
    ensures
        after.reconcile_samples@.len() == before.reconcile_samples@.len() + outcomes.len(),
        forall|i: int|
            0 <= i < before.reconcile_samples@.len() ==> (#[trigger] after.reconcile_samples@[i])@
                == before.reconcile_samples@[i]@,
        forall|k: int|
            0 <= k < outcomes.len() ==> {
                let row = after.reconcile_samples@[before.reconcile_samples@.len() + k];
                &&& row.ts == ts
                &&& is_about(#[trigger] outcomes[k], row.org@)
                &&& row.ok <==> outcomes[k] is Fetched
                &&& kept_as(
                    outcomes[k],
                    row.http_status,
                    crate::store::tables::opt_view(row.error_kind),
                )
                &&& row.runners == fetched(outcomes[k]).len()
            },
{
    let a = crate::store::tables::audits(after.reconcile_samples@);
    let b = crate::store::tables::audits(before.reconcile_samples@);
    assert(a.len() == b.len() + outcomes.len());
    assert forall|i: int| 0 <= i < before.reconcile_samples@.len() implies (
    #[trigger] after.reconcile_samples@[i])@ == before.reconcile_samples@[i]@ by {
        assert(a[i] == b[i]);
        assert(a[i] == after.reconcile_samples@[i]@);
    }
    assert forall|k: int| 0 <= k < outcomes.len() implies {
        let row = after.reconcile_samples@[before.reconcile_samples@.len() + k];
        &&& row.ts == ts
        &&& is_about(#[trigger] outcomes[k], row.org@)
        &&& row.ok <==> outcomes[k] is Fetched
        &&& kept_as(outcomes[k], row.http_status, crate::store::tables::opt_view(row.error_kind))
        &&& row.runners == fetched(outcomes[k]).len()
    } by {
        assert(a[b.len() + k] == after.reconcile_samples@[b.len() + k]@);
        assert(fetched(outcomes[k]) =~= outcomes[k].rows_seq());
    }
}

// ---------------------------------------------------------------------------
// Jobs
// ---------------------------------------------------------------------------

/// `org` is the owner in `repo`: what stands before its first slash.
pub open spec fn owns(org: Seq<char>, repo: Seq<char>) -> bool {
    &&& org.len() <= repo.len()
    &&& forall|i: int| 0 <= i < org.len() ==> #[trigger] org[i] == repo[i] && org[i] != '/'
    &&& org.len() < repo.len() ==> repo[org.len() as int] == '/'
}

proof fn the_owner_owns(repo: Seq<char>)
    ensures
        owns(owner_of(repo), repo),
{
    let k = crate::scan::first_at(repo, '/');
    crate::scan::first_at_is_least(repo, '/');
    let org = owner_of(repo);
    assert forall|i: int| 0 <= i < org.len() implies #[trigger] org[i] == repo[i] && org[i] != '/' by {
        assert(repo[i] != '/');
    }
}

/// The event is of the job.
pub open spec fn is_event_of(e: HookEvent, j: Job) -> bool {
    &&& e.run_id == j.run_id
    &&& e.run_attempt == j.run_attempt
    &&& e.job@ == j.job
    &&& e.runner@ == j.runner_name
}

/// An event leaves one row of its job. The row takes the event's repository and the
/// time of the phase that the event is of; its other time and its conclusion are as
/// they were, or none where the job was not known. No other row changes.
pub proof fn an_event_fills_its_job(jobs: Seq<Job>, e: HookEvent) -> (k: int)
    ensures
        ({
            let after = job_seen(jobs, e);
            &&& 0 <= k < after.len() && k <= jobs.len()
            &&& is_event_of(e, after[k])
            &&& after[k].repo == e.repo@
            &&& owns(after[k].org, e.repo@)
            &&& e.phase@ == "started"@ ==> after[k].started_at == Some(e.ts)
            &&& e.phase@ == "completed"@ ==> after[k].completed_at == Some(e.ts)
            &&& k < jobs.len() ==> {
                &&& after.len() == jobs.len()
                &&& is_event_of(e, jobs[k])
                &&& e.phase@ != "started"@ ==> after[k].started_at == jobs[k].started_at
                &&& e.phase@ != "completed"@ ==> after[k].completed_at == jobs[k].completed_at
                &&& after[k].conclusion == jobs[k].conclusion
            }
            &&& k == jobs.len() ==> {
                &&& after.len() == jobs.len() + 1
                &&& forall|i: int| 0 <= i < jobs.len() ==> !is_event_of(e, #[trigger] jobs[i])
                &&& e.phase@ != "started"@ ==> after[k].started_at is None
                &&& e.phase@ != "completed"@ ==> after[k].completed_at is None
                &&& after[k].conclusion is None
            }
            &&& forall|i: int| 0 <= i < jobs.len() && i != k ==> #[trigger] after[i] == jobs[i]
        }),
{
    let p = |i: int| jobs[i].key() == event_key(e);
    first_where_is_least(p, jobs.len() as int);
    let k = job_at(jobs, event_key(e));
    if k < jobs.len() {
        assert(p(k));
    } else {
        assert forall|i: int| 0 <= i < jobs.len() implies !is_event_of(e, #[trigger] jobs[i]) by {
            assert(!p(i));
        }
    }
    the_owner_owns(e.repo@);
    k
}

/// A row tells when its job was in a phase.
pub open spec fn tells_phase(j: Job, e: HookEvent) -> bool {
    &&& is_event_of(e, j)
    &&& e.phase@ == "started"@ ==> j.started_at == Some(e.ts)
    &&& e.phase@ == "completed"@ ==> j.completed_at == Some(e.ts)
}

/// One of the rows tells of the event.
pub open spec fn is_told(jobs: Seq<Job>, e: HookEvent) -> bool {
    exists|j: int| 0 <= j < jobs.len() && tells_phase(#[trigger] jobs[j], e)
}

/// No later event of the batch is of the same job and phase.
pub open spec fn last_word(events: Seq<HookEvent>, i: int) -> bool {
    forall|m: int|
        i < m < events.len() ==> !((#[trigger] events[m]).run_id == events[i].run_id
            && events[m].run_attempt == events[i].run_attempt && events[m].job@ == events[i].job@
            && events[m].runner@ == events[i].runner@ && events[m].phase@ == events[i].phase@)
}

proof fn the_last_word_stays(jobs: Seq<Job>, events: Seq<HookEvent>, i: int) -> (j: int)
    requires
        crate::store::tables::distinct_jobs(jobs),
        0 <= i < events.len(),
        last_word(events, i),
    ensures
        0 <= j < jobs_seen(jobs, events).len(),
        tells_phase(jobs_seen(jobs, events)[j], events[i]),
    decreases events.len(),
{
    let init = events.drop_last();
    let last = events.last();
    let mid = jobs_seen(jobs, init);
    assert(events[events.len() - 1] == last);
    let k = an_event_fills_its_job(mid, last);
    if i == events.len() - 1 {
        k
    } else {
        assert(init[i] == events[i]);
        assert forall|m: int| i < m < init.len() implies !((#[trigger] init[m]).run_id
            == init[i].run_id && init[m].run_attempt == init[i].run_attempt && init[m].job@
            == init[i].job@ && init[m].runner@ == init[i].runner@ && init[m].phase@
            == init[i].phase@) by {
            assert(init[m] == events[m]);
        }
        let j = the_last_word_stays(jobs, init, i);
        crate::store::writer::jobs::jobs_seen_keeps_keys(jobs, init);
        if is_event_of(last, mid[j]) {
            if k != j {
                if k < mid.len() {
                    assert(mid[k].key() == mid[j].key());
                } else {
                    assert(!is_event_of(last, mid[j]));
                }
            }
            assert(events[events.len() - 1].phase@ != events[i].phase@);
        } else {
            if k == j {
                assert(is_event_of(last, mid[k]));
            }
        }
        j
    }
}

proof fn other_jobs_stay(jobs: Seq<Job>, events: Seq<HookEvent>)
    ensures
        ({
            let after = jobs_seen(jobs, events);
            &&& after.len() >= jobs.len()
            &&& forall|i: int|
                0 <= i < jobs.len() ==> (#[trigger] after[i]).key() == jobs[i].key()
                    && after[i].conclusion == jobs[i].conclusion
            &&& forall|i: int|
                0 <= i < jobs.len() && !reported_in(events, jobs[i]) ==> #[trigger] after[i]
                    == jobs[i]
            &&& forall|i: int|
                jobs.len() <= i < after.len() ==> reported_in(events, #[trigger] after[i])
                    && after[i].conclusion is None
        }),
    decreases events.len(),
{
    if events.len() > 0 {
        let init = events.drop_last();
        let last = events.last();
        let mid = jobs_seen(jobs, init);
        let after = jobs_seen(jobs, events);
        other_jobs_stay(jobs, init);
        let k = an_event_fills_its_job(mid, last);
        assert(events[events.len() - 1] == last);
        assert forall|j: Job| #[trigger] reported_in(init, j) implies reported_in(events, j) by {
            let m = choose|m: int| 0 <= m < init.len() && is_event_of(#[trigger] init[m], j);
            assert(is_event_of(events[m], j));
        }
        assert(reported_in(events, after[k])) by {
            assert(is_event_of(events[events.len() - 1], after[k]));
        }
        assert forall|i: int| 0 <= i < jobs.len() implies (#[trigger] after[i]).key()
            == jobs[i].key() && after[i].conclusion == jobs[i].conclusion by {
            assert(mid[i].key() == jobs[i].key());
        }
        assert forall|i: int|
            0 <= i < jobs.len() && !reported_in(events, jobs[i]) implies #[trigger] after[i]
            == jobs[i] by {
            assert(mid[i] == jobs[i]);
            if i == k {
                assert(is_event_of(events[events.len() - 1], jobs[i]));
            }
        }
        assert forall|i: int| jobs.len() <= i < after.len() implies reported_in(
            events,
            #[trigger] after[i],
        ) && after[i].conclusion is None by {
            if i < mid.len() {
                assert(reported_in(init, mid[i]));
            }
        }
    }
}

/// One of the events is of the job.
pub open spec fn reported_in(events: Seq<HookEvent>, j: Job) -> bool {
    exists|m: int| 0 <= m < events.len() && is_event_of(#[trigger] events[m], j)
}

/// A batch of events leaves the jobs with its last word on each phase; conclusions
/// stay, a job that no event is of is as it was, and only jobs of the events are new.
pub proof fn a_batch_leaves_its_last_word(
    before: Db,
    after: Db,
    stream: Seq<char>,
    events: Seq<HookEvent>,
    offset: u64,
)
    requires
        hooks_applied(before, after, stream, events, offset),
        before.wf(),
    ensures
        forall|i: int|
            0 <= i < events.len() && last_word(events, i) ==> is_told(
                job_rows(after.jobs@),
                #[trigger] events[i],
            ),
        after.jobs@.len() >= before.jobs@.len(),
        forall|i: int|
            0 <= i < before.jobs@.len() ==> crate::store::tables::opt_view(
                (#[trigger] after.jobs@[i]).conclusion,
            ) == crate::store::tables::opt_view(before.jobs@[i].conclusion),
        forall|i: int|
            0 <= i < before.jobs@.len() && !reported_in(events, before.jobs@[i]@) ==> (
            #[trigger] after.jobs@[i])@ == before.jobs@[i]@,
        forall|i: int|
            before.jobs@.len() <= i < after.jobs@.len() ==> reported_in(
                events,
                (#[trigger] after.jobs@[i])@,
            ) && after.jobs@[i].conclusion is None,
{
    let jobs = job_rows(before.jobs@);
    let late = job_rows(after.jobs@);
    other_jobs_stay(jobs, events);
    assert(late.len() == after.jobs@.len());
    assert forall|i: int| 0 <= i < events.len() && last_word(events, i) implies is_told(
        late,
        #[trigger] events[i],
    ) by {
        let j = the_last_word_stays(jobs, events, i);
        assert(tells_phase(late[j], events[i]));
    }
    assert forall|i: int| 0 <= i < late.len() implies late[i] == (#[trigger] after.jobs@[i])@ by {}
    assert forall|i: int| 0 <= i < jobs.len() implies jobs[i] == (#[trigger] before.jobs@[i])@ by {}
    assert forall|i: int| 0 <= i < before.jobs@.len() implies crate::store::tables::opt_view(
        (#[trigger] after.jobs@[i]).conclusion,
    ) == crate::store::tables::opt_view(before.jobs@[i].conclusion) by {
        assert(late[i].conclusion == jobs[i].conclusion);
    }
    assert forall|i: int|
        0 <= i < before.jobs@.len() && !reported_in(events, before.jobs@[i]@) implies (
    #[trigger] after.jobs@[i])@ == before.jobs@[i]@ by {
        assert(late[i] == jobs[i]);
    }
    assert forall|i: int| before.jobs@.len() <= i < after.jobs@.len() implies reported_in(
        events,
        (#[trigger] after.jobs@[i])@,
    ) && after.jobs@[i].conclusion is None by {
        assert(late[i].conclusion is None);
    }
}

// ---------------------------------------------------------------------------
// Pruning
// ---------------------------------------------------------------------------

proof fn filter_keeps_exactly<T>(s: Seq<T>, p: spec_fn(T) -> bool)
    ensures
        forall|x: T| #[trigger] s.filter(p).contains(x) <==> s.contains(x) && p(x),
        s.filter(p).len() <= s.len(),
{
    broadcast use vstd::seq_lib::group_filter_ensures;

    assert forall|x: T| #[trigger] s.filter(p).contains(x) <==> s.contains(x) && p(x) by {
        if s.filter(p).contains(x) {
            let i = choose|i: int| 0 <= i < s.filter(p).len() && s.filter(p)[i] == x;
            assert(p(s.filter(p)[i]));
            s.lemma_filter_contains_rev(p, x);
        }
        if s.contains(x) && p(x) {
            let i = choose|i: int| 0 <= i < s.len() && s[i] == x;
            assert(s.filter(p).contains(s[i]));
        }
    }
}

/// Pruning drops the samples from before a time, of every series, and keeps those
/// from it on; it says how many went. Jobs, edges, health and offsets stay.
pub proof fn pruning_drops_only_the_old(before: Db, after: Db, cutoff: i64, removed: int)
    requires
        pruned(before, after, cutoff, removed),
    ensures
        forall|x: RunnerSample| #[trigger]
            after.runner_samples@.contains(x) <==> before.runner_samples@.contains(x) && x.ts
                >= cutoff,
        forall|x: HostSample| #[trigger]
            after.host_samples@.contains(x) <==> before.host_samples@.contains(x) && x.ts >= cutoff,
        forall|x: ApiSample| #[trigger]
            after.api_samples@.contains(x) <==> before.api_samples@.contains(x) && x.ts >= cutoff,
        forall|x: QueueSample| #[trigger]
            after.queue_samples@.contains(x) <==> before.queue_samples@.contains(x) && x.ts
                >= cutoff,
        forall|x: ReconcileSample| #[trigger]
            after.reconcile_samples@.contains(x) <==> before.reconcile_samples@.contains(x)
                && x.ts >= cutoff,
        removed >= 0,
        removed == before.runner_samples@.len() - after.runner_samples@.len()
            + before.host_samples@.len() - after.host_samples@.len() + before.api_samples@.len()
            - after.api_samples@.len() + before.queue_samples@.len() - after.queue_samples@.len()
            + before.reconcile_samples@.len() - after.reconcile_samples@.len(),
        after.jobs == before.jobs && after.offsets == before.offsets,
        after.runner_states == before.runner_states && after.api_states == before.api_states,
        after.reconcile_states == before.reconcile_states,
{
    filter_keeps_exactly(before.runner_samples@, |r: RunnerSample| r.ts >= cutoff);
    filter_keeps_exactly(before.host_samples@, |r: HostSample| r.ts >= cutoff);
    filter_keeps_exactly(before.api_samples@, |r: ApiSample| r.ts >= cutoff);
    filter_keeps_exactly(before.queue_samples@, |r: QueueSample| r.ts >= cutoff);
    filter_keeps_exactly(before.reconcile_samples@, |r: ReconcileSample| r.ts >= cutoff);
}

} // verus!
