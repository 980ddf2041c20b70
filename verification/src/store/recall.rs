//! What readers give back of what was written.

use vstd::prelude::*;

use crate::models::{
    ApiOrgOutcome, ApiState, GhView, HookEvent, HostSample, JobConclusion, RunnerSample,
};
use crate::store::reader::github::{clip64, gh_view, is_of, newest_at};
use crate::store::reader::jobs::{awaiting, newest_jobs, offset_read};
use crate::store::reader::laws::{tells_host, tells_usage};
use crate::store::reader::{
    any_row, hist_point, history, host_point, hosts_by_ts, max_ts, min_ts_where, newest_host,
    newest_tick, of_dir, of_newest_tick, retention_is_the_floor, samples_by_ts,
};
use crate::store::rows::{
    first_where_is_least, last_of, order, order_is_a_permutation, order_stays_within, select,
    select_is_exact,
};
use crate::store::tables::{job_rows, offset_rows, ApiSample, Db, Job};
use crate::store::writer::github::{api_written, reading, readings_after};
use crate::store::writer::jobs::{
    concluded_all, conclusions_applied, conclusions_keep_the_rest, event_key, hooks_applied,
    job_at, job_seen, jobs_seen, offsets_are_independent, stream_at,
};
use crate::store::writer::local_written;

verus! {

// ---------------------------------------------------------------------------
// Ticks
// ---------------------------------------------------------------------------

/// Where exactly the positions from `a` on satisfy `p`, they are what is selected.
proof fn select_run(p: spec_fn(int) -> bool, a: int, n: int)
    requires
        0 <= a <= n,
        forall|i: int| 0 <= i < a ==> !#[trigger] p(i),
        forall|i: int| a <= i < n ==> #[trigger] p(i),
    ensures
        select(p, n) == Seq::new((n - a) as nat, |k: int| a + k),
    decreases n,
{
    if n > a {
        select_run(p, a, n - 1);
        assert(p(n - 1));
    } else if n > 0 {
        assert(!p(n - 1));
        if n - 1 < a {
            select_none(p, n);
        }
    }
    assert(select(p, n) =~= Seq::new((n - a) as nat, |k: int| a + k));
}

proof fn select_none(p: spec_fn(int) -> bool, n: int)
    requires
        forall|i: int| 0 <= i < n ==> !#[trigger] p(i),
    ensures
        select(p, n) == Seq::<int>::empty(),
    decreases n,
{
    if n > 0 {
        select_none(p, n - 1);
        assert(!p(n - 1));
    }
    assert(select(p, n) =~= Seq::<int>::empty());
}

/// Where the last position that satisfies `p` is `j`, it ends what is selected.
proof fn select_ends(p: spec_fn(int) -> bool, j: int, n: int)
    requires
        0 <= j < n,
        p(j),
        forall|i: int| j < i < n ==> !#[trigger] p(i),
    ensures
        select(p, n) == select(p, j).push(j),
    decreases n,
{
    if n - 1 > j {
        assert(!p(n - 1));
        select_ends(p, j, n - 1);
    }
}

proof fn max_of_a_tick(rows: Seq<RunnerSample>, a: int, n: int, ts: i64)
    requires
        0 <= a < n <= rows.len(),
        forall|i: int| 0 <= i < a ==> (#[trigger] rows[i]).ts < ts,
        forall|i: int| a <= i < n ==> (#[trigger] rows[i]).ts == ts,
    ensures
        max_ts(rows, n) == Some(ts),
    decreases n,
{
    assert(rows[n - 1].ts == ts);
    if n - 1 > a {
        max_of_a_tick(rows, a, n - 1, ts);
    } else {
        max_below(rows, a, ts);
    }
}

proof fn max_below(rows: Seq<RunnerSample>, n: int, ts: i64)
    requires
        0 <= n <= rows.len(),
        forall|i: int| 0 <= i < n ==> (#[trigger] rows[i]).ts < ts,
    ensures
        max_ts(rows, n) matches Some(t) ==> t < ts,
    decreases n,
{
    if n > 0 {
        max_below(rows, n - 1, ts);
        assert(rows[n - 1].ts < ts);
    }
}

/// A tick that is newer than all before it is read back: the newest tick is its
/// rows, as they were written.
pub proof fn a_tick_is_read_back(
    before: Db,
    after: Db,
    runners: Seq<RunnerSample>,
    host: HostSample,
    ts: i64,
)
    requires
        local_written(before, after, runners, host),
        runners.len() > 0,
        forall|i: int| 0 <= i < runners.len() ==> (#[trigger] runners[i]).ts == ts,
        forall|i: int|
            0 <= i < before.runner_samples@.len() ==> (#[trigger] before.runner_samples@[i]).ts
                < ts,
    ensures
        newest_tick(after.runner_samples@) == runners,
{
    let old = before.runner_samples@;
    let rows = after.runner_samples@;
    let a = old.len() as int;
    let n = rows.len() as int;
    assert forall|i: int| 0 <= i < a implies (#[trigger] rows[i]).ts < ts by {
        assert(rows[i] == old[i]);
    }
    assert forall|i: int| a <= i < n implies (#[trigger] rows[i]).ts == ts by {
        assert(rows[i] == runners[i - a]);
    }
    max_of_a_tick(rows, a, n, ts);
    let p = of_newest_tick(rows);
    assert forall|i: int| 0 <= i < a implies !#[trigger] p(i) by {
        assert(rows[i].ts < ts);
    }
    assert forall|i: int| a <= i < n implies #[trigger] p(i) by {
        assert(rows[i].ts == ts);
    }
    select_run(p, a, n);
    assert(newest_tick(rows) =~= runners);
}

/// A position that may stand behind all others comes last.
proof fn placed_last(before: spec_fn(int, int) -> bool, idx: Seq<int>, j: int, n: int)
    requires
        forall|k: int| 0 <= k < idx.len() ==> 0 <= #[trigger] idx[k] < n,
        forall|i: int| 0 <= i < n && idx.contains(i) ==> #[trigger] before(i, j),
    ensures
        order(before, idx.push(j)) == order(before, idx).push(j),
{
    broadcast use vstd::seq_lib::group_to_multiset_ensures;

    order_stays_within(before, idx, n);
    order_is_a_permutation(before, idx);
    let o = order(before, idx);
    assert(idx.push(j).drop_last() =~= idx);
    if o.len() > 0 {
        let last = o[o.len() - 1];
        assert(o.contains(last));
        assert(o.to_multiset().count(last) > 0);
        assert(idx.contains(last));
        assert(before(o.last(), j));
    }
}

/// A host sample that is not older than any before it is read back as the newest.
pub proof fn a_host_sample_is_read_back(
    before: Db,
    after: Db,
    runners: Seq<RunnerSample>,
    host: HostSample,
)
    requires
        local_written(before, after, runners, host),
        forall|i: int|
            0 <= i < before.host_samples@.len() ==> (#[trigger] before.host_samples@[i]).ts
                <= host.ts,
    ensures
        newest_host(after.host_samples@) == Some(host_point(host)),
        newest_host(after.host_samples@) matches Some(h) && tells_host(h, host),
{
    let rows = after.host_samples@;
    let j = before.host_samples@.len() as int;
    let idx = select(any_row(), j);
    assert(any_row()(j));
    assert(select(any_row(), rows.len() as int) == idx.push(j));
    select_is_exact(any_row(), j);
    let earlier = hosts_by_ts(rows);
    assert forall|i: int| 0 <= i < j && idx.contains(i) implies #[trigger] earlier(i, j) by {
        assert(rows[i] == before.host_samples@[i]);
    }
    placed_last(earlier, idx, j, j);
    let o = order(earlier, idx.push(j));
    assert(o.last() == j);
    assert(last_of(o, 1).last() == j);
    assert(rows[j] == host);
}

/// A runner's sample is read back as the newest point of its history, where none
/// of that runner's is newer and none follows it in the round.
pub proof fn a_sample_ends_its_history(
    before: Db,
    after: Db,
    runners: Seq<RunnerSample>,
    host: HostSample,
    k: int,
    limit: nat,
)
    requires
        local_written(before, after, runners, host),
        0 <= k < runners.len(),
        limit > 0,
        forall|i: int|
            0 <= i < before.runner_samples@.len() && (#[trigger] before.runner_samples@[i]).dir@
                == runners[k].dir@ ==> before.runner_samples@[i].ts <= runners[k].ts,
        forall|i: int|
            0 <= i < runners.len() && (#[trigger] runners[i]).dir@ == runners[k].dir@ ==> i <= k
                && runners[i].ts <= runners[k].ts,
    ensures
        history(after.runner_samples@, runners[k].dir@, limit).len() > 0,
        history(after.runner_samples@, runners[k].dir@, limit).last() == hist_point(runners[k]),
        tells_usage(history(after.runner_samples@, runners[k].dir@, limit).last(), runners[k]),
{
    let old = before.runner_samples@;
    let rows = after.runner_samples@;
    let dir = runners[k].dir@;
    let a = old.len() as int;
    let j = a + k;
    let p = of_dir(rows, dir);
    assert(rows[j] == runners[k]);
    assert(p(j));
    assert forall|i: int| j < i < rows.len() implies !#[trigger] p(i) by {
        assert(rows[i] == runners[i - a]);
    }
    select_ends(p, j, rows.len() as int);
    select_is_exact(p, j);
    let idx = select(p, j);
    let earlier = samples_by_ts(rows);
    assert forall|i: int| 0 <= i < j && idx.contains(i) implies #[trigger] earlier(i, j) by {
        let m = choose|m: int| 0 <= m < idx.len() && idx[m] == i;
        assert(p(idx[m]));
        if i < a {
            assert(rows[i] == old[i]);
        } else {
            assert(rows[i] == runners[i - a]);
        }
    }
    placed_last(earlier, idx, j, j);
    let o = order(earlier, idx.push(j));
    assert(o.last() == j);
    assert(last_of(o, limit).last() == j);
}

// ---------------------------------------------------------------------------
// GitHub's readings
// ---------------------------------------------------------------------------

/// A reading that is its runner's last, and not older than any, is the newest.
proof fn newest_found(api: Seq<ApiSample>, org: Seq<char>, id: i64, j: int, n: int)
    requires
        0 <= j < n <= api.len(),
        is_of(api[j], org, id),
        forall|i: int|
            0 <= i < n && i != j && is_of(#[trigger] api[i], org, id) ==> i < j && api[i].ts
                <= api[j].ts,
    ensures
        newest_at(api, org, id, n) == j,
    decreases n,
{
    if n - 1 == j {
        crate::store::reader::github::newest_at_is_newest(api, org, id, n - 1);
        let b = newest_at(api, org, id, n - 1);
        if b >= 0 {
            assert(is_of(api[b], org, id));
        }
    } else {
        newest_found(api, org, id, j, n - 1);
        assert(!is_of(api[n - 1], org, id));
    }
}

/// Where the reading of the `k`th row of the `o`th outcome stands.
spec fn stands_at(samples: Seq<ApiSample>, ts: i64, outcomes: Seq<ApiOrgOutcome>, o: int, k: int) -> int {
    readings_after(samples, ts, outcomes.take(o)).len() + k
}

/// No other row of the tick is of the runner.
pub open spec fn alone_in(outcomes: Seq<ApiOrgOutcome>, o: int, k: int) -> bool {
    forall|p: int, q: int|
        0 <= p < outcomes.len() && 0 <= q < outcomes[p].rows_seq().len() && (
        #[trigger] outcomes[p].rows_seq()[q]).org@ == outcomes[o].rows_seq()[k].org@
            && outcomes[p].rows_seq()[q].agent_id == outcomes[o].rows_seq()[k].agent_id ==> p == o
            && q == k
}

/// What the readings of a tick are: those before it, then one for each row.
proof fn readings_are_of_rows(
    samples: Seq<ApiSample>,
    ts: i64,
    outcomes: Seq<ApiOrgOutcome>,
    o: int,
    k: int,
    org: Seq<char>,
    id: i64,
)
    requires
        0 <= o < outcomes.len(),
        0 <= k < outcomes[o].rows_seq().len(),
        outcomes[o].rows_seq()[k].org@ == org,
        outcomes[o].rows_seq()[k].agent_id == id,
        alone_in(outcomes, o, k),
        forall|i: int|
            0 <= i < samples.len() && is_of(#[trigger] samples[i], org, id) ==> samples[i].ts <= ts,
    ensures
        ({
            let all = readings_after(samples, ts, outcomes);
            let j = stands_at(samples, ts, outcomes, o, k);
            &&& samples.len() <= j < all.len()
            &&& all[j] == reading(ts, outcomes[o].rows_seq()[k])
            &&& forall|i: int|
                0 <= i < all.len() && i != j && is_of(#[trigger] all[i], org, id) ==> i < j
                    && all[i].ts <= ts
        }),
    decreases outcomes.len(),
{
    let init = outcomes.drop_last();
    let last = outcomes.last().rows_seq();
    let head = readings_after(samples, ts, init);
    let all = readings_after(samples, ts, outcomes);
    let j = stands_at(samples, ts, outcomes, o, k);
    assert(all.len() == head.len() + last.len());
    assert(outcomes[outcomes.len() - 1] == outcomes.last());
    if o < outcomes.len() - 1 {
        assert(init[o] == outcomes[o]);
        assert forall|p: int, q: int|
            0 <= p < init.len() && 0 <= q < init[p].rows_seq().len() && (
            #[trigger] init[p].rows_seq()[q]).org@ == init[o].rows_seq()[k].org@
                && init[p].rows_seq()[q].agent_id == init[o].rows_seq()[k].agent_id implies p == o
            && q == k by {
            assert(init[p] == outcomes[p]);
            assert(outcomes[p].rows_seq()[q] == init[p].rows_seq()[q]);
        }
        readings_are_of_rows(samples, ts, init, o, k, org, id);
        assert(init.take(o) =~= outcomes.take(o));
        assert forall|i: int|
            0 <= i < all.len() && i != j && is_of(#[trigger] all[i], org, id) implies i < j
            && all[i].ts <= ts by {
            if i < head.len() {
                assert(all[i] == head[i]);
            } else {
                let q = i - head.len();
                assert(all[i] == reading(ts, last[q]));
                assert(outcomes[outcomes.len() - 1].rows_seq()[q] == last[q]);
            }
        }
        assert(all[j] == head[j]);
    } else {
        assert(init =~= outcomes.take(o));
        readings_grow(samples, ts, init);
        assert(all[j] == reading(ts, last[k]));
        assert forall|i: int|
            0 <= i < all.len() && i != j && is_of(#[trigger] all[i], org, id) implies i < j
            && all[i].ts <= ts by {
            if i < head.len() {
                assert(all[i] == head[i]);
                assert(head[i].ts <= ts || i >= samples.len());
            } else {
                let q = i - head.len();
                assert(all[i] == reading(ts, last[q]));
                assert(outcomes[o].rows_seq()[q] == last[q]);
            }
        }
    }
}

/// The readings before a tick stay in front, and those of the tick carry its time.
proof fn readings_grow(samples: Seq<ApiSample>, ts: i64, outcomes: Seq<ApiOrgOutcome>)
    ensures
        ({
            let all = readings_after(samples, ts, outcomes);
            &&& all.len() >= samples.len()
            &&& forall|i: int| 0 <= i < samples.len() ==> #[trigger] all[i] == samples[i]
            &&& forall|i: int| samples.len() <= i < all.len() ==> (#[trigger] all[i]).ts == ts
        }),
    decreases outcomes.len(),
{
    if outcomes.len() > 0 {
        readings_grow(samples, ts, outcomes.drop_last());
    }
}

/// A reading that is not older than any of its runner's, and the only one of it in
/// its tick, is what readers see of the runner: fresh or stale by its age.
pub proof fn a_reading_is_read_back(
    before: Db,
    after: Db,
    ts: i64,
    outcomes: Seq<ApiOrgOutcome>,
    o: int,
    k: int,
    now: i64,
    max_age: u64,
)
    requires
        api_written(before, after, ts, outcomes),
        0 <= o < outcomes.len(),
        0 <= k < outcomes[o].rows_seq().len(),
        alone_in(outcomes, o, k),
        forall|i: int|
            0 <= i < before.api_samples@.len() && is_of(
                #[trigger] before.api_samples@[i],
                outcomes[o].rows_seq()[k].org@,
                outcomes[o].rows_seq()[k].agent_id,
            ) ==> before.api_samples@[i].ts <= ts,
    ensures
        ({
            let r = outcomes[o].rows_seq()[k];
            gh_view(after.api_samples@, r.org@, r.agent_id, now, max_age) == GhView::adjudged(
                ApiState { online: r.online, busy: r.busy },
                clip64(now - ts),
                max_age,
            )
        }),
        ({
            let r = outcomes[o].rows_seq()[k];
            let v = gh_view(after.api_samples@, r.org@, r.agent_id, now, max_age);
            let age = if now < ts {
                0
            } else if now - ts > i64::MAX {
                i64::MAX as int
            } else {
                now - ts
            };
            if age <= max_age {
                v matches GhView::Fresh { state, age_s } && state.online == r.online && state.busy
                    == r.busy && age_s == age
            } else {
                v matches GhView::Stale { age_s } && age_s == age
            }
        }),
{
    let r = outcomes[o].rows_seq()[k];
    let all = after.api_samples@;
    readings_are_of_rows(before.api_samples@, ts, outcomes, o, k, r.org@, r.agent_id);
    let j = stands_at(before.api_samples@, ts, outcomes, o, k);
    newest_found(all, r.org@, r.agent_id, j, all.len() as int);
}

// ---------------------------------------------------------------------------
// Jobs
// ---------------------------------------------------------------------------

/// How far a log was read is read back.
pub proof fn an_offset_is_read_back(
    before: Db,
    after: Db,
    stream: Seq<char>,
    events: Seq<HookEvent>,
    offset: u64,
)
    requires
        hooks_applied(before, after, stream, events, offset),
        offset <= i64::MAX,
    ensures
        ({
            let k = stream_at(offset_rows(after.offsets@), stream);
            &&& 0 <= k < after.offsets@.len()
            &&& after.offsets@[k].stream@ == stream
            &&& offset_read(after.offsets@[k].offset) == offset
        }),
{
    offsets_are_independent(offset_rows(before.offsets@), stream, offset as i64);
    let k = stream_at(offset_rows(after.offsets@), stream);
    assert(offset_rows(after.offsets@)[k] == (after.offsets@[k].stream@, after.offsets@[k].offset));
}

/// A job that has a row keeps one, and the job of an event gets one.
proof fn known_jobs_stay(jobs: Seq<Job>, e: HookEvent, key: (i64, i64, Seq<char>, Seq<char>))
    requires
        job_at(jobs, key) < jobs.len() || event_key(e) == key,
    ensures
        job_at(job_seen(jobs, e), key) < job_seen(jobs, e).len(),
{
    let p = |i: int| jobs[i].key() == key;
    let mine = |i: int| jobs[i].key() == event_key(e);
    first_where_is_least(p, jobs.len() as int);
    first_where_is_least(mine, jobs.len() as int);
    let after = job_seen(jobs, e);
    let k = job_at(jobs, event_key(e));
    let at = if job_at(jobs, key) < jobs.len() {
        job_at(jobs, key)
    } else {
        k
    };
    if at < jobs.len() {
        assert(p(at) || mine(at));
        if k < jobs.len() {
            assert(mine(k));
        }
    }
    assert(after[at].key() == key);
    let q = |i: int| after[i].key() == key;
    first_where_is_least(q, after.len() as int);
    assert(q(at));
}

proof fn events_leave_rows(jobs: Seq<Job>, events: Seq<HookEvent>, i: int)
    requires
        0 <= i < events.len(),
    ensures
        job_at(jobs_seen(jobs, events), event_key(events[i])) < jobs_seen(jobs, events).len(),
    decreases events.len(),
{
    let init = events.drop_last();
    if i < events.len() - 1 {
        events_leave_rows(jobs, init, i);
        assert(init[i] == events[i]);
    }
    known_jobs_stay(jobs_seen(jobs, init), events.last(), event_key(events[i]));
}

/// Every event of a batch leaves its job a row, and a list of the recent jobs that
/// is long enough leaves no job out.
pub proof fn an_event_is_recorded(
    before: Db,
    after: Db,
    stream: Seq<char>,
    events: Seq<HookEvent>,
    offset: u64,
    i: int,
    limit: nat,
)
    requires
        hooks_applied(before, after, stream, events, offset),
        0 <= i < events.len(),
        limit >= after.jobs@.len(),
    ensures
        job_at(job_rows(after.jobs@), event_key(events[i])) < after.jobs@.len(),
        newest_jobs(after.jobs@, any_row(), limit).len() == after.jobs@.len(),
{
    events_leave_rows(job_rows(before.jobs@), events, i);
    let n = after.jobs@.len() as int;
    select_run(any_row(), 0, n);
    order_is_a_permutation(
        crate::store::reader::jobs::jobs_by_time(after.jobs@),
        select(any_row(), n),
    );
}

/// The last conclusion of a job's key is the one that stays.
proof fn last_conclusion_stays(j: Job, updates: Seq<JobConclusion>, u: int)
    requires
        0 <= u < updates.len(),
        j.key() == (
            updates[u].run_id,
            updates[u].run_attempt,
            updates[u].job@,
            updates[u].runner_name@,
        ),
        forall|v: int|
            u < v < updates.len() ==> j.key() != (
                #[trigger] updates[v].run_id,
                updates[v].run_attempt,
                updates[v].job@,
                updates[v].runner_name@,
            ),
    ensures
        concluded_all(j, updates).conclusion == Some(updates[u].conclusion@),
    decreases updates.len(),
{
    let init = updates.drop_last();
    conclusions_keep_the_rest(j, init);
    assert(updates[updates.len() - 1] == updates.last());
    if u < updates.len() - 1 {
        assert(init[u] == updates[u]);
        assert forall|v: int| u < v < init.len() implies j.key() != (
            #[trigger] init[v].run_id,
            init[v].run_attempt,
            init[v].job@,
            init[v].runner_name@,
        ) by {
            assert(init[v] == updates[v]);
        }
        last_conclusion_stays(j, init, u);
        assert(j.key() != (
            updates[updates.len() - 1].run_id,
            updates[updates.len() - 1].run_attempt,
            updates[updates.len() - 1].job@,
            updates[updates.len() - 1].runner_name@,
        ));
    }
}

/// A conclusion that was resolved is read back, and its job awaits none any more.
pub proof fn a_conclusion_is_read_back(
    before: Db,
    after: Db,
    updates: Seq<JobConclusion>,
    i: int,
    u: int,
)
    requires
        conclusions_applied(before, after, updates),
        0 <= i < before.jobs@.len(),
        0 <= u < updates.len(),
        before.jobs@[i]@.key() == (
            updates[u].run_id,
            updates[u].run_attempt,
            updates[u].job@,
            updates[u].runner_name@,
        ),
        forall|v: int|
            u < v < updates.len() ==> before.jobs@[i]@.key() != (
                #[trigger] updates[v].run_id,
                updates[v].run_attempt,
                updates[v].job@,
                updates[v].runner_name@,
            ),
    ensures
        after.jobs@.len() == before.jobs@.len(),
        after.jobs@[i].conclusion matches Some(c) && c@ == updates[u].conclusion@,
        !awaiting(after.jobs@)(i),
{
    last_conclusion_stays(before.jobs@[i]@, updates, u);
    assert(job_rows(after.jobs@).len() == job_rows(before.jobs@).len());
    assert(job_rows(after.jobs@)[i] == after.jobs@[i]@);
    assert(job_rows(before.jobs@)[i] == before.jobs@[i]@);
}

// ---------------------------------------------------------------------------
// Retention
// ---------------------------------------------------------------------------

/// Once the samples before a time are dropped, none is held from before it: the
/// store says that it reaches back no further.
pub proof fn pruning_raises_the_floor(rows: Seq<RunnerSample>, cutoff: i64)
    ensures
        ({
            let left = rows.filter(|r: RunnerSample| r.ts >= cutoff);
            min_ts_where(left, any_row(), left.len() as int) matches Some(t) ==> t >= cutoff
        }),
{
    broadcast use vstd::seq_lib::group_filter_ensures;

    let keep = |r: RunnerSample| r.ts >= cutoff;
    let left = rows.filter(keep);
    retention_is_the_floor(left, any_row(), left.len() as int);
    if let Some(t) = min_ts_where(left, any_row(), left.len() as int) {
        let j = choose|j: int| 0 <= j < left.len() && #[trigger] any_row()(j) && left[j].ts == t;
        assert(keep(left[j]));
    }
}

} // verus!
