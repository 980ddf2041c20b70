//! What the runners' hooks reported: the jobs merged from their events, how far
//! each event log was read, and the conclusions that arrive later.

use vstd::prelude::*;

use crate::models::{copy_text, HookEvent, JobConclusion};
use crate::scan::{find_first, first_at};
use crate::store::rows::{find_row, first_where, first_where_is_least, first_where_unique};
use crate::store::tables::{
    distinct_jobs, distinct_streams, job_rows, offset_rows, Db, IngestOffset, Job, JobEvent,
};
use crate::text::{chars_of, owned, same, string_of};

verus! {

// ---------------------------------------------------------------------------
// Jobs
// ---------------------------------------------------------------------------

/// The owner in `owner/name`: what stands before the first slash.
pub open spec fn owner_of(repo: Seq<char>) -> Seq<char> {
    repo.take(first_at(repo, '/'))
}

/// The time at which an event says its job started.
pub open spec fn start_of(e: HookEvent) -> Option<i64> {
    if e.phase@ == "started"@ {
        Some(e.ts)
    } else {
        None
    }
}

/// The time at which an event says its job completed.
pub open spec fn completion_of(e: HookEvent) -> Option<i64> {
    if e.phase@ == "completed"@ {
        Some(e.ts)
    } else {
        None
    }
}

/// The key of the job that an event is about.
pub open spec fn event_key(e: HookEvent) -> (i64, i64, Seq<char>, Seq<char>) {
    (e.run_id, e.run_attempt, e.job@, e.runner@)
}

/// The first of two values that is there.
pub open spec fn or_else<T>(a: Option<T>, b: Option<T>) -> Option<T> {
    if a is Some {
        a
    } else {
        b
    }
}

/// Where the row of a job stands; the length where there is none.
pub open spec fn job_at(jobs: Seq<Job>, key: (i64, i64, Seq<char>, Seq<char>)) -> int {
    first_where(|i: int| jobs[i].key() == key, jobs.len() as int)
}

/// The job rows after one event: each event fills the time it carries and keeps
/// the other.
pub open spec fn job_seen(jobs: Seq<Job>, e: HookEvent) -> Seq<Job> {
    let k = job_at(jobs, event_key(e));
    if k < jobs.len() {
        jobs.update(
            k,
            Job {
                repo: e.repo@,
                org: owner_of(e.repo@),
                started_at: or_else(start_of(e), jobs[k].started_at),
                completed_at: or_else(completion_of(e), jobs[k].completed_at),
                ..jobs[k]
            },
        )
    } else {
        jobs.push(
            Job {
                run_id: e.run_id,
                run_attempt: e.run_attempt,
                job: e.job@,
                repo: e.repo@,
                org: owner_of(e.repo@),
                runner_name: e.runner@,
                started_at: start_of(e),
                completed_at: completion_of(e),
                conclusion: None,
            },
        )
    }
}

/// The job rows after a run of events.
pub open spec fn jobs_seen(jobs: Seq<Job>, events: Seq<HookEvent>) -> Seq<Job>
    decreases events.len(),
{
    if events.len() == 0 {
        jobs
    } else {
        job_seen(jobs_seen(jobs, events.drop_last()), events.last())
    }
}

pub(crate) proof fn job_found(jobs: Seq<Job>, e: HookEvent)
    ensures
        ({
            let k = job_at(jobs, event_key(e));
            let after = job_seen(jobs, e);
            &&& 0 <= k <= jobs.len()
            &&& k < after.len()
            &&& after[k].key() == event_key(e)
            &&& job_at(after, event_key(e)) == k
            &&& after.len() >= jobs.len()
            &&& forall|i: int| 0 <= i < jobs.len() && i != k ==> #[trigger] after[i] == jobs[i]
        }),
{
    let key = event_key(e);
    let p = |i: int| jobs[i].key() == key;
    first_where_is_least(p, jobs.len() as int);
    let k = job_at(jobs, key);
    let after = job_seen(jobs, e);
    if k < jobs.len() {
        assert(p(k));
    }
    let q = |i: int| after[i].key() == key;
    assert forall|i: int| 0 <= i < k implies !#[trigger] q(i) by {
        assert(!p(i));
        assert(after[i] == jobs[i]);
    }
    assert(q(k));
    first_where_unique(q, after.len() as int, k);
}

/// The start and the completion of one job merge into one row that carries both
/// times, in whichever order they arrive, and no other row changes.
pub proof fn start_and_completion_merge(jobs: Seq<Job>, start: HookEvent, end: HookEvent)
    requires
        start.phase@ == "started"@,
        end.phase@ == "completed"@,
        event_key(start) == event_key(end),
    ensures
        ({
            let k = job_at(jobs, event_key(start));
            let forward = job_seen(job_seen(jobs, start), end);
            let backward = job_seen(job_seen(jobs, end), start);
            &&& forward.len() == backward.len()
            &&& forward.len() == if k < jobs.len() {
                jobs.len()
            } else {
                jobs.len() + 1
            }
            &&& forward[k].key() == event_key(start)
            &&& forward[k].started_at == Some(start.ts)
            &&& forward[k].completed_at == Some(end.ts)
            &&& backward[k].started_at == Some(start.ts)
            &&& backward[k].completed_at == Some(end.ts)
            &&& forall|i: int| 0 <= i < jobs.len() && i != k ==> #[trigger] forward[i] == jobs[i]
        }),
{
    reveal_strlit("started");
    reveal_strlit("completed");
    assert("started"@.len() != "completed"@.len());
    job_found(jobs, start);
    job_found(jobs, end);
    job_found(job_seen(jobs, start), end);
    job_found(job_seen(jobs, end), start);
}

/// Events never take a conclusion away, nor give one.
pub proof fn events_keep_conclusions(jobs: Seq<Job>, e: HookEvent, i: int)
    requires
        0 <= i < jobs.len(),
    ensures
        job_seen(jobs, e)[i].conclusion == jobs[i].conclusion,
        job_seen(jobs, e)[i].key() == jobs[i].key(),
{
    job_found(jobs, e);
}

proof fn job_seen_keeps_keys(jobs: Seq<Job>, e: HookEvent)
    requires
        distinct_jobs(jobs),
    ensures
        distinct_jobs(job_seen(jobs, e)),
{
    let p = |i: int| jobs[i].key() == event_key(e);
    first_where_is_least(p, jobs.len() as int);
    let k = job_at(jobs, event_key(e));
    let after = job_seen(jobs, e);
    assert forall|i: int, j: int| 0 <= i < j < after.len() implies #[trigger] after[i].key()
        != #[trigger] after[j].key() by {
        if k < jobs.len() {
            assert(after[i].key() == jobs[i].key());
            assert(after[j].key() == jobs[j].key());
        } else if j == jobs.len() {
            assert(!p(i));
        }
    }
}

pub(crate) proof fn jobs_seen_keeps_keys(jobs: Seq<Job>, events: Seq<HookEvent>)
    requires
        distinct_jobs(jobs),
    ensures
        distinct_jobs(jobs_seen(jobs, events)),
    decreases events.len(),
{
    if events.len() > 0 {
        jobs_seen_keeps_keys(jobs, events.drop_last());
        job_seen_keeps_keys(jobs_seen(jobs, events.drop_last()), events.last());
    }
}

/// The owner in `owner/name`.
pub fn repo_owner(repo: &str) -> (r: String)
    ensures
        r@ == owner_of(repo@),
{
    let chars = chars_of(repo);
    let k: usize = find_first(chars.as_slice(), '/');
    let head = vstd::slice::slice_subrange(chars.as_slice(), 0, k);
    let r = string_of(head);
    assert(r@ =~= repo@.take(k as int));
    r
}

fn find_job(jobs: &Vec<JobEvent>, run_id: i64, run_attempt: i64, job: &String, runner: &String)
    -> (k: usize)
    ensures
        k == job_at(job_rows(jobs@), (run_id, run_attempt, job@, runner@)),
        k <= jobs@.len(),
{
    let hit = |i: usize| -> (b: bool)
        requires
            i < jobs@.len(),
        ensures
            b == (job_rows(jobs@)[i as int].key() == (run_id, run_attempt, job@, runner@)),
    {
        jobs[i].run_id == run_id && jobs[i].run_attempt == run_attempt && jobs[i].job == *job
            && jobs[i].runner_name == *runner
    };
    find_row(
        jobs.len(),
        hit,
        Ghost(|i: int| job_rows(jobs@)[i].key() == (run_id, run_attempt, job@, runner@)),
    )
}

fn see_job(jobs: &mut Vec<JobEvent>, e: &HookEvent)
    ensures
        job_rows(final(jobs)@) == job_seen(job_rows(old(jobs)@), *e),
{
    let started: Option<i64> = if same(e.phase.as_str(), "started") {
        Some(e.ts)
    } else {
        None
    };
    let completed: Option<i64> = if same(e.phase.as_str(), "completed") {
        Some(e.ts)
    } else {
        None
    };
    let org = repo_owner(e.repo.as_str());
    let k: usize = find_job(jobs, e.run_id, e.run_attempt, &e.job, &e.runner);
    if k < jobs.len() {
        let old_row = &jobs[k];
        let row = JobEvent {
            run_id: old_row.run_id,
            run_attempt: old_row.run_attempt,
            job: old_row.job.clone(),
            repo: e.repo.clone(),
            org,
            runner_name: old_row.runner_name.clone(),
            started_at: if started.is_some() {
                started
            } else {
                old_row.started_at
            },
            completed_at: if completed.is_some() {
                completed
            } else {
                old_row.completed_at
            },
            conclusion: copy_text(&old_row.conclusion),
        };
        let ghost view = row@;
        jobs.set(k, row);
        assert(job_rows(jobs@) =~= job_rows(old(jobs)@).update(k as int, view));
    } else {
        let row = JobEvent {
            run_id: e.run_id,
            run_attempt: e.run_attempt,
            job: e.job.clone(),
            repo: e.repo.clone(),
            org,
            runner_name: e.runner.clone(),
            started_at: started,
            completed_at: completed,
            conclusion: None,
        };
        let ghost view = row@;
        jobs.push(row);
        assert(job_rows(jobs@) =~= job_rows(old(jobs)@).push(view));
    }
}

// ---------------------------------------------------------------------------
// Offsets
// ---------------------------------------------------------------------------

/// Which positions hold the offset of `stream`.
pub open spec fn of_stream(rows: Seq<(Seq<char>, i64)>, stream: Seq<char>) -> spec_fn(int) -> bool {
    |i: int| rows[i].0 == stream
}

/// Where the offset of `stream` stands; the length where there is none.
pub open spec fn stream_at(rows: Seq<(Seq<char>, i64)>, stream: Seq<char>) -> int {
    first_where(of_stream(rows, stream), rows.len() as int)
}

/// The offsets after `stream` was read up to `offset`.
pub open spec fn offset_moved(rows: Seq<(Seq<char>, i64)>, stream: Seq<char>, offset: i64) -> Seq<
    (Seq<char>, i64),
> {
    let k = stream_at(rows, stream);
    if k < rows.len() {
        rows.update(k, (rows[k].0, offset))
    } else {
        rows.push((stream, offset))
    }
}

/// Each stream keeps its own offset: moving one sets it and leaves the others.
pub proof fn offsets_are_independent(rows: Seq<(Seq<char>, i64)>, stream: Seq<char>, offset: i64)
    ensures
        ({
            let k = stream_at(rows, stream);
            let after = offset_moved(rows, stream, offset);
            &&& 0 <= k < after.len()
            &&& after[k] == (stream, offset)
            &&& stream_at(after, stream) == k
            &&& forall|i: int|
                0 <= i < rows.len() && rows[i].0 != stream ==> #[trigger] after[i] == rows[i]
        }),
{
    let p = of_stream(rows, stream);
    first_where_is_least(p, rows.len() as int);
    let k = stream_at(rows, stream);
    let after = offset_moved(rows, stream, offset);
    if k < rows.len() {
        assert(p(k));
    }
    let q = of_stream(after, stream);
    assert forall|i: int| 0 <= i < k implies !#[trigger] q(i) by {
        assert(!p(i));
        assert(after[i] == rows[i]);
    }
    assert(q(k));
    first_where_unique(q, after.len() as int, k);
}

proof fn offset_moved_keeps_keys(rows: Seq<(Seq<char>, i64)>, stream: Seq<char>, offset: i64)
    requires
        distinct_streams(rows),
    ensures
        distinct_streams(offset_moved(rows, stream, offset)),
{
    let p = of_stream(rows, stream);
    first_where_is_least(p, rows.len() as int);
    let k = stream_at(rows, stream);
    let after = offset_moved(rows, stream, offset);
    assert forall|i: int, j: int| 0 <= i < j < after.len() implies #[trigger] after[i].0
        != #[trigger] after[j].0 by {
        if k < rows.len() {
            assert(after[i].0 == rows[i].0);
            assert(after[j].0 == rows[j].0);
        } else if j == rows.len() {
            assert(!p(i));
        }
    }
}

pub(crate) fn find_stream(rows: &Vec<IngestOffset>, stream: &str) -> (k: usize)
    ensures
        k == stream_at(offset_rows(rows@), stream@),
        k <= rows@.len(),
{
    let hit = |i: usize| -> (b: bool)
        requires
            i < rows@.len(),
        ensures
            b == (offset_rows(rows@)[i as int].0 == stream@),
    {
        same(rows[i].stream.as_str(), stream)
    };
    find_row(rows.len(), hit, Ghost(of_stream(offset_rows(rows@), stream@)))
}

fn move_offset(rows: &mut Vec<IngestOffset>, stream: &str, offset: i64)
    ensures
        offset_rows(final(rows)@) == offset_moved(offset_rows(old(rows)@), stream@, offset),
{
    let k: usize = find_stream(rows, stream);
    if k < rows.len() {
        let row = IngestOffset { stream: rows[k].stream.clone(), offset };
        let ghost view = (row.stream@, row.offset);
        rows.set(k, row);
        assert(offset_rows(rows@) =~= offset_rows(old(rows)@).update(k as int, view));
    } else {
        let row = IngestOffset { stream: owned(stream), offset };
        let ghost view = (row.stream@, row.offset);
        rows.push(row);
        assert(offset_rows(rows@) =~= offset_rows(old(rows)@).push(view));
    }
}

/// Whether a batch of events was applied with the new offset of its log, and nothing
/// else.
pub open spec fn hooks_applied(before: Db, after: Db, stream: Seq<char>, events: Seq<HookEvent>, offset: u64) -> bool {
    &&& job_rows(after.jobs@) == jobs_seen(job_rows(before.jobs@), events)
    &&& offset_rows(after.offsets@) == offset_moved(
            offset_rows(before.offsets@),
            stream,
            offset as i64,
        )
    &&& after.runner_samples == before.runner_samples
    &&& after.host_samples == before.host_samples
    &&& after.queue_samples == before.queue_samples
    &&& after.api_samples == before.api_samples
    &&& after.reconcile_samples == before.reconcile_samples
    &&& after.runner_states == before.runner_states
    &&& after.api_states == before.api_states
    &&& after.reconcile_states == before.reconcile_states
    &&& before.wf() ==> after.wf()
}

/// Merge hook events into the jobs and move the offset of the log they came from.
pub fn apply_hook_events(db: &mut Db, stream: &str, events: &[HookEvent], offset: u64)
    ensures
        hooks_applied(*old(db), *final(db), stream@, events@, offset),
{
    let mut i: usize = 0;
    assert(events@.take(0) =~= seq![]);
    while i < events.len()
        invariant
            i <= events@.len(),
            job_rows(db.jobs@) == jobs_seen(job_rows(old(db).jobs@), events@.take(i as int)),
            db.offsets == old(db).offsets,
            db.runner_samples == old(db).runner_samples,
            db.host_samples == old(db).host_samples,
            db.queue_samples == old(db).queue_samples,
            db.api_samples == old(db).api_samples,
            db.reconcile_samples == old(db).reconcile_samples,
            db.runner_states == old(db).runner_states,
            db.api_states == old(db).api_states,
            db.reconcile_states == old(db).reconcile_states,
        decreases events@.len() - i,
    {
        see_job(&mut db.jobs, &events[i]);
        proof {
            assert(events@.take(i + 1).drop_last() =~= events@.take(i as int));
            assert(events@.take(i + 1).last() == events@[i as int]);
        }
        i = i + 1;
    }
    assert(events@.take(i as int) =~= events@);
    move_offset(&mut db.offsets, stream, offset as i64);
    proof {
        if old(db).wf() {
            jobs_seen_keeps_keys(job_rows(old(db).jobs@), events@);
            offset_moved_keeps_keys(offset_rows(old(db).offsets@), stream@, offset as i64);
        }
    }
}

// ---------------------------------------------------------------------------
// Conclusions
// ---------------------------------------------------------------------------

/// A job row once a conclusion was resolved: its own row takes it.
pub open spec fn concluded(j: Job, u: JobConclusion) -> Job {
    if j.key() == (u.run_id, u.run_attempt, u.job@, u.runner_name@) {
        Job { conclusion: Some(u.conclusion@), ..j }
    } else {
        j
    }
}

/// A job row after a run of conclusions.
pub open spec fn concluded_all(j: Job, updates: Seq<JobConclusion>) -> Job
    decreases updates.len(),
{
    if updates.len() == 0 {
        j
    } else {
        concluded(concluded_all(j, updates.drop_last()), updates.last())
    }
}

/// Resolving conclusions changes conclusions alone: the times, the repository and
/// the key of a job are the hook's.
pub proof fn conclusions_keep_the_rest(j: Job, updates: Seq<JobConclusion>)
    ensures
        concluded_all(j, updates) == (Job {
            conclusion: concluded_all(j, updates).conclusion,
            ..j
        }),
        (forall|i: int|
            0 <= i < updates.len() ==> j.key() != (
                #[trigger] updates[i].run_id,
                updates[i].run_attempt,
                updates[i].job@,
                updates[i].runner_name@,
            )) ==> concluded_all(j, updates) == j,
    decreases updates.len(),
{
    if updates.len() > 0 {
        let init = updates.drop_last();
        conclusions_keep_the_rest(j, init);
        if forall|i: int|
            0 <= i < updates.len() ==> j.key() != (
                #[trigger] updates[i].run_id,
                updates[i].run_attempt,
                updates[i].job@,
                updates[i].runner_name@,
            ) {
            assert forall|i: int| 0 <= i < init.len() implies j.key() != (
                #[trigger] init[i].run_id,
                init[i].run_attempt,
                init[i].job@,
                init[i].runner_name@,
            ) by {
                assert(init[i] == updates[i]);
            }
            assert(updates[updates.len() - 1] == updates.last());
        }
    }
}

fn conclude(jobs: &mut Vec<JobEvent>, u: &JobConclusion)
    ensures
        job_rows(final(jobs)@) == job_rows(old(jobs)@).map_values(|j: Job| concluded(j, *u)),
{
    let ghost was = job_rows(jobs@);
    let mut i: usize = 0;
    while i < jobs.len()
        invariant
            i <= jobs@.len(),
            was.len() == jobs@.len(),
            forall|k: int| 0 <= k < i ==> #[trigger] job_rows(jobs@)[k] == concluded(was[k], *u),
            forall|k: int| i <= k < was.len() ==> #[trigger] job_rows(jobs@)[k] == was[k],
        decreases jobs@.len() - i,
    {
        let row = &jobs[i];
        let ghost before = job_rows(jobs@);
        assert(before[i as int] == row@);
        if row.run_id == u.run_id && row.run_attempt == u.run_attempt && row.job == u.job
            && row.runner_name == u.runner_name {
            let fresh = JobEvent {
                run_id: row.run_id,
                run_attempt: row.run_attempt,
                job: row.job.clone(),
                repo: row.repo.clone(),
                org: row.org.clone(),
                runner_name: row.runner_name.clone(),
                started_at: row.started_at,
                completed_at: row.completed_at,
                conclusion: Some(u.conclusion.clone()),
            };
            let ghost view = fresh@;
            jobs.set(i, fresh);
            assert(job_rows(jobs@) =~= before.update(i as int, view));
        }
        i = i + 1;
    }
    assert(job_rows(jobs@) =~= was.map_values(|j: Job| concluded(j, *u)));
}

/// Whether conclusions were filled in, and nothing else.
pub open spec fn conclusions_applied(before: Db, after: Db, updates: Seq<JobConclusion>) -> bool {
    &&& job_rows(after.jobs@) == job_rows(before.jobs@).map_values(
            |j: Job| concluded_all(j, updates),
        )
    &&& after.runner_samples == before.runner_samples
    &&& after.host_samples == before.host_samples
    &&& after.queue_samples == before.queue_samples
    &&& after.api_samples == before.api_samples
    &&& after.reconcile_samples == before.reconcile_samples
    &&& after.runner_states == before.runner_states
    &&& after.api_states == before.api_states
    &&& after.reconcile_states == before.reconcile_states
    &&& after.offsets == before.offsets
    &&& before.wf() ==> after.wf()
}

/// Write resolved conclusions to the jobs. One that matches no row does nothing.
pub fn apply_job_conclusions(db: &mut Db, updates: &[JobConclusion])
    ensures
        conclusions_applied(*old(db), *final(db), updates@),
{
    let ghost was = job_rows(db.jobs@);
    let mut i: usize = 0;
    assert(updates@.take(0) =~= seq![]);
    assert(was.map_values(|j: Job| concluded_all(j, updates@.take(0))) =~= was);
    while i < updates.len()
        invariant
            i <= updates@.len(),
            job_rows(db.jobs@) == was.map_values(
                |j: Job| concluded_all(j, updates@.take(i as int)),
            ),
            db.runner_samples == old(db).runner_samples,
            db.host_samples == old(db).host_samples,
            db.queue_samples == old(db).queue_samples,
            db.api_samples == old(db).api_samples,
            db.reconcile_samples == old(db).reconcile_samples,
            db.runner_states == old(db).runner_states,
            db.api_states == old(db).api_states,
            db.reconcile_states == old(db).reconcile_states,
            db.offsets == old(db).offsets,
        decreases updates@.len() - i,
    {
        let ghost before = job_rows(db.jobs@);
        conclude(&mut db.jobs, &updates[i]);
        proof {
            let now = updates@.take(i + 1);
            assert(now.drop_last() =~= updates@.take(i as int));
            assert(now.last() == updates@[i as int]);
            assert(job_rows(db.jobs@) =~= was.map_values(|j: Job| concluded_all(j, now)));
        }
        i = i + 1;
    }
    proof {
        assert(updates@.take(i as int) =~= updates@);
        let after = job_rows(db.jobs@);
        if old(db).wf() {
            assert forall|a: int, b: int| 0 <= a < b < after.len() implies #[trigger] after[a].key()
                != #[trigger] after[b].key() by {
                conclusions_keep_the_rest(was[a], updates@);
                conclusions_keep_the_rest(was[b], updates@);
                assert(was[a].key() != was[b].key());
            }
        }
    }
}

} // verus!
