//! What readers make of the jobs: the recent ones, those that await a
//! conclusion, and how far each event log was read.

use vstd::prelude::*;

use crate::models::{copy_text, JobRow, PendingConclusion};
use crate::store::reader::any_row;
use crate::store::rows::{at, first_of, order, order_rows, select, select_rows};
use crate::store::tables::{offset_rows, Db, IngestOffset, JobEvent};
use crate::text::same;

verus! {

/// The time by which a job is ordered: its start, or else its completion.
pub open spec fn job_time(j: JobEvent) -> Option<i64> {
    if j.started_at is Some {
        j.started_at
    } else {
        j.completed_at
    }
}

/// Newest first; a job without a time comes last.
pub open spec fn newer_or_equal(a: Option<i64>, b: Option<i64>) -> bool {
    match (a, b) {
        (_, None) => true,
        (None, Some(_)) => false,
        (Some(x), Some(y)) => x >= y,
    }
}

/// Jobs, newest first.
pub open spec fn jobs_by_time(rows: Seq<JobEvent>) -> spec_fn(int, int) -> bool {
    |i: int, j: int| newer_or_equal(job_time(rows[i]), job_time(rows[j]))
}

/// The row that is shown of a job.
pub open spec fn job_row(j: JobEvent) -> JobRow {
    JobRow {
        runner_name: j.runner_name,
        repo: j.repo,
        job: j.job,
        started_at: j.started_at,
        completed_at: j.completed_at,
        conclusion: j.conclusion,
    }
}

/// The `limit` newest jobs among those that satisfy `p`, newest first.
pub open spec fn newest_jobs(rows: Seq<JobEvent>, p: spec_fn(int) -> bool, limit: nat) -> Seq<JobRow> {
    first_of(order(jobs_by_time(rows), select(p, rows.len() as int)), limit).map_values(
        |i: int| job_row(rows[i]),
    )
}

/// Which jobs ran on a runner.
pub open spec fn of_runner(rows: Seq<JobEvent>, name: Seq<char>) -> spec_fn(int) -> bool {
    |i: int| rows[i].runner_name@ == name
}

fn time_of(j: &JobEvent) -> (r: Option<i64>)
    ensures
        r == job_time(*j),
{
    if j.started_at.is_some() {
        j.started_at
    } else {
        j.completed_at
    }
}

fn not_older(a: Option<i64>, b: Option<i64>) -> (r: bool)
    ensures
        r == newer_or_equal(a, b),
{
    match (a, b) {
        (_, None) => true,
        (None, Some(_)) => false,
        (Some(x), Some(y)) => x >= y,
    }
}

fn shown(j: &JobEvent) -> (r: JobRow)
    ensures
        r == job_row(*j),
{
    JobRow {
        runner_name: j.runner_name.clone(),
        repo: j.repo.clone(),
        job: j.job.clone(),
        started_at: j.started_at,
        completed_at: j.completed_at,
        conclusion: copy_text(&j.conclusion),
    }
}

/// The rows shown of the first `limit` positions.
fn show_first(rows: &Vec<JobEvent>, idx: &Vec<usize>, limit: usize) -> (r: Vec<JobRow>)
    requires
        forall|k: int| 0 <= k < idx@.len() ==> #[trigger] idx@[k] < rows@.len(),
    ensures
        r@ == first_of(at(idx@), limit as nat).map_values(|i: int| job_row(rows@[i])),
{
    let mut out: Vec<JobRow> = Vec::new();
    let mut k: usize = 0;
    while k < idx.len() && k < limit
        invariant
            k <= idx@.len(),
            k <= limit,
            forall|m: int| 0 <= m < idx@.len() ==> #[trigger] idx@[m] < rows@.len(),
            out@ == at(idx@).take(k as int).map_values(|i: int| job_row(rows@[i])),
        decreases idx@.len() - k,
    {
        out.push(shown(&rows[idx[k]]));
        assert(out@ =~= at(idx@).take(k + 1).map_values(|i: int| job_row(rows@[i])));
        k = k + 1;
    }
    if idx.len() <= limit {
        assert(at(idx@).take(k as int) =~= at(idx@));
    }
    out
}

fn jobs_newest_first(rows: &Vec<JobEvent>, idx: &Vec<usize>) -> (r: Vec<usize>)
    requires
        forall|k: int| 0 <= k < idx@.len() ==> #[trigger] idx@[k] < rows@.len(),
    ensures
        at(r@) == order(jobs_by_time(rows@), at(idx@)),
        forall|k: int| 0 <= k < r@.len() ==> #[trigger] r@[k] < rows@.len(),
{
    let before = |i: usize, j: usize| -> (b: bool)
        requires
            i < rows@.len(),
            j < rows@.len(),
        ensures
            b == newer_or_equal(job_time(rows@[i as int]), job_time(rows@[j as int])),
    {
        not_older(time_of(&rows[i]), time_of(&rows[j]))
    };
    order_rows(idx, rows.len(), before, Ghost(jobs_by_time(rows@)))
}

/// Most recent jobs, newest first.
pub fn recent_jobs(db: &Db, limit: usize) -> (r: Vec<JobRow>)
    ensures
        r@ == newest_jobs(db.jobs@, any_row(), limit as nat),
{
    let rows = &db.jobs;
    let hit = |i: usize| -> (b: bool)
        ensures
            b,
    {
        true
    };
    let all = select_rows(rows.len(), hit, Ghost(any_row()));
    let sorted = jobs_newest_first(rows, &all);
    show_first(rows, &sorted, limit)
}

/// The most recent job of a runner, running or done.
pub fn latest_job(db: &Db, runner_name: &str) -> (r: Option<JobRow>)
    ensures
        ({
            let jobs = newest_jobs(db.jobs@, of_runner(db.jobs@, runner_name@), 1);
            r == if jobs.len() > 0 {
                Some(jobs[0])
            } else {
                None
            }
        }),
{
    let rows = &db.jobs;
    let hit = |i: usize| -> (b: bool)
        requires
            i < rows@.len(),
        ensures
            b == (rows@[i as int].runner_name@ == runner_name@),
    {
        same(rows[i].runner_name.as_str(), runner_name)
    };
    let mine = select_rows(rows.len(), hit, Ghost(of_runner(rows@, runner_name@)));
    let sorted = jobs_newest_first(rows, &mine);
    let mut one = show_first(rows, &sorted, 1);
    one.pop()
}

/// Which jobs are complete, lack a conclusion, and name an org and a repository.
pub open spec fn awaiting(rows: Seq<JobEvent>) -> spec_fn(int) -> bool {
    |i: int|
        rows[i].completed_at is Some && rows[i].conclusion is None && rows[i].org@.len() > 0
            && rows[i].repo@.len() > 0
}

/// Jobs, the latest completed first.
pub open spec fn jobs_by_completion(rows: Seq<JobEvent>) -> spec_fn(int, int) -> bool {
    |i: int, j: int| newer_or_equal(rows[i].completed_at, rows[j].completed_at)
}

/// What is asked about a job.
pub open spec fn pending(j: JobEvent) -> PendingConclusion {
    PendingConclusion {
        org: j.org,
        repo: j.repo,
        run_id: j.run_id,
        run_attempt: j.run_attempt,
        job: j.job,
        runner_name: j.runner_name,
    }
}

/// The `limit` latest completed jobs that await a conclusion, latest first.
pub open spec fn awaiting_jobs(rows: Seq<JobEvent>, limit: nat) -> Seq<PendingConclusion> {
    first_of(
        order(jobs_by_completion(rows), select(awaiting(rows), rows.len() as int)),
        limit,
    ).map_values(|i: int| pending(rows[i]))
}

/// The completed jobs whose conclusion is not known yet, latest first.
pub fn jobs_awaiting_conclusion(db: &Db, limit: usize) -> (r: Vec<PendingConclusion>)
    ensures
        r@ == awaiting_jobs(db.jobs@, limit as nat),
{
    let rows = &db.jobs;
    let hit = |i: usize| -> (b: bool)
        requires
            i < rows@.len(),
        ensures
            b == (rows@[i as int].completed_at is Some && rows@[i as int].conclusion is None
                && rows@[i as int].org@.len() > 0 && rows@[i as int].repo@.len() > 0),
    {
        rows[i].completed_at.is_some() && rows[i].conclusion.is_none()
            && !rows[i].org.as_str().is_empty() && !rows[i].repo.as_str().is_empty()
    };
    let mine = select_rows(rows.len(), hit, Ghost(awaiting(rows@)));
    let before = |i: usize, j: usize| -> (b: bool)
        requires
            i < rows@.len(),
            j < rows@.len(),
        ensures
            b == newer_or_equal(rows@[i as int].completed_at, rows@[j as int].completed_at),
    {
        not_older(rows[i].completed_at, rows[j].completed_at)
    };
    let sorted = order_rows(&mine, rows.len(), before, Ghost(jobs_by_completion(rows@)));
    let mut out: Vec<PendingConclusion> = Vec::new();
    let mut k: usize = 0;
    while k < sorted.len() && k < limit
        invariant
            k <= sorted@.len(),
            k <= limit,
            forall|m: int| 0 <= m < sorted@.len() ==> #[trigger] sorted@[m] < rows@.len(),
            out@ == at(sorted@).take(k as int).map_values(|i: int| pending(rows@[i])),
        decreases sorted@.len() - k,
    {
        let j = &rows[sorted[k]];
        out.push(
            PendingConclusion {
                org: j.org.clone(),
                repo: j.repo.clone(),
                run_id: j.run_id,
                run_attempt: j.run_attempt,
                job: j.job.clone(),
                runner_name: j.runner_name.clone(),
            },
        );
        assert(out@ =~= at(sorted@).take(k + 1).map_values(|i: int| pending(rows@[i])));
        k = k + 1;
    }
    if sorted.len() <= limit {
        assert(at(sorted@).take(k as int) =~= at(sorted@));
    }
    out
}

/// Which jobs have not completed.
pub open spec fn running(rows: Seq<JobEvent>) -> spec_fn(int) -> bool {
    |i: int| rows[i].completed_at is None
}

/// How many jobs are known, and how many of them have not completed.
pub fn job_counts(db: &Db) -> (r: (u64, u64))
    ensures
        r.0 == db.jobs@.len(),
        r.1 == select(running(db.jobs@), db.jobs@.len() as int).len(),
{
    let rows = &db.jobs;
    let hit = |i: usize| -> (b: bool)
        requires
            i < rows@.len(),
        ensures
            b == (rows@[i as int].completed_at is None),
    {
        rows[i].completed_at.is_none()
    };
    let open = select_rows(rows.len(), hit, Ghost(running(rows@)));
    assert(at(open@).len() == open@.len());
    (rows.len() as u64, open.len() as u64)
}

/// How far a log has been read: a stored offset, never negative.
pub open spec fn offset_read(stored: i64) -> u64 {
    if stored < 0 {
        0
    } else {
        stored as u64
    }
}

/// How far every event log has been read.
pub fn ingest_offsets(db: &Db) -> (r: Vec<(String, u64)>)
    ensures
        r@.len() == db.offsets@.len(),
        forall|k: int|
            0 <= k < r@.len() ==> (#[trigger] r@[k]).0 == db.offsets@[k].stream && r@[k].1
                == offset_read(db.offsets@[k].offset),
{
    let rows = &db.offsets;
    let mut out: Vec<(String, u64)> = Vec::new();
    let mut k: usize = 0;
    while k < rows.len()
        invariant
            k <= rows@.len(),
            rows@ == db.offsets@,
            out@.len() == k,
            forall|m: int|
                0 <= m < k ==> (#[trigger] out@[m]).0 == rows@[m].stream && out@[m].1
                    == offset_read(rows@[m].offset),
        decreases rows@.len() - k,
    {
        let o: i64 = rows[k].offset;
        out.push(
            (
                rows[k].stream.clone(),
                if o < 0 {
                    0
                } else {
                    o as u64
                },
            ),
        );
        k = k + 1;
    }
    out
}

/// How far one event log has been read: 0 where it never was.
pub fn ingest_offset(db: &Db, stream: &str) -> (r: u64)
    ensures
        ({
            let k = crate::store::writer::jobs::stream_at(offset_rows(db.offsets@), stream@);
            r == if k < db.offsets@.len() {
                offset_read(db.offsets@[k].offset)
            } else {
                0
            }
        }),
{
    let rows: &Vec<IngestOffset> = &db.offsets;
    let k: usize = crate::store::writer::jobs::find_stream(rows, stream);
    if k < rows.len() {
        if rows[k].offset < 0 {
            0
        } else {
            rows[k].offset as u64
        }
    } else {
        0
    }
}

} // verus!
