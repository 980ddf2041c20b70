use ghr_stats::models::{
    ApiErrorKind, ApiOrgOutcome, ApiRunnerRow, HookEvent, HostSample, JobConclusion, Liveness,
    Measure, RunnerSample,
};
use ghr_stats::store::reader::jobs::{ingest_offset, latest_job, recent_jobs};
use ghr_stats::store::tables::{Db, JobEvent};
use ghr_stats::store::writer::github::write_api_runners;
use ghr_stats::store::writer::jobs::{apply_hook_events, apply_job_conclusions, repo_owner};
use ghr_stats::store::writer::{prune, write_local};

fn measure(value: f64) -> Measure {
    Measure { text: format!("{value}"), json: serde_json::Value::from(value) }
}

fn host(ts: i64) -> HostSample {
    HostSample {
        ts,
        load1: measure(0.0),
        load5: measure(0.0),
        mem_used: 0,
        mem_total: 0,
        numa: vec![],
        work_bytes: None,
        tmp_bytes: None,
        root_free: None,
    }
}

fn sample(ts: i64, live: Liveness) -> RunnerSample {
    RunnerSample {
        ts,
        agent_id: 1,
        dir: "/srv/r1".into(),
        name: "r".into(),
        org: "o".into(),
        liveness: live,
        current_run_id: None,
        cpu_pct: None,
        mem_bytes: None,
        mem_current_bytes: None,
        uptime_s: None,
    }
}

fn api_row(org: &str, agent_id: i64, online: bool) -> ApiRunnerRow {
    ApiRunnerRow {
        agent_id,
        org: org.to_string(),
        name: format!("runner-{agent_id}"),
        online,
        busy: false,
    }
}

/// One round of asking GitHub.
fn tick(db: &mut Db, ts: i64, outcomes: Vec<ApiOrgOutcome>) {
    write_api_runners(db, ts, &outcomes);
}

/// A successful answer on one org with a single runner.
fn ok_org(org: &str, agent_id: i64, online: bool) -> Vec<ApiOrgOutcome> {
    vec![ApiOrgOutcome::Fetched {
        org: org.to_string(),
        rows: vec![api_row(org, agent_id, online)],
    }]
}

fn edge(db: &Db, org: &str, agent_id: i64) -> (i64, i64, i64) {
    let e = db.api_states.iter().find(|e| e.org == org && e.agent_id == agent_id).unwrap();
    (i64::from(e.online), e.since_ts, e.last_seen_ts)
}

#[test]
fn writer_api_edge_since_ts_holds_while_online_is_unchanged_and_moves_on_a_flip() {
    let mut db = Db::new();
    tick(&mut db, 100, ok_org("org-a", 1, true));
    assert_eq!(edge(&db, "org-a", 1), (1, 100, 100));

    // Same state a tick later: the edge stays, last seen advances.
    tick(&mut db, 200, ok_org("org-a", 1, true));
    assert_eq!(edge(&db, "org-a", 1), (1, 100, 200));

    // A flip to offline: the edge jumps to the tick of the change.
    tick(&mut db, 300, ok_org("org-a", 1, false));
    assert_eq!(edge(&db, "org-a", 1), (0, 300, 300));

    // Still offline: it stays again.
    tick(&mut db, 900, ok_org("org-a", 1, false));
    assert_eq!(edge(&db, "org-a", 1), (0, 300, 900));
}

#[test]
fn writer_api_edge_survives_a_collector_restart() {
    let mut before = Db::new();
    tick(&mut before, 100, ok_org("org-a", 1, false));

    // The next collector finds what was stored.
    let mut db = Db::new();
    db.api_states = before.api_states;
    db.reconcile_states = before.reconcile_states;
    tick(&mut db, 700, ok_org("org-a", 1, false));

    // The edge is still the first one.
    assert_eq!(edge(&db, "org-a", 1), (0, 100, 700));
}

#[test]
fn writer_a_failed_org_records_health_without_touching_the_edge() {
    let mut db = Db::new();

    tick(&mut db, 100, ok_org("org-a", 1, true));

    // Next tick the token breaks.
    tick(
        &mut db,
        200,
        vec![ApiOrgOutcome::Failed { org: "org-a".into(), kind: ApiErrorKind::Forbidden }],
    );

    // The edge is untouched: still online since 100.
    assert_eq!(edge(&db, "org-a", 1), (1, 100, 100));

    let h = db.reconcile_states.iter().find(|h| h.org == "org-a").unwrap();
    // The time of the last success survives the failure.
    assert_eq!((h.last_ok_ts.unwrap(), h.last_try_ts, i64::from(h.ok)), (100, 200, 0));
    assert_eq!((h.http_status.unwrap(), h.error_kind.as_deref().unwrap()), (403, "http_403"));
}

#[test]
fn writer_a_tick_where_every_org_fails_still_writes_health_and_audit_rows() {
    let mut db = Db::new();

    tick(
        &mut db,
        500,
        vec![
            ApiOrgOutcome::Failed { org: "org-a".into(), kind: ApiErrorKind::Transport },
            ApiOrgOutcome::Unconfigured { org: "org-b".into() },
        ],
    );

    let audit = db.reconcile_samples.len();
    assert_eq!(audit, 2);

    let a = db.reconcile_states.iter().find(|h| h.org == "org-a").unwrap();
    let (status, kind) = (a.http_status, a.error_kind.clone());
    assert_eq!(status, None);
    assert_eq!(kind.as_deref(), Some("transport"));

    let b = db.reconcile_states.iter().find(|h| h.org == "org-b").unwrap();
    let (configured, kind_b) = (i64::from(b.configured), b.error_kind.clone());
    assert_eq!((configured, kind_b), (0, None));
}

#[test]
fn writer_hook_events_merge_started_and_completed() {
    let mut db = Db::new();
    let started = HookEvent {
        phase: "started".into(),
        ts: 1000,
        repo: "example-org/foo".into(),
        run_id: 7,
        run_attempt: 1,
        job: "build".into(),
        runner: "r0".into(),
    };
    let mut completed = started.clone();
    completed.phase = "completed".into();
    completed.ts = 1050;

    apply_hook_events(&mut db, "hooks", &[started], 10);
    apply_hook_events(&mut db, "hooks", &[completed], 20);

    let j = db.jobs.iter().find(|j| j.run_id == 7).unwrap();
    let (s, c) = (j.started_at.unwrap(), j.completed_at.unwrap());
    assert_eq!((s, c), (1000, 1050)); // both times on one row
    assert_eq!(j.org, "example-org");
    let off = ingest_offset(&db, "hooks");
    assert_eq!(off, 20);
    assert_eq!(db.jobs.len(), 1);
}

#[test]
fn writer_apply_job_conclusions_fills_only_the_matched_row() {
    let mut db = Db::new();
    db.jobs.push(JobEvent {
        run_id: 7,
        run_attempt: 1,
        job: "build".into(),
        repo: "".into(),
        org: "".into(),
        runner_name: "r0".into(),
        started_at: Some(100),
        completed_at: Some(150),
        conclusion: None,
    });

    apply_job_conclusions(
        &mut db,
        &[JobConclusion {
            run_id: 7,
            run_attempt: 1,
            job: "build".into(),
            runner_name: "r0".into(),
            conclusion: "success".into(),
        }],
    );
    let c = db.jobs.iter().find(|j| j.run_id == 7).unwrap().conclusion.clone();
    assert_eq!(c.as_deref(), Some("success"));

    // An update without a row changes nothing and adds nothing.
    apply_job_conclusions(
        &mut db,
        &[JobConclusion {
            run_id: 999,
            run_attempt: 1,
            job: "x".into(),
            runner_name: "y".into(),
            conclusion: "failure".into(),
        }],
    );
    let n = db.jobs.len();
    assert_eq!(n, 1);
}

#[test]
fn writer_prune_removes_old_samples_but_keeps_job_event() {
    let mut db = Db::new();
    db.runner_samples.push(sample(100, Liveness::Idle));
    db.runner_samples.push(sample(500, Liveness::Idle));
    db.host_samples.push(host(100));
    db.jobs.push(JobEvent {
        run_id: 42,
        run_attempt: 1,
        job: "".into(),
        repo: "".into(),
        org: "".into(),
        runner_name: "".into(),
        started_at: None,
        completed_at: None,
        conclusion: None,
    });

    // Cutoff 300 removes the two rows of 100; it keeps that of 500 and the job.
    let removed = prune(&mut db, 300);
    assert_eq!(removed, 2);
    let runners = db.runner_samples.len();
    assert_eq!(runners, 1);
    let jobs = db.jobs.len();
    assert_eq!(jobs, 1);
}

#[test]
fn writer_runner_state_tracks_liveness_edges() {
    let mut db = Db::new();

    // Two idle ticks: the edge is at the first one.
    write_local(&mut db, &[sample(100, Liveness::Idle)], host(0));
    write_local(&mut db, &[sample(200, Liveness::Idle)], host(0));
    let s = db.runner_states.iter().find(|s| s.dir == "/srv/r1").unwrap();
    assert_eq!((s.liveness.as_str(), s.since_ts), ("idle", 100));

    // A change moves the edge to its time; last seen advances.
    write_local(&mut db, &[sample(300, Liveness::Busy)], host(0));
    let s = db.runner_states.iter().find(|s| s.dir == "/srv/r1").unwrap();
    assert_eq!((s.liveness.as_str(), s.since_ts, s.last_seen_ts), ("busy", 300, 300));
}

#[test]
fn github_api_edge_since_ts_holds_while_online_is_unchanged_and_moves_on_a_flip() {
    let mut db = Db::new();
    tick(&mut db, 100, ok_org("org-a", 1, true));
    assert_eq!(edge(&db, "org-a", 1), (1, 100, 100));

    // Same state a tick later: the edge stays, last seen advances.
    tick(&mut db, 200, ok_org("org-a", 1, true));
    assert_eq!(edge(&db, "org-a", 1), (1, 100, 200));

    // A flip to offline: the edge jumps to the tick of the change.
    tick(&mut db, 300, ok_org("org-a", 1, false));
    assert_eq!(edge(&db, "org-a", 1), (0, 300, 300));

    // Still offline: it stays again.
    tick(&mut db, 900, ok_org("org-a", 1, false));
    assert_eq!(edge(&db, "org-a", 1), (0, 300, 900));
}

#[test]
fn github_api_edge_survives_a_collector_restart() {
    let mut before = Db::new();
    tick(&mut before, 100, ok_org("org-a", 1, false));

    // The next collector finds what was stored.
    let mut db = Db::new();
    db.api_states = before.api_states;
    db.reconcile_states = before.reconcile_states;
    tick(&mut db, 700, ok_org("org-a", 1, false));

    // The edge is still the first one.
    assert_eq!(edge(&db, "org-a", 1), (0, 100, 700));
}

#[test]
fn github_a_failed_org_records_health_without_touching_the_edge() {
    let mut db = Db::new();

    tick(&mut db, 100, ok_org("org-a", 1, true));

    // Next tick the token breaks.
    tick(
        &mut db,
        200,
        vec![ApiOrgOutcome::Failed { org: "org-a".into(), kind: ApiErrorKind::Forbidden }],
    );

    // The edge is untouched: still online since 100.
    assert_eq!(edge(&db, "org-a", 1), (1, 100, 100));

    let h = db.reconcile_states.iter().find(|h| h.org == "org-a").unwrap();
    // The time of the last success survives the failure.
    assert_eq!((h.last_ok_ts.unwrap(), h.last_try_ts, i64::from(h.ok)), (100, 200, 0));
    assert_eq!((h.http_status.unwrap(), h.error_kind.as_deref().unwrap()), (403, "http_403"));
}

#[test]
fn github_a_tick_where_every_org_fails_still_writes_health_and_audit_rows() {
    let mut db = Db::new();

    tick(
        &mut db,
        500,
        vec![
            ApiOrgOutcome::Failed { org: "org-a".into(), kind: ApiErrorKind::Transport },
            ApiOrgOutcome::Unconfigured { org: "org-b".into() },
        ],
    );

    let audit = db.reconcile_samples.len();
    assert_eq!(audit, 2);

    let a = db.reconcile_states.iter().find(|h| h.org == "org-a").unwrap();
    let (status, kind) = (a.http_status, a.error_kind.clone());
    assert_eq!(status, None);
    assert_eq!(kind.as_deref(), Some("transport"));

    let b = db.reconcile_states.iter().find(|h| h.org == "org-b").unwrap();
    let (configured, kind_b) = (i64::from(b.configured), b.error_kind.clone());
    assert_eq!((configured, kind_b), (0, None));
}

#[test]
fn jobs_hook_events_merge_started_and_completed() {
    let mut db = Db::new();
    let started = HookEvent {
        phase: "started".into(),
        ts: 1000,
        repo: "example-org/foo".into(),
        run_id: 7,
        run_attempt: 1,
        job: "build".into(),
        runner: "r0".into(),
    };
    let mut completed = started.clone();
    completed.phase = "completed".into();
    completed.ts = 1050;

    apply_hook_events(&mut db, "hooks", &[started], 10);
    apply_hook_events(&mut db, "hooks", &[completed], 20);

    let j = db.jobs.iter().find(|j| j.run_id == 7).unwrap();
    let (s, c) = (j.started_at.unwrap(), j.completed_at.unwrap());
    assert_eq!((s, c), (1000, 1050)); // both times on one row
    assert_eq!(j.org, "example-org");
    let off = ingest_offset(&db, "hooks");
    assert_eq!(off, 20);
    assert_eq!(db.jobs.len(), 1);
}

#[test]
fn jobs_apply_job_conclusions_fills_only_the_matched_row() {
    let mut db = Db::new();
    db.jobs.push(JobEvent {
        run_id: 7,
        run_attempt: 1,
        job: "build".into(),
        repo: "".into(),
        org: "".into(),
        runner_name: "r0".into(),
        started_at: Some(100),
        completed_at: Some(150),
        conclusion: None,
    });

    apply_job_conclusions(
        &mut db,
        &[JobConclusion {
            run_id: 7,
            run_attempt: 1,
            job: "build".into(),
            runner_name: "r0".into(),
            conclusion: "success".into(),
        }],
    );
    let c = db.jobs.iter().find(|j| j.run_id == 7).unwrap().conclusion.clone();
    assert_eq!(c.as_deref(), Some("success"));

    // An update without a row changes nothing and adds nothing.
    apply_job_conclusions(
        &mut db,
        &[JobConclusion {
            run_id: 999,
            run_attempt: 1,
            job: "x".into(),
            runner_name: "y".into(),
            conclusion: "failure".into(),
        }],
    );
    let n = db.jobs.len();
    assert_eq!(n, 1);
}

#[test]
fn mod_prune_removes_old_samples_but_keeps_job_event() {
    let mut db = Db::new();
    db.runner_samples.push(sample(100, Liveness::Idle));
    db.runner_samples.push(sample(500, Liveness::Idle));
    db.host_samples.push(host(100));
    db.jobs.push(JobEvent {
        run_id: 42,
        run_attempt: 1,
        job: "".into(),
        repo: "".into(),
        org: "".into(),
        runner_name: "".into(),
        started_at: None,
        completed_at: None,
        conclusion: None,
    });

    // Cutoff 300 removes the two rows of 100; it keeps that of 500 and the job.
    let removed = prune(&mut db, 300);
    assert_eq!(removed, 2);
    let runners = db.runner_samples.len();
    assert_eq!(runners, 1);
    let jobs = db.jobs.len();
    assert_eq!(jobs, 1);
}

#[test]
fn mod_runner_state_tracks_liveness_edges() {
    let mut db = Db::new();

    // Two idle ticks: the edge is at the first one.
    write_local(&mut db, &[sample(100, Liveness::Idle)], host(0));
    write_local(&mut db, &[sample(200, Liveness::Idle)], host(0));
    let s = db.runner_states.iter().find(|s| s.dir == "/srv/r1").unwrap();
    assert_eq!((s.liveness.as_str(), s.since_ts), ("idle", 100));

    // A change moves the edge to its time; last seen advances.
    write_local(&mut db, &[sample(300, Liveness::Busy)], host(0));
    let s = db.runner_states.iter().find(|s| s.dir == "/srv/r1").unwrap();
    assert_eq!((s.liveness.as_str(), s.since_ts, s.last_seen_ts), ("busy", 300, 300));
}

#[test]
fn logs_are_read_independently_of_one_another() {
    let mut db = Db::new();
    let event = |phase: &str, ts, run_id, runner: &str| HookEvent {
        phase: phase.into(),
        ts,
        repo: "example-org/foo".into(),
        run_id,
        run_attempt: 1,
        job: "build".into(),
        runner: runner.into(),
    };
    apply_hook_events(
        &mut db,
        "/r1/log",
        &[event("started", 1000, 1, "runner-01"), event("completed", 1090, 1, "runner-01")],
        40,
    );
    apply_hook_events(&mut db, "/r2/log", &[event("started", 1100, 2, "runner-02")], 70);
    assert_eq!(recent_jobs(&db, 10).len(), 2);
    assert_eq!(latest_job(&db, "runner-01").unwrap().completed_at, Some(1090));
    assert_eq!(latest_job(&db, "runner-02").unwrap().completed_at, None);
    assert_eq!(ingest_offset(&db, "/r1/log"), 40);
    assert_eq!(ingest_offset(&db, "/r2/log"), 70);
}

#[test]
fn a_runner_that_two_orgs_number_alike_keeps_two_edges() {
    let mut db = Db::new();
    tick(&mut db, 100, ok_org("org-a", 22, true));
    tick(&mut db, 200, ok_org("org-b", 22, false));
    assert_eq!(edge(&db, "org-a", 22), (1, 100, 100));
    assert_eq!(edge(&db, "org-b", 22), (0, 200, 200));
}

#[test]
fn a_recovery_clears_the_error() {
    let mut db = Db::new();
    tick(
        &mut db,
        100,
        vec![ApiOrgOutcome::Failed { org: "o".into(), kind: ApiErrorKind::Unauthorized }],
    );
    assert_eq!(db.reconcile_states[0].last_ok_ts, None);
    tick(&mut db, 200, ok_org("o", 1, true));
    let h = &db.reconcile_states[0];
    assert_eq!((h.last_ok_ts, h.ok, h.http_status), (Some(200), true, None));
    assert!(h.error_kind.is_none());
    assert_eq!(db.reconcile_states.len(), 1);
    assert_eq!(db.reconcile_samples.len(), 2);
}

#[test]
fn the_owner_of_a_repository_is_its_first_part() {
    assert_eq!(repo_owner("example-org/foo"), "example-org");
    assert_eq!(repo_owner("lonely"), "lonely");
    assert_eq!(repo_owner(""), "");
}

#[test]
fn pruning_keeps_the_edges() {
    let mut db = Db::new();
    write_local(&mut db, &[sample(100, Liveness::Idle)], host(100));
    tick(&mut db, 100, ok_org("o", 1, true));
    let removed = prune(&mut db, 101);
    assert_eq!(removed, 4);
    assert_eq!(db.runner_states.len(), 1);
    assert_eq!(db.api_states.len(), 1);
    assert_eq!(db.reconcile_states.len(), 1);
    assert_eq!(prune(&mut db, 101), 0);
}
