use ghr_stats::models::timeline::{Edge, JobEdge, ReconcileEdge, TimelineQuery};
use ghr_stats::models::{GhView, Liveness, RunnerSample};
use ghr_stats::store::reader::timeline::timeline;
use ghr_stats::store::tables::{ApiSample, Db, JobEvent, ReconcileSample};

fn mem_db() -> Db {
    Db::new()
}

fn local_sample(db: &mut Db, ts: i64, org: &str, id: i64, name: &str, live: &str) {
    db.runner_samples.push(RunnerSample {
        ts,
        agent_id: id,
        dir: format!("/srv/{org}/{name}"),
        name: name.to_string(),
        org: org.to_string(),
        liveness: Liveness::from_db(live),
        current_run_id: None,
        cpu_pct: None,
        mem_bytes: None,
        mem_current_bytes: None,
        uptime_s: None,
    });
}

fn api_named(db: &mut Db, ts: i64, org: &str, id: i64, name: &str, online: i64) {
    db.api_samples.push(ApiSample {
        ts,
        agent_id: id,
        org: org.to_string(),
        name: name.to_string(),
        online: online == 1,
        busy: false,
    });
}

fn reconcile_sample(db: &mut Db, ts: i64, org: &str, ok: i64, kind: Option<&str>) {
    db.reconcile_samples.push(ReconcileSample {
        ts,
        org: org.to_string(),
        ok: ok == 1,
        http_status: kind.map(|_| 401),
        error_kind: kind.map(str::to_string),
        runners: 1,
    });
}

fn tq(since_ts: i64, limit: usize) -> TimelineQuery {
    TimelineQuery { since_ts, limit, org: None, runner: None, samples: false }
}

#[test]
fn reader_timeline_returns_edges_not_samples() {
    let mut db = mem_db();
    for (ts, live) in [(100, "idle"), (200, "idle"), (300, "busy"), (400, "busy"), (500, "idle")] {
        local_sample(&mut db, ts, "o", 1, "r1", live);
    }
    let t = timeline(&db, &tq(0, 100), 600, 180);
    assert_eq!(t.transitions.items.len(), 2);
    assert!(!t.transitions.limited);
    // Chronological, and both ends of each edge are carried.
    assert!(matches!(
        &t.transitions.items[0].edge,
        Edge::Liveness { runner, from: Liveness::Idle, to: Liveness::Busy } if runner == "r1"
    ));
    assert_eq!(t.transitions.items[0].ts, 300);
    assert!(matches!(
        &t.transitions.items[1].edge,
        Edge::Liveness { from: Liveness::Busy, to: Liveness::Idle, .. }
    ));
    assert_eq!(t.transitions.items[1].ts, 500);
}

#[test]
fn reader_the_first_sample_in_a_window_is_a_baseline_not_an_edge() {
    let mut db = mem_db();
    local_sample(&mut db, 100, "o", 1, "r1", "idle");
    local_sample(&mut db, 200, "o", 1, "r1", "busy");
    // The window opens at 200: nothing to compare against, so no edge.
    let t = timeline(&db, &tq(200, 100), 300, 180);
    assert!(t.transitions.items.is_empty());
    // Widened to the one before, the edge appears.
    let t = timeline(&db, &tq(100, 100), 300, 180);
    assert_eq!(t.transitions.items.len(), 1);
}

#[test]
fn reader_github_edges_come_from_consecutive_readings_not_the_local_tick_grid() {
    let mut db = mem_db();
    api_named(&mut db, 100, "o", 1, "r1", 1);
    // No reading at 200 or 300.
    api_named(&mut db, 400, "o", 1, "r1", 0);
    api_named(&mut db, 500, "o", 1, "r1", 0);

    let t = timeline(&db, &tq(0, 100), 600, 180);
    assert_eq!(t.transitions.items.len(), 1);
    assert_eq!(t.transitions.items[0].ts, 400);
    assert!(matches!(
        &t.transitions.items[0].edge,
        Edge::GithubOnline { runner, online: false } if runner == "r1"
    ));
}

#[test]
fn reader_reconcile_edges_carry_the_cause_and_the_recovery() {
    let mut db = mem_db();
    reconcile_sample(&mut db, 100, "org-b", 1, None);
    reconcile_sample(&mut db, 200, "org-b", 0, Some("unauthorized"));
    reconcile_sample(&mut db, 300, "org-b", 0, Some("unauthorized"));
    reconcile_sample(&mut db, 400, "org-b", 1, None);

    let t = timeline(&db, &tq(0, 100), 500, 180);
    assert_eq!(t.transitions.items.len(), 2);
    assert!(matches!(
        &t.transitions.items[0].edge,
        Edge::Reconcile(ReconcileEdge::Failed { error_kind, http_status })
            if error_kind.as_deref() == Some("unauthorized") && *http_status == Some(401)
    ));
    assert!(matches!(&t.transitions.items[1].edge, Edge::Reconcile(ReconcileEdge::Recovered)));
}

#[test]
fn reader_a_runner_filter_keeps_its_own_orgs_reconcile_edges() {
    let mut db = mem_db();
    local_sample(&mut db, 100, "org-a", 1, "r1", "idle");
    local_sample(&mut db, 200, "org-a", 1, "r1", "busy");
    reconcile_sample(&mut db, 100, "org-a", 1, None);
    reconcile_sample(&mut db, 200, "org-a", 0, Some("server_error"));
    // Another org failing at the same moment is not this runner's story.
    reconcile_sample(&mut db, 100, "org-z", 1, None);
    reconcile_sample(&mut db, 200, "org-z", 0, Some("unauthorized"));

    let mut q = tq(0, 100);
    q.runner = Some("r1".to_string());
    let t = timeline(&db, &q, 300, 180);

    assert_eq!(t.transitions.items.len(), 2);
    assert!(t.transitions.items.iter().all(|tr| tr.org == "org-a"));
    assert!(t.transitions.items.iter().any(|tr| matches!(tr.edge, Edge::Reconcile(_))));
}

#[test]
fn reader_samples_never_borrow_a_reading_from_the_future() {
    let mut db = mem_db();
    local_sample(&mut db, 800, "o", 1, "r1", "idle"); // before any reading
    local_sample(&mut db, 1000, "o", 1, "r1", "idle");
    local_sample(&mut db, 1200, "o", 1, "r1", "idle");
    api_named(&mut db, 900, "o", 1, "r1", 1);
    api_named(&mut db, 1300, "o", 1, "r1", 0); // after the last local tick

    let mut q = tq(0, 100);
    q.samples = true;
    let t = timeline(&db, &q, 1400, 180);
    let s = t.samples.unwrap();
    assert_eq!(s.items.len(), 3);

    // 800: no reading had been taken at all.
    assert!(matches!(s.items[0].github, GhView::Unknown));
    // 1000: the reading of 900, 100s old.
    assert!(matches!(s.items[1].github, GhView::Fresh { age_s: 100, .. }));
    // 1200: still the reading of 900, and at 300s past the window.
    assert!(matches!(s.items[2].github, GhView::Stale { age_s: 300 }));
}

#[test]
fn reader_a_window_reaching_past_retention_reports_where_the_data_starts() {
    let mut db = mem_db();
    local_sample(&mut db, 5_000, "o", 1, "r1", "idle");
    local_sample(&mut db, 5_100, "o", 1, "r1", "busy");

    // Asking from 0 reaches past what is held.
    let t = timeline(&db, &tq(0, 100), 6_000, 180);
    assert_eq!(t.window.truncated_at, Some(5_000));
    // Asking from inside the held range is fully covered.
    let t = timeline(&db, &tq(5_000, 100), 6_000, 180);
    assert_eq!(t.window.truncated_at, None);
}

#[test]
fn reader_the_limit_bounds_the_union_and_reports_the_cut() {
    let mut db = mem_db();
    // Alternating liveness gives one edge per sample after the first.
    for (i, ts) in (100..=600).step_by(100).enumerate() {
        let live = if i % 2 == 0 { "idle" } else { "busy" };
        local_sample(&mut db, ts, "o", 1, "r1", live);
    }
    // A reconcile edge among them, so the cut spans two streams.
    reconcile_sample(&mut db, 100, "o", 1, None);
    reconcile_sample(&mut db, 550, "o", 0, Some("timeout"));

    let t = timeline(&db, &tq(0, 3), 700, 180);
    assert_eq!(t.transitions.items.len(), 3);
    assert!(t.transitions.limited);
    // The newest three, in chronological order.
    assert_eq!(
        t.transitions.items.iter().map(|x| x.ts).collect::<Vec<_>>(),
        vec![500, 550, 600]
    );

    // With room to spare it is not marked limited.
    let t = timeline(&db, &tq(0, 100), 700, 180);
    assert_eq!(t.transitions.items.len(), 6);
    assert!(!t.transitions.limited);
}

#[test]
fn reader_samples_are_absent_unless_requested() {
    let mut db = mem_db();
    local_sample(&mut db, 100, "o", 1, "r1", "idle");

    assert!(timeline(&db, &tq(0, 100), 200, 180).samples.is_none());

    let mut q = tq(0, 100);
    q.samples = true;
    assert_eq!(timeline(&db, &q, 200, 180).samples.unwrap().items.len(), 1);

    // Requested, but the window is after every sample: empty, not absent.
    q.since_ts = 1_000;
    let s = timeline(&db, &q, 2_000, 180).samples.unwrap();
    assert!(s.items.is_empty());
}

#[test]
fn reader_edges_partition_by_org_and_id_not_id_alone() {
    let mut db = mem_db();
    // One id, two orgs, each perfectly stable.
    for ts in [100, 200, 300] {
        local_sample(&mut db, ts, "org-a", 22, "a-runner", "idle");
        local_sample(&mut db, ts, "org-b", 22, "b-runner", "busy");
        api_named(&mut db, ts, "org-a", 22, "a-runner", 1);
        api_named(&mut db, ts, "org-b", 22, "b-runner", 0);
    }
    let t = timeline(&db, &tq(0, 100), 400, 180);
    assert!(
        t.transitions.items.is_empty(),
        "neither runner changed: {:?}",
        t.transitions.items
    );
}

#[test]
fn mod_timeline_returns_edges_not_samples() {
    let mut db = mem_db();
    for (ts, live) in [(100, "idle"), (200, "idle"), (300, "busy"), (400, "busy"), (500, "idle")] {
        local_sample(&mut db, ts, "o", 1, "r1", live);
    }
    let t = timeline(&db, &tq(0, 100), 600, 180);
    assert_eq!(t.transitions.items.len(), 2);
    assert!(!t.transitions.limited);
    // Chronological, and both ends of each edge are carried.
    assert!(matches!(
        &t.transitions.items[0].edge,
        Edge::Liveness { runner, from: Liveness::Idle, to: Liveness::Busy } if runner == "r1"
    ));
    assert_eq!(t.transitions.items[0].ts, 300);
    assert!(matches!(
        &t.transitions.items[1].edge,
        Edge::Liveness { from: Liveness::Busy, to: Liveness::Idle, .. }
    ));
    assert_eq!(t.transitions.items[1].ts, 500);
}

#[test]
fn mod_the_first_sample_in_a_window_is_a_baseline_not_an_edge() {
    let mut db = mem_db();
    local_sample(&mut db, 100, "o", 1, "r1", "idle");
    local_sample(&mut db, 200, "o", 1, "r1", "busy");
    // The window opens at 200: nothing to compare against, so no edge.
    let t = timeline(&db, &tq(200, 100), 300, 180);
    assert!(t.transitions.items.is_empty());
    // Widened to the one before, the edge appears.
    let t = timeline(&db, &tq(100, 100), 300, 180);
    assert_eq!(t.transitions.items.len(), 1);
}

#[test]
fn mod_github_edges_come_from_consecutive_readings_not_the_local_tick_grid() {
    let mut db = mem_db();
    api_named(&mut db, 100, "o", 1, "r1", 1);
    // No reading at 200 or 300.
    api_named(&mut db, 400, "o", 1, "r1", 0);
    api_named(&mut db, 500, "o", 1, "r1", 0);

    let t = timeline(&db, &tq(0, 100), 600, 180);
    assert_eq!(t.transitions.items.len(), 1);
    assert_eq!(t.transitions.items[0].ts, 400);
    assert!(matches!(
        &t.transitions.items[0].edge,
        Edge::GithubOnline { runner, online: false } if runner == "r1"
    ));
}

#[test]
fn mod_reconcile_edges_carry_the_cause_and_the_recovery() {
    let mut db = mem_db();
    reconcile_sample(&mut db, 100, "org-b", 1, None);
    reconcile_sample(&mut db, 200, "org-b", 0, Some("unauthorized"));
    reconcile_sample(&mut db, 300, "org-b", 0, Some("unauthorized"));
    reconcile_sample(&mut db, 400, "org-b", 1, None);

    let t = timeline(&db, &tq(0, 100), 500, 180);
    assert_eq!(t.transitions.items.len(), 2);
    assert!(matches!(
        &t.transitions.items[0].edge,
        Edge::Reconcile(ReconcileEdge::Failed { error_kind, http_status })
            if error_kind.as_deref() == Some("unauthorized") && *http_status == Some(401)
    ));
    assert!(matches!(&t.transitions.items[1].edge, Edge::Reconcile(ReconcileEdge::Recovered)));
}

#[test]
fn mod_a_runner_filter_keeps_its_own_orgs_reconcile_edges() {
    let mut db = mem_db();
    local_sample(&mut db, 100, "org-a", 1, "r1", "idle");
    local_sample(&mut db, 200, "org-a", 1, "r1", "busy");
    reconcile_sample(&mut db, 100, "org-a", 1, None);
    reconcile_sample(&mut db, 200, "org-a", 0, Some("server_error"));
    // Another org failing at the same moment is not this runner's story.
    reconcile_sample(&mut db, 100, "org-z", 1, None);
    reconcile_sample(&mut db, 200, "org-z", 0, Some("unauthorized"));

    let mut q = tq(0, 100);
    q.runner = Some("r1".to_string());
    let t = timeline(&db, &q, 300, 180);

    assert_eq!(t.transitions.items.len(), 2);
    assert!(t.transitions.items.iter().all(|tr| tr.org == "org-a"));
    assert!(t.transitions.items.iter().any(|tr| matches!(tr.edge, Edge::Reconcile(_))));
}

#[test]
fn mod_samples_never_borrow_a_reading_from_the_future() {
    let mut db = mem_db();
    local_sample(&mut db, 800, "o", 1, "r1", "idle"); // before any reading
    local_sample(&mut db, 1000, "o", 1, "r1", "idle");
    local_sample(&mut db, 1200, "o", 1, "r1", "idle");
    api_named(&mut db, 900, "o", 1, "r1", 1);
    api_named(&mut db, 1300, "o", 1, "r1", 0); // after the last local tick

    let mut q = tq(0, 100);
    q.samples = true;
    let t = timeline(&db, &q, 1400, 180);
    let s = t.samples.unwrap();
    assert_eq!(s.items.len(), 3);

    // 800: no reading had been taken at all.
    assert!(matches!(s.items[0].github, GhView::Unknown));
    // 1000: the reading of 900, 100s old.
    assert!(matches!(s.items[1].github, GhView::Fresh { age_s: 100, .. }));
    // 1200: still the reading of 900, and at 300s past the window.
    assert!(matches!(s.items[2].github, GhView::Stale { age_s: 300 }));
}

#[test]
fn mod_a_window_reaching_past_retention_reports_where_the_data_starts() {
    let mut db = mem_db();
    local_sample(&mut db, 5_000, "o", 1, "r1", "idle");
    local_sample(&mut db, 5_100, "o", 1, "r1", "busy");

    // Asking from 0 reaches past what is held.
    let t = timeline(&db, &tq(0, 100), 6_000, 180);
    assert_eq!(t.window.truncated_at, Some(5_000));
    // Asking from inside the held range is fully covered.
    let t = timeline(&db, &tq(5_000, 100), 6_000, 180);
    assert_eq!(t.window.truncated_at, None);
}

#[test]
fn mod_the_limit_bounds_the_union_and_reports_the_cut() {
    let mut db = mem_db();
    // Alternating liveness gives one edge per sample after the first.
    for (i, ts) in (100..=600).step_by(100).enumerate() {
        let live = if i % 2 == 0 { "idle" } else { "busy" };
        local_sample(&mut db, ts, "o", 1, "r1", live);
    }
    // A reconcile edge among them, so the cut spans two streams.
    reconcile_sample(&mut db, 100, "o", 1, None);
    reconcile_sample(&mut db, 550, "o", 0, Some("timeout"));

    let t = timeline(&db, &tq(0, 3), 700, 180);
    assert_eq!(t.transitions.items.len(), 3);
    assert!(t.transitions.limited);
    // The newest three, in chronological order.
    assert_eq!(
        t.transitions.items.iter().map(|x| x.ts).collect::<Vec<_>>(),
        vec![500, 550, 600]
    );

    // With room to spare it is not marked limited.
    let t = timeline(&db, &tq(0, 100), 700, 180);
    assert_eq!(t.transitions.items.len(), 6);
    assert!(!t.transitions.limited);
}

#[test]
fn mod_samples_are_absent_unless_requested() {
    let mut db = mem_db();
    local_sample(&mut db, 100, "o", 1, "r1", "idle");

    assert!(timeline(&db, &tq(0, 100), 200, 180).samples.is_none());

    let mut q = tq(0, 100);
    q.samples = true;
    assert_eq!(timeline(&db, &q, 200, 180).samples.unwrap().items.len(), 1);

    // Requested, but the window is after every sample: empty, not absent.
    q.since_ts = 1_000;
    let s = timeline(&db, &q, 2_000, 180).samples.unwrap();
    assert!(s.items.is_empty());
}

#[test]
fn mod_edges_partition_by_org_and_id_not_id_alone() {
    let mut db = mem_db();
    // One id, two orgs, each perfectly stable.
    for ts in [100, 200, 300] {
        local_sample(&mut db, ts, "org-a", 22, "a-runner", "idle");
        local_sample(&mut db, ts, "org-b", 22, "b-runner", "busy");
        api_named(&mut db, ts, "org-a", 22, "a-runner", 1);
        api_named(&mut db, ts, "org-b", 22, "b-runner", 0);
    }
    let t = timeline(&db, &tq(0, 100), 400, 180);
    assert!(
        t.transitions.items.is_empty(),
        "neither runner changed: {:?}",
        t.transitions.items
    );
}

#[test]
fn the_window_is_written_as_instants() {
    let t = timeline(&mem_db(), &tq(0, 10), 1_784_998_498, 180);
    assert_eq!(t.schema_version, 1);
    assert_eq!(t.window.since, "1970-01-01T00:00:00Z");
    assert_eq!(t.generated_at, "2026-07-25T16:54:58Z");
    assert_eq!(t.window.truncated_at, None);
}

#[test]
fn jobs_have_a_start_and_an_end() {
    let mut db = mem_db();
    db.jobs.push(JobEvent {
        run_id: 1,
        run_attempt: 1,
        job: "build".to_string(),
        repo: "o/x".to_string(),
        org: "o".to_string(),
        runner_name: "r1".to_string(),
        started_at: Some(100),
        completed_at: Some(150),
        conclusion: Some("success".to_string()),
    });
    let t = timeline(&db, &tq(0, 10), 200, 180);
    assert_eq!(t.jobs.items.len(), 2);
    assert_eq!(t.jobs.items[0].ts, 100);
    assert!(matches!(t.jobs.items[0].edge, JobEdge::Started));
    assert_eq!(t.jobs.items[1].ts, 150);
    assert!(matches!(
        &t.jobs.items[1].edge,
        JobEdge::Completed { conclusion } if conclusion.as_deref() == Some("success")
    ));
}

#[test]
fn an_org_filter_keeps_only_that_org() {
    let mut db = mem_db();
    for org in ["org-a", "org-b"] {
        local_sample(&mut db, 100, org, 1, "r1", "idle");
        local_sample(&mut db, 200, org, 1, "r1", "busy");
    }
    let mut q = tq(0, 10);
    q.org = Some("org-b".to_string());
    let t = timeline(&db, &q, 300, 180);
    assert_eq!(t.transitions.items.len(), 1);
    assert_eq!(t.transitions.items[0].org, "org-b");
}
