use ghr_stats::ipc::ApiRow;
use ghr_stats::models::{GhView, HostSample, Liveness, Measure, RunnerSample};
use ghr_stats::store::reader::github::latest_api_runners;
use ghr_stats::store::reader::jobs::{
    ingest_offset, ingest_offsets, job_counts, jobs_awaiting_conclusion, latest_job, recent_jobs,
};
use ghr_stats::store::reader::occupancy::busy_series;
use ghr_stats::store::reader::{
    host_series, latest_host, latest_runners, retention, runner_history, runner_states,
};
use ghr_stats::store::tables::{ApiSample, Db, IngestOffset, JobEvent};

fn mem_db() -> Db {
    Db::new()
}

fn measure(value: f64) -> Measure {
    Measure { text: format!("{value}"), json: serde_json::Value::from(value) }
}

fn local(ts: i64, agent_id: i64, name: &str, org: &str, live: &str, dir: &str) -> RunnerSample {
    RunnerSample {
        ts,
        agent_id,
        dir: dir.to_string(),
        name: name.to_string(),
        org: org.to_string(),
        liveness: Liveness::from_db(live),
        current_run_id: None,
        cpu_pct: None,
        mem_bytes: None,
        mem_current_bytes: None,
        uptime_s: None,
    }
}

fn api_sample(db: &mut Db, ts: i64, org: &str, id: i64, online: i64, busy: i64) {
    db.api_samples.push(ApiSample {
        ts,
        agent_id: id,
        org: org.to_string(),
        name: "r".to_string(),
        online: online == 1,
        busy: busy == 1,
    });
}

fn view(rows: &[ApiRow], org: &str, id: i64) -> GhView {
    rows.iter().find(|r| r.org == org && r.agent_id == id).map(|r| r.view).unwrap()
}

fn offset(rows: &[(String, u64)], stream: &str) -> u64 {
    rows.iter().find(|r| r.0 == stream).map(|r| r.1).unwrap()
}

fn job(run_id: i64, job: &str, repo: &str, org: &str, runner: &str) -> JobEvent {
    JobEvent {
        run_id,
        run_attempt: 1,
        job: job.to_string(),
        repo: repo.to_string(),
        org: org.to_string(),
        runner_name: runner.to_string(),
        started_at: None,
        completed_at: None,
        conclusion: None,
    }
}

#[test]
fn reader_history_is_chronological_and_limited() {
    let mut db = mem_db();
    for ts in [100, 200, 300, 400] {
        let mut s = local(ts, 7, "r", "o", "idle", "/srv/r7");
        s.cpu_pct = Some(measure((ts as f64) / 10.0));
        s.mem_bytes = Some(ts as u64 * 1000);
        db.runner_samples.push(s);
    }
    let h = runner_history(&db, "/srv/r7", 3);
    // newest 3, oldest to newest
    assert_eq!(h.iter().map(|p| p.ts).collect::<Vec<_>>(), vec![200, 300, 400]);
    assert_eq!(h.last().unwrap().mem_bytes, Some(400_000));
    assert!(runner_history(&db, "/srv/nobody", 10).is_empty());
}

#[test]
fn reader_busy_series_counts_busy_and_online_per_tick() {
    let mut db = mem_db();
    // tick 100: two idle, one busy, one offline: busy=1 online=3
    for (id, live) in [(1, "idle"), (2, "busy"), (3, "idle"), (4, "offline")] {
        db.runner_samples.push(local(100, id, "r", "o", live, ""));
    }
    let s = busy_series(&db, 10, 180);
    assert_eq!(s.len(), 1);
    assert_eq!((s[0].busy, s[0].online), (1, 3));
}

#[test]
fn reader_latest_api_runners_takes_the_newest_row_per_runner() {
    let mut db = mem_db();
    api_sample(&mut db, 100, "o", 1, 1, 0); // older reading for r1
    api_sample(&mut db, 200, "o", 1, 1, 1); // newer: r1 now busy
    api_sample(&mut db, 200, "o", 2, 0, 0); // r2 offline

    let m = latest_api_runners(&db, 200, 180);
    assert_eq!(m.len(), 2);
    assert_eq!(view(&m, "o", 1).busy(), Some(true));
    assert_eq!(view(&m, "o", 1).online(), Some(true));
    assert_eq!(view(&m, "o", 2).online(), Some(false));
    assert!(latest_api_runners(&mem_db(), 200, 180).is_empty());
}

#[test]
fn reader_an_org_missing_from_the_newest_tick_keeps_its_last_reading() {
    let mut db = mem_db();
    // Tick 100: both orgs answered.
    api_sample(&mut db, 100, "org-a", 1, 1, 0);
    api_sample(&mut db, 100, "org-b", 1, 1, 0);
    // Tick 200: only org-a answered.
    api_sample(&mut db, 200, "org-a", 1, 1, 0);

    let m = latest_api_runners(&db, 200, 180);
    // org-b is still there, with its older reading and its age.
    let b = view(&m, "org-b", 1);
    assert_eq!(b.online(), Some(true));
    assert!(matches!(b, GhView::Fresh { age_s: 100, .. }));
    // org-a is current.
    assert!(matches!(view(&m, "org-a", 1), GhView::Fresh { age_s: 0, .. }));
}

#[test]
fn reader_a_reading_older_than_max_age_is_stale_not_live() {
    let mut db = mem_db();
    api_sample(&mut db, 100, "o", 1, 1, 0);

    // 60s later, inside a 180s window.
    let fresh = latest_api_runners(&db, 160, 180);
    assert!(matches!(view(&fresh, "o", 1), GhView::Fresh { .. }));

    // 6 hours later the row is no evidence of anything current.
    let old = latest_api_runners(&db, 100 + 21_600, 180);
    let v = view(&old, "o", 1);
    assert!(matches!(v, GhView::Stale { .. }));
    assert_eq!(v.online(), None);
    assert!(matches!(v, GhView::Stale { age_s: 21_600 }));
}

#[test]
fn reader_busy_series_plots_a_gap_not_a_zero_for_a_tick_without_api_data() {
    let mut db = mem_db();
    db.runner_samples.push(local(100, 1, "r", "o", "idle", "/d1"));
    db.runner_samples.push(local(200, 1, "r", "o", "idle", "/d1"));
    // Only tick 200 has a reading.
    api_sample(&mut db, 200, "o", 1, 1, 0);

    let s = busy_series(&db, 10, 180);
    assert_eq!(s.len(), 2);
    // Tick 100 is before every reading: a gap, and never a zero.
    assert!(s[0].github.is_none());
    let gh = s[1].github.unwrap();
    assert_eq!((gh.online, gh.known), (1, 1));
}

#[test]
fn reader_busy_series_carries_the_newest_reading_at_or_before_each_tick() {
    let mut db = mem_db();
    for ts in [100, 105, 110, 115] {
        db.runner_samples.push(local(ts, 1, "r", "o", "idle", "/d1"));
    }
    // One reading, at the first tick only.
    api_sample(&mut db, 100, "o", 1, 1, 0);

    let s = busy_series(&db, 10, 180);
    assert_eq!(s.len(), 4);
    for p in &s {
        let gh = p.github.expect("reading carried forward");
        assert_eq!((gh.online, gh.known), (1, 1));
    }
}

#[test]
fn reader_busy_series_stops_carrying_a_reading_past_max_age() {
    let mut db = mem_db();
    for ts in [100, 200, 400] {
        db.runner_samples.push(local(ts, 1, "r", "o", "idle", "/d1"));
    }
    api_sample(&mut db, 100, "o", 1, 1, 0);

    let s = busy_series(&db, 10, 180);
    assert!(s[0].github.is_some()); // age 0
    assert!(s[1].github.is_some()); // age 100, inside the window
    assert!(s[2].github.is_none()); // age 300, past it: a gap
}

#[test]
fn reader_busy_series_counts_only_the_runners_it_has_a_reading_for() {
    let mut db = mem_db();
    for (id, org) in [(1, "asked"), (2, "never-asked")] {
        db.runner_samples.push(local(100, id, "r", org, "idle", &format!("/d{id}")));
    }
    api_sample(&mut db, 100, "asked", 1, 1, 0);
    // A runner of the org on another host must not count.
    api_sample(&mut db, 100, "asked", 99, 1, 0);

    let s = busy_series(&db, 10, 180);
    let gh = s[0].github.unwrap();
    assert_eq!(s[0].online, 2);
    assert_eq!((gh.online, gh.known), (1, 1));
}

#[test]
fn reader_host_series_chronological() {
    let mut db = mem_db();
    for ts in [10, 20, 30] {
        db.host_samples.push(HostSample {
            ts,
            load1: measure(1.0),
            load5: measure(1.0),
            mem_used: 100,
            mem_total: 200,
            numa: vec![],
            work_bytes: None,
            tmp_bytes: Some(ts as u64 * 5),
            root_free: None,
        });
    }
    let s = host_series(&db, 2);
    assert_eq!(s.iter().map(|p| p.ts).collect::<Vec<_>>(), vec![20, 30]);
    assert_eq!(s.last().unwrap().tmp_bytes, Some(150));
    assert_eq!(s[0].work_bytes, None);
}

#[test]
fn reader_latest_runners_uses_newest_tick() {
    let mut db = mem_db();
    db.runner_samples.push(local(100, 1, "r1", "o", "idle", ""));
    for (id, name, live) in [(1, "r1", "busy"), (2, "r2", "idle")] {
        db.runner_samples.push(local(200, id, name, "o", live, ""));
    }
    let rows = latest_runners(&db);
    assert_eq!(rows.len(), 2);
    assert!(rows.iter().all(|r| r.ts == 200));
    let r1 = rows.iter().find(|r| r.agent_id == 1).unwrap();
    assert_eq!(r1.liveness, Liveness::Busy);
    assert!(latest_runners(&mem_db()).is_empty());
}

#[test]
fn reader_ingest_offsets_loads_every_stream_and_is_empty_on_fresh_db() {
    let mut db = mem_db();
    assert!(ingest_offsets(&db).is_empty());
    for (stream, off) in [
        ("/srv/runners/runner-01/.ghr-stats-events.ndjson", 40),
        ("/srv/runners/runner-02/.ghr-stats-events.ndjson", 128),
    ] {
        db.offsets.push(IngestOffset { stream: stream.to_string(), offset: off });
    }
    let m = ingest_offsets(&db);
    assert_eq!(m.len(), 2);
    assert_eq!(offset(&m, "/srv/runners/runner-01/.ghr-stats-events.ndjson"), 40);
    assert_eq!(offset(&m, "/srv/runners/runner-02/.ghr-stats-events.ndjson"), 128);
}

#[test]
fn reader_jobs_awaiting_conclusion_only_completed_null_with_org_and_repo() {
    let mut db = mem_db();
    // completed, no conclusion, has org and repo
    let mut a = job(1, "build", "o/x", "o", "r");
    a.started_at = Some(10);
    a.completed_at = Some(20);
    db.jobs.push(a);
    // already concluded
    let mut b = job(2, "t", "o/x", "o", "r");
    b.started_at = Some(10);
    b.completed_at = Some(20);
    b.conclusion = Some("success".to_string());
    db.jobs.push(b);
    // still running
    let mut c = job(3, "run", "o/x", "o", "r");
    c.started_at = Some(10);
    db.jobs.push(c);
    // no org and no repo
    let mut d = job(4, "x", "", "", "r");
    d.started_at = Some(10);
    d.completed_at = Some(20);
    db.jobs.push(d);

    let p = jobs_awaiting_conclusion(&db, 10);
    assert_eq!(p.len(), 1);
    assert_eq!(
        (p[0].run_id, p[0].job.as_str(), p[0].repo.as_str(), p[0].org.as_str()),
        (1, "build", "o/x", "o")
    );
}

#[test]
fn reader_latest_job_is_the_most_recent_running_or_done() {
    let mut db = mem_db();
    // Older, completed.
    let mut a = job(1, "a", "o/x", "", "r");
    a.started_at = Some(100);
    a.completed_at = Some(150);
    db.jobs.push(a);
    // Newer, still running.
    let mut b = job(2, "b", "o/y", "", "r");
    b.started_at = Some(200);
    db.jobs.push(b);
    let j = latest_job(&db, "r").unwrap();
    assert_eq!((j.job.as_str(), j.repo.as_str()), ("b", "o/y"));
    assert!(j.completed_at.is_none()); // running

    // Once it completes it is still the latest.
    db.jobs[1].completed_at = Some(260);
    let j = latest_job(&db, "r").unwrap();
    assert_eq!((j.job.as_str(), j.completed_at), ("b", Some(260)));

    assert!(latest_job(&db, "nobody").is_none());
}

#[test]
fn github_latest_api_runners_takes_the_newest_row_per_runner() {
    let mut db = mem_db();
    api_sample(&mut db, 100, "o", 1, 1, 0); // older reading for r1
    api_sample(&mut db, 200, "o", 1, 1, 1); // newer: r1 now busy
    api_sample(&mut db, 200, "o", 2, 0, 0); // r2 offline

    let m = latest_api_runners(&db, 200, 180);
    assert_eq!(m.len(), 2);
    assert_eq!(view(&m, "o", 1).busy(), Some(true));
    assert_eq!(view(&m, "o", 1).online(), Some(true));
    assert_eq!(view(&m, "o", 2).online(), Some(false));
    assert!(latest_api_runners(&mem_db(), 200, 180).is_empty());
}

#[test]
fn github_an_org_missing_from_the_newest_tick_keeps_its_last_reading() {
    let mut db = mem_db();
    // Tick 100: both orgs answered.
    api_sample(&mut db, 100, "org-a", 1, 1, 0);
    api_sample(&mut db, 100, "org-b", 1, 1, 0);
    // Tick 200: only org-a answered.
    api_sample(&mut db, 200, "org-a", 1, 1, 0);

    let m = latest_api_runners(&db, 200, 180);
    // org-b is still there, with its older reading and its age.
    let b = view(&m, "org-b", 1);
    assert_eq!(b.online(), Some(true));
    assert!(matches!(b, GhView::Fresh { age_s: 100, .. }));
    // org-a is current.
    assert!(matches!(view(&m, "org-a", 1), GhView::Fresh { age_s: 0, .. }));
}

#[test]
fn github_a_reading_older_than_max_age_is_stale_not_live() {
    let mut db = mem_db();
    api_sample(&mut db, 100, "o", 1, 1, 0);

    // 60s later, inside a 180s window.
    let fresh = latest_api_runners(&db, 160, 180);
    assert!(matches!(view(&fresh, "o", 1), GhView::Fresh { .. }));

    // 6 hours later the row is no evidence of anything current.
    let old = latest_api_runners(&db, 100 + 21_600, 180);
    let v = view(&old, "o", 1);
    assert!(matches!(v, GhView::Stale { .. }));
    assert_eq!(v.online(), None);
    assert!(matches!(v, GhView::Stale { age_s: 21_600 }));
}

#[test]
fn jobs_ingest_offsets_loads_every_stream_and_is_empty_on_fresh_db() {
    let mut db = mem_db();
    assert!(ingest_offsets(&db).is_empty());
    for (stream, off) in [
        ("/srv/runners/runner-01/.ghr-stats-events.ndjson", 40),
        ("/srv/runners/runner-02/.ghr-stats-events.ndjson", 128),
    ] {
        db.offsets.push(IngestOffset { stream: stream.to_string(), offset: off });
    }
    let m = ingest_offsets(&db);
    assert_eq!(m.len(), 2);
    assert_eq!(offset(&m, "/srv/runners/runner-01/.ghr-stats-events.ndjson"), 40);
    assert_eq!(offset(&m, "/srv/runners/runner-02/.ghr-stats-events.ndjson"), 128);
}

#[test]
fn jobs_jobs_awaiting_conclusion_only_completed_null_with_org_and_repo() {
    let mut db = mem_db();
    // completed, no conclusion, has org and repo
    let mut a = job(1, "build", "o/x", "o", "r");
    a.started_at = Some(10);
    a.completed_at = Some(20);
    db.jobs.push(a);
    // already concluded
    let mut b = job(2, "t", "o/x", "o", "r");
    b.started_at = Some(10);
    b.completed_at = Some(20);
    b.conclusion = Some("success".to_string());
    db.jobs.push(b);
    // still running
    let mut c = job(3, "run", "o/x", "o", "r");
    c.started_at = Some(10);
    db.jobs.push(c);
    // no org and no repo
    let mut d = job(4, "x", "", "", "r");
    d.started_at = Some(10);
    d.completed_at = Some(20);
    db.jobs.push(d);

    let p = jobs_awaiting_conclusion(&db, 10);
    assert_eq!(p.len(), 1);
    assert_eq!(
        (p[0].run_id, p[0].job.as_str(), p[0].repo.as_str(), p[0].org.as_str()),
        (1, "build", "o/x", "o")
    );
}

#[test]
fn jobs_latest_job_is_the_most_recent_running_or_done() {
    let mut db = mem_db();
    // Older, completed.
    let mut a = job(1, "a", "o/x", "", "r");
    a.started_at = Some(100);
    a.completed_at = Some(150);
    db.jobs.push(a);
    // Newer, still running.
    let mut b = job(2, "b", "o/y", "", "r");
    b.started_at = Some(200);
    db.jobs.push(b);
    let j = latest_job(&db, "r").unwrap();
    assert_eq!((j.job.as_str(), j.repo.as_str()), ("b", "o/y"));
    assert!(j.completed_at.is_none()); // running

    // Once it completes it is still the latest.
    db.jobs[1].completed_at = Some(260);
    let j = latest_job(&db, "r").unwrap();
    assert_eq!((j.job.as_str(), j.completed_at), ("b", Some(260)));

    assert!(latest_job(&db, "nobody").is_none());
}

#[test]
fn mod_history_is_chronological_and_limited() {
    let mut db = mem_db();
    for ts in [100, 200, 300, 400] {
        let mut s = local(ts, 7, "r", "o", "idle", "/srv/r7");
        s.cpu_pct = Some(measure((ts as f64) / 10.0));
        s.mem_bytes = Some(ts as u64 * 1000);
        db.runner_samples.push(s);
    }
    let h = runner_history(&db, "/srv/r7", 3);
    // newest 3, oldest to newest
    assert_eq!(h.iter().map(|p| p.ts).collect::<Vec<_>>(), vec![200, 300, 400]);
    assert_eq!(h.last().unwrap().mem_bytes, Some(400_000));
    assert!(runner_history(&db, "/srv/nobody", 10).is_empty());
}

#[test]
fn mod_busy_series_counts_busy_and_online_per_tick() {
    let mut db = mem_db();
    // tick 100: two idle, one busy, one offline: busy=1 online=3
    for (id, live) in [(1, "idle"), (2, "busy"), (3, "idle"), (4, "offline")] {
        db.runner_samples.push(local(100, id, "r", "o", live, ""));
    }
    let s = busy_series(&db, 10, 180);
    assert_eq!(s.len(), 1);
    assert_eq!((s[0].busy, s[0].online), (1, 3));
}

#[test]
fn mod_latest_api_runners_takes_the_newest_row_per_runner() {
    let mut db = mem_db();
    api_sample(&mut db, 100, "o", 1, 1, 0); // older reading for r1
    api_sample(&mut db, 200, "o", 1, 1, 1); // newer: r1 now busy
    api_sample(&mut db, 200, "o", 2, 0, 0); // r2 offline

    let m = latest_api_runners(&db, 200, 180);
    assert_eq!(m.len(), 2);
    assert_eq!(view(&m, "o", 1).busy(), Some(true));
    assert_eq!(view(&m, "o", 1).online(), Some(true));
    assert_eq!(view(&m, "o", 2).online(), Some(false));
    assert!(latest_api_runners(&mem_db(), 200, 180).is_empty());
}

#[test]
fn mod_an_org_missing_from_the_newest_tick_keeps_its_last_reading() {
    let mut db = mem_db();
    // Tick 100: both orgs answered.
    api_sample(&mut db, 100, "org-a", 1, 1, 0);
    api_sample(&mut db, 100, "org-b", 1, 1, 0);
    // Tick 200: only org-a answered.
    api_sample(&mut db, 200, "org-a", 1, 1, 0);

    let m = latest_api_runners(&db, 200, 180);
    // org-b is still there, with its older reading and its age.
    let b = view(&m, "org-b", 1);
    assert_eq!(b.online(), Some(true));
    assert!(matches!(b, GhView::Fresh { age_s: 100, .. }));
    // org-a is current.
    assert!(matches!(view(&m, "org-a", 1), GhView::Fresh { age_s: 0, .. }));
}

#[test]
fn mod_a_reading_older_than_max_age_is_stale_not_live() {
    let mut db = mem_db();
    api_sample(&mut db, 100, "o", 1, 1, 0);

    // 60s later, inside a 180s window.
    let fresh = latest_api_runners(&db, 160, 180);
    assert!(matches!(view(&fresh, "o", 1), GhView::Fresh { .. }));

    // 6 hours later the row is no evidence of anything current.
    let old = latest_api_runners(&db, 100 + 21_600, 180);
    let v = view(&old, "o", 1);
    assert!(matches!(v, GhView::Stale { .. }));
    assert_eq!(v.online(), None);
    assert!(matches!(v, GhView::Stale { age_s: 21_600 }));
}

#[test]
fn mod_busy_series_plots_a_gap_not_a_zero_for_a_tick_without_api_data() {
    let mut db = mem_db();
    db.runner_samples.push(local(100, 1, "r", "o", "idle", "/d1"));
    db.runner_samples.push(local(200, 1, "r", "o", "idle", "/d1"));
    // Only tick 200 has a reading.
    api_sample(&mut db, 200, "o", 1, 1, 0);

    let s = busy_series(&db, 10, 180);
    assert_eq!(s.len(), 2);
    // Tick 100 is before every reading: a gap, and never a zero.
    assert!(s[0].github.is_none());
    let gh = s[1].github.unwrap();
    assert_eq!((gh.online, gh.known), (1, 1));
}

#[test]
fn mod_busy_series_carries_the_newest_reading_at_or_before_each_tick() {
    let mut db = mem_db();
    for ts in [100, 105, 110, 115] {
        db.runner_samples.push(local(ts, 1, "r", "o", "idle", "/d1"));
    }
    // One reading, at the first tick only.
    api_sample(&mut db, 100, "o", 1, 1, 0);

    let s = busy_series(&db, 10, 180);
    assert_eq!(s.len(), 4);
    for p in &s {
        let gh = p.github.expect("reading carried forward");
        assert_eq!((gh.online, gh.known), (1, 1));
    }
}

#[test]
fn mod_busy_series_stops_carrying_a_reading_past_max_age() {
    let mut db = mem_db();
    for ts in [100, 200, 400] {
        db.runner_samples.push(local(ts, 1, "r", "o", "idle", "/d1"));
    }
    api_sample(&mut db, 100, "o", 1, 1, 0);

    let s = busy_series(&db, 10, 180);
    assert!(s[0].github.is_some()); // age 0
    assert!(s[1].github.is_some()); // age 100, inside the window
    assert!(s[2].github.is_none()); // age 300, past it: a gap
}

#[test]
fn mod_busy_series_counts_only_the_runners_it_has_a_reading_for() {
    let mut db = mem_db();
    for (id, org) in [(1, "asked"), (2, "never-asked")] {
        db.runner_samples.push(local(100, id, "r", org, "idle", &format!("/d{id}")));
    }
    api_sample(&mut db, 100, "asked", 1, 1, 0);
    // A runner of the org on another host must not count.
    api_sample(&mut db, 100, "asked", 99, 1, 0);

    let s = busy_series(&db, 10, 180);
    let gh = s[0].github.unwrap();
    assert_eq!(s[0].online, 2);
    assert_eq!((gh.online, gh.known), (1, 1));
}

#[test]
fn mod_host_series_chronological() {
    let mut db = mem_db();
    for ts in [10, 20, 30] {
        db.host_samples.push(HostSample {
            ts,
            load1: measure(1.0),
            load5: measure(1.0),
            mem_used: 100,
            mem_total: 200,
            numa: vec![],
            work_bytes: None,
            tmp_bytes: Some(ts as u64 * 5),
            root_free: None,
        });
    }
    let s = host_series(&db, 2);
    assert_eq!(s.iter().map(|p| p.ts).collect::<Vec<_>>(), vec![20, 30]);
    assert_eq!(s.last().unwrap().tmp_bytes, Some(150));
    assert_eq!(s[0].work_bytes, None);
}

#[test]
fn mod_latest_runners_uses_newest_tick() {
    let mut db = mem_db();
    db.runner_samples.push(local(100, 1, "r1", "o", "idle", ""));
    for (id, name, live) in [(1, "r1", "busy"), (2, "r2", "idle")] {
        db.runner_samples.push(local(200, id, name, "o", live, ""));
    }
    let rows = latest_runners(&db);
    assert_eq!(rows.len(), 2);
    assert!(rows.iter().all(|r| r.ts == 200));
    let r1 = rows.iter().find(|r| r.agent_id == 1).unwrap();
    assert_eq!(r1.liveness, Liveness::Busy);
    assert!(latest_runners(&mem_db()).is_empty());
}

#[test]
fn mod_ingest_offsets_loads_every_stream_and_is_empty_on_fresh_db() {
    let mut db = mem_db();
    assert!(ingest_offsets(&db).is_empty());
    for (stream, off) in [
        ("/srv/runners/runner-01/.ghr-stats-events.ndjson", 40),
        ("/srv/runners/runner-02/.ghr-stats-events.ndjson", 128),
    ] {
        db.offsets.push(IngestOffset { stream: stream.to_string(), offset: off });
    }
    let m = ingest_offsets(&db);
    assert_eq!(m.len(), 2);
    assert_eq!(offset(&m, "/srv/runners/runner-01/.ghr-stats-events.ndjson"), 40);
    assert_eq!(offset(&m, "/srv/runners/runner-02/.ghr-stats-events.ndjson"), 128);
}

#[test]
fn mod_jobs_awaiting_conclusion_only_completed_null_with_org_and_repo() {
    let mut db = mem_db();
    // completed, no conclusion, has org and repo
    let mut a = job(1, "build", "o/x", "o", "r");
    a.started_at = Some(10);
    a.completed_at = Some(20);
    db.jobs.push(a);
    // already concluded
    let mut b = job(2, "t", "o/x", "o", "r");
    b.started_at = Some(10);
    b.completed_at = Some(20);
    b.conclusion = Some("success".to_string());
    db.jobs.push(b);
    // still running
    let mut c = job(3, "run", "o/x", "o", "r");
    c.started_at = Some(10);
    db.jobs.push(c);
    // no org and no repo
    let mut d = job(4, "x", "", "", "r");
    d.started_at = Some(10);
    d.completed_at = Some(20);
    db.jobs.push(d);

    let p = jobs_awaiting_conclusion(&db, 10);
    assert_eq!(p.len(), 1);
    assert_eq!(
        (p[0].run_id, p[0].job.as_str(), p[0].repo.as_str(), p[0].org.as_str()),
        (1, "build", "o/x", "o")
    );
}

#[test]
fn mod_latest_job_is_the_most_recent_running_or_done() {
    let mut db = mem_db();
    // Older, completed.
    let mut a = job(1, "a", "o/x", "", "r");
    a.started_at = Some(100);
    a.completed_at = Some(150);
    db.jobs.push(a);
    // Newer, still running.
    let mut b = job(2, "b", "o/y", "", "r");
    b.started_at = Some(200);
    db.jobs.push(b);
    let j = latest_job(&db, "r").unwrap();
    assert_eq!((j.job.as_str(), j.repo.as_str()), ("b", "o/y"));
    assert!(j.completed_at.is_none()); // running

    // Once it completes it is still the latest.
    db.jobs[1].completed_at = Some(260);
    let j = latest_job(&db, "r").unwrap();
    assert_eq!((j.job.as_str(), j.completed_at), ("b", Some(260)));

    assert!(latest_job(&db, "nobody").is_none());
}

#[test]
fn retention_of_an_empty_store_is_none_not_zero() {
    assert_eq!(retention(&mem_db()), None);
}

#[test]
fn retention_is_the_oldest_sample_across_every_runner() {
    let mut db = mem_db();
    for (ts, name, org) in [(900, "b", "org-b"), (300, "a", "org-a"), (600, "c", "org-a")] {
        let mut s = local(ts, 7, name, org, "idle", "/srv/r7");
        s.cpu_pct = Some(measure(1.0));
        s.mem_bytes = Some(1024);
        db.runner_samples.push(s);
    }
    assert_eq!(retention(&db), Some(300));
}

#[test]
fn latest_api_runners_uses_newest_tick_only() {
    let mut db = mem_db();
    // older tick
    api_sample(&mut db, 100, "o", 1, 1, 0);
    // newest tick: r1 now busy, r2 offline
    for (id, online, busy) in [(1, 1, 1), (2, 0, 0)] {
        api_sample(&mut db, 200, "o", id, online, busy);
    }
    let m = latest_api_runners(&db, 200, 180);
    assert_eq!(m.len(), 2);
    assert!(view(&m, "o", 1).busy() == Some(true) && view(&m, "o", 1).online() == Some(true));
    assert!(view(&m, "o", 2).online() == Some(false));
    assert!(latest_api_runners(&mem_db(), 200, 180).is_empty());
}

#[test]
fn reads_of_an_empty_store_are_empty() {
    let db = mem_db();
    assert!(latest_host(&db).is_none());
    assert!(runner_states(&db).is_empty());
    assert!(recent_jobs(&db, 5).is_empty());
    assert_eq!(job_counts(&db), (0, 0));
    assert_eq!(ingest_offset(&db, "hooks"), 0);
    assert!(busy_series(&db, 5, 180).is_empty());
}

#[test]
fn recent_jobs_come_newest_first_and_are_counted() {
    let mut db = mem_db();
    let mut a = job(1, "a", "o/x", "o", "r");
    a.started_at = Some(100);
    a.completed_at = Some(150);
    let mut b = job(2, "b", "o/x", "o", "r");
    b.started_at = Some(300);
    let mut c = job(3, "c", "o/x", "o", "s");
    c.completed_at = Some(200);
    db.jobs.push(a);
    db.jobs.push(b);
    db.jobs.push(c);
    let jobs = recent_jobs(&db, 2);
    assert_eq!(jobs.iter().map(|j| j.job.as_str()).collect::<Vec<_>>(), vec!["b", "c"]);
    assert_eq!(job_counts(&db), (3, 1));
}

#[test]
fn a_negative_offset_reads_as_the_start() {
    let mut db = mem_db();
    db.offsets.push(IngestOffset { stream: "hooks".to_string(), offset: -5 });
    db.offsets.push(IngestOffset { stream: "other".to_string(), offset: 9 });
    assert_eq!(ingest_offset(&db, "hooks"), ingest_offsets(&db)[0].1);
    assert_eq!(ingest_offset(&db, "other"), 9);
    assert_eq!(ingest_offset(&db, "missing"), 0);
}

#[test]
fn a_limit_of_zero_reads_nothing() {
    let mut db = mem_db();
    db.runner_samples.push(local(100, 1, "r", "o", "idle", "/d1"));
    assert!(runner_history(&db, "/d1", 0).is_empty());
    assert!(busy_series(&db, 0, 180).is_empty());
}
