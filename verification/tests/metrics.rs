use ghr_stats::config::PushConfig;
use ghr_stats::error::Error;
use ghr_stats::metrics::export::{
    body, follow, push_body, push_wait, respond, Listener, Pusher,
};
use ghr_stats::metrics::exposition::esc;
use ghr_stats::metrics::Snapshot;
use ghr_stats::models::{
    ApiReconcileState, ApiRunnerState, HostSample, Liveness, Measure, Mode, RunnerSample,
    RunnerState, Verdict,
};
use ghr_stats::server::dispatch::Source;
use ghr_stats::store::tables::{ApiSample, Db, JobEvent};

fn measure(value: f64) -> Measure {
    Measure { text: format!("{value}"), json: serde_json::Value::from(value) }
}

fn local(id: i64, name: &str, live: &str) -> RunnerSample {
    RunnerSample {
        ts: 1000,
        agent_id: id,
        dir: format!("/srv/{name}"),
        name: name.to_string(),
        org: "acme".to_string(),
        liveness: Liveness::from_db(live),
        current_run_id: None,
        cpu_pct: None,
        mem_bytes: None,
        mem_current_bytes: None,
        uptime_s: None,
    }
}

fn seed() -> Db {
    let mut db = Db::new();
    for (id, name, live) in [(1, "r1", "busy"), (2, "r2", "idle")] {
        let mut s = local(id, name, live);
        s.cpu_pct = Some(measure(12.5));
        s.mem_bytes = Some(1048576);
        s.mem_current_bytes = Some(2097152);
        db.runner_samples.push(s);
    }
    db.runner_states.push(RunnerState {
        dir: "/srv/r1".to_string(),
        liveness: Liveness::Busy,
        since_ts: 900,
        last_seen_ts: 1000,
    });
    db.host_samples.push(HostSample {
        ts: 1000,
        load1: measure(1.5),
        load5: measure(1.0),
        mem_used: 100,
        mem_total: 200,
        numa: vec![],
        work_bytes: None,
        tmp_bytes: None,
        root_free: None,
    });
    db.jobs.push(JobEvent {
        run_id: 5,
        run_attempt: 1,
        job: "".to_string(),
        repo: "".to_string(),
        org: "".to_string(),
        runner_name: "r1".to_string(),
        started_at: Some(950),
        completed_at: None,
        conclusion: None,
    });
    db
}

fn api(db: &mut Db, id: i64, online: i64) {
    db.api_samples.push(ApiSample {
        ts: 1000,
        agent_id: id,
        org: "acme".to_string(),
        name: "r".to_string(),
        online: online == 1,
        busy: false,
    });
}

fn health() -> ApiReconcileState {
    ApiReconcileState {
        org: "acme".to_string(),
        last_ok_ts: Some(1000),
        last_try_ts: 1000,
        ok: true,
        http_status: None,
        error_kind: None,
        configured: true,
    }
}

/// Both runners are up here; GitHub says since 500 that r1 is offline.
fn seed_divergent() -> Db {
    let mut db = seed();
    for (id, online) in [(1, 0), (2, 1)] {
        api(&mut db, id, online);
        db.api_states.push(ApiRunnerState {
            org: "acme".to_string(),
            agent_id: id,
            online: online == 1,
            since_ts: if online == 0 { 500 } else { 1000 },
            last_seen_ts: 1000,
        });
    }
    db.reconcile_states.push(health());
    db
}

#[test]
fn fleet_by_state_is_unchanged_for_a_non_divergent_fleet() {
    let p = Snapshot::gather(&seed(), 1100, "9.9.9", 180).to_prometheus();
    assert!(p.contains("ghr_fleet_by_state{state=\"busy\"} 1"));
    assert!(p.contains("ghr_fleet_by_state{state=\"idle\"} 1"));
    assert!(p.contains("ghr_fleet_by_state{state=\"offline\"} 0"));
    assert!(p.contains("ghr_fleet_by_state{state=\"divergent\"} 0"));
}

#[test]
fn a_locally_up_github_offline_runner_is_divergent() {
    let p = Snapshot::gather(&seed_divergent(), 1100, "9.9.9", 180).to_prometheus();
    assert!(p.contains("ghr_fleet_by_state{state=\"divergent\"} 1"));
    assert!(p.contains("ghr_runner_divergent{agent_id=\"1\",name=\"r1\",org=\"acme\"} 1"));
    assert!(p.contains("ghr_runner_divergent{agent_id=\"2\",name=\"r2\",org=\"acme\"} 0"));
    // From the edge: 1100 - 500.
    assert!(p.contains(
        "ghr_runner_github_offline_seconds{agent_id=\"1\",name=\"r1\",org=\"acme\"} 600"
    ));
    // By org.
    assert!(p.contains("ghr_org_runners{org=\"acme\",state=\"total\"} 2"));
    assert!(p.contains("ghr_org_runners{org=\"acme\",state=\"github_online\"} 1"));
    // How well GitHub could be asked.
    assert!(p.contains("ghr_api_reconcile_ok{org=\"acme\"} 1"));
    assert!(p.contains("ghr_api_reconcile_timestamp_seconds{org=\"acme\"} 1000"));
    assert!(p.contains("ghr_api_max_age_seconds 180"));
}

#[test]
fn a_stale_or_unknown_github_view_is_not_divergent() {
    // No reading at all.
    let p = Snapshot::gather(&seed(), 1100, "9.9.9", 180).to_prometheus();
    assert!(!p.contains("ghr_runner_divergent{agent_id=\"1\""));

    // Readings far older than the window.
    let p = Snapshot::gather(&seed_divergent(), 100_000, "9.9.9", 180).to_prometheus();
    assert!(p.contains("ghr_fleet_by_state{state=\"divergent\"} 0"));
    assert!(!p.contains("ghr_runner_github_online{agent_id=\"1\""));
}

#[test]
fn prometheus_has_expected_families() {
    let snap = Snapshot::gather(&seed(), 1100, "9.9.9", 180);
    let p = snap.to_prometheus();
    assert!(p.contains("ghr_build_info{version=\"9.9.9\"} 1"));
    assert!(p.contains("ghr_fleet_runners 2"));
    assert!(p.contains("ghr_fleet_by_state{state=\"busy\"} 1"));
    assert!(p.contains("ghr_host_load1 1.5"));
    assert!(p.contains("ghr_jobs_running 1"));
    // 1100 - 900
    assert!(p.contains(
        "ghr_runner_state_seconds{agent_id=\"1\",name=\"r1\",org=\"acme\",state=\"busy\"} 200"
    ));
    assert!(p.contains("ghr_runner_cpu_percent{agent_id=\"1\",name=\"r1\",org=\"acme\"} 12.5"));
    assert!(p.contains("ghr_runner_mem_bytes{agent_id=\"1\",name=\"r1\",org=\"acme\"} 1048576"));
    assert!(p.contains(
        "ghr_runner_mem_current_bytes{agent_id=\"1\",name=\"r1\",org=\"acme\"} 2097152"
    ));
}

#[test]
fn json_has_fleet_plus_runner_records() {
    let snap = Snapshot::gather(&seed(), 1100, "9.9.9", 180);
    let v: serde_json::Value = serde_json::from_str(&snap.to_json()).unwrap();
    let arr = v.as_array().unwrap();
    assert_eq!(arr.len(), 3); // 1 fleet + 2 runners
    assert!(arr.iter().any(|o| o["kind"] == "fleet" && o["runners"] == 2));
    assert!(arr.iter().any(|o| o["kind"] == "runner"
        && o["name"] == "r1"
        && o["busy"] == 1
        && o["mem_bytes"] == 1048576
        && o["mem_current_bytes"] == 2097152));
    assert!(arr.iter().all(|o| o["_timestamp"] == 1_100_000_000));
    assert!(arr.iter().any(|o| o["load1"] == 1.5));
}

#[test]
fn label_values_are_escaped() {
    assert_eq!(esc(r#"a"b\c"#), r#"a\"b\\c"#);
    assert_eq!(esc("a\nb"), "a\\nb");
}

#[test]
fn an_org_we_cannot_ask_about_is_unknown_not_degraded() {
    let mut db = Db::new();
    db.runner_samples.push(local(1, "r1", "idle"));
    let snap = Snapshot::gather(&db, 1100, "9.9.9", 180);
    let st = snap.to_status(Mode::Persistent);
    let org = &st.orgs[0];

    // There is no reading at all of this org.
    assert_eq!(org.runners, 1);
    assert_eq!(org.github_online, 0);
    assert_eq!(org.reconcile_age_s, None, "never reconciled");

    assert_eq!(
        org.verdict,
        Verdict::Unknown,
        "an org with no successful reconcile is UNANSWERABLE, not failing"
    );
}

#[test]
fn a_runner_we_can_see_going_offline_still_degrades_its_org() {
    let mut db = Db::new();
    for (id, name) in [(1, "r1"), (2, "r2")] {
        db.runner_samples.push(local(id, name, "idle"));
    }
    // GitHub answered for both, and says r1 cannot take work.
    for (id, online) in [(1, 0), (2, 1)] {
        api(&mut db, id, online);
    }
    db.reconcile_states.push(health());

    let status = Snapshot::gather(&db, 1100, "9.9.9", 180).to_status(Mode::Persistent);
    let org = &status.orgs[0];
    assert_eq!((org.runners, org.github_online), (2, 1));
    assert_eq!(
        org.verdict,
        Verdict::Degraded,
        "a visible runner that GitHub says is offline must still degrade"
    );
}

#[test]
fn a_scrape_is_answered_under_metrics_alone() {
    let source = Source::Open(seed());
    let r = respond("/metrics?x", &source, 1100, "9.9.9", 180);
    assert!(r.typed);
    assert!(r.body.contains("ghr_fleet_runners 2"));
    let r = respond("/", &source, 1100, "9.9.9", 180);
    assert_eq!((r.typed, r.body.as_str()), (false, "see /metrics\n"));
    assert_eq!(body(&Source::Missing, 0, "v", 1), "# db unavailable\n");
    assert_eq!(
        body(&Source::Failed(Error::Sqlite("locked".to_string())), 0, "v", 1),
        "# gather error: sqlite: locked\n"
    );
}

#[test]
fn the_listener_follows_the_configuration() {
    assert_eq!(follow(None, false, "a"), Listener::Keep);
    assert_eq!(follow(None, true, "a"), Listener::Listen);
    assert_eq!(follow(Some("a"), true, "a"), Listener::Keep);
    assert_eq!(follow(Some("a"), true, "b"), Listener::Listen);
    assert_eq!(follow(Some("a"), false, "a"), Listener::Close);
}

#[test]
fn pushing_starts_at_once_and_keeps_its_interval() {
    let push = |enabled, endpoint: &str| PushConfig {
        enabled,
        endpoint: endpoint.to_string(),
        auth: None,
        interval_secs: 1,
    };
    assert_eq!(push_wait(1), 5);
    assert_eq!(push_wait(30), 30);
    let mut p = Pusher::new(0);
    let t = p.tick(&push(false, "http://x"), 100);
    assert_eq!((t.on, t.changed, t.due), (false, false, false));
    // Without an endpoint it stays off.
    assert!(!p.tick(&push(true, ""), 200).on);
    let t = p.tick(&push(true, "http://x"), 300);
    assert_eq!((t.on, t.changed, t.due), (true, true, true));
    p.pushed(1, 300);
    assert!(!p.tick(&push(true, "http://x"), 5_299).due);
    assert!(p.tick(&push(true, "http://x"), 5_300).due);
    let t = p.tick(&push(false, "http://x"), 5_400);
    assert_eq!((t.on, t.changed, t.due), (false, true, false));
    p.pushed(u64::MAX, 1);
    assert_eq!(p.next, u64::MAX);
}

#[test]
fn a_push_posts_the_records() {
    let text = push_body(&Source::Open(seed()), 1100, "9.9.9", 180).unwrap().unwrap();
    assert!(text.starts_with("[{"));
    assert_eq!(push_body(&Source::Missing, 1100, "9.9.9", 180), Ok(None));
    assert_eq!(
        push_body(&Source::Failed(Error::Io("x".to_string())), 1100, "9.9.9", 180),
        Err("io: x".to_string())
    );
}

#[test]
fn a_label_value_ends_at_its_own_quote() {
    // Reading up to the first quote that no backslash escapes gives the value.
    for v in ["plain", "say \"hi\"", "ends in \\", "\\\"", "two\nlines"] {
        let escaped = esc(v);
        assert!(!escaped.contains('\n'));
        let line = format!("{escaped}\"}} 1");
        let (mut end, mut skip) = (0, false);
        for (i, c) in line.char_indices() {
            if skip {
                skip = false;
            } else if c == '\\' {
                skip = true;
            } else if c == '"' {
                end = i;
                break;
            }
        }
        assert_eq!(&line[..end], escaped);
    }
}

#[test]
fn the_counts_of_a_fleet_add_up() {
    let mut db = Db::new();
    for (id, name, state) in [(1, "a", "idle"), (2, "b", "busy"), (3, "c", "offline")] {
        db.runner_samples.push(local(id, name, state));
    }
    db.runner_samples[0].org = "zeta".to_string();
    db.runner_samples[1].org = "acme".to_string();
    db.runner_samples[2].org = "acme".to_string();
    let s = Snapshot::gather(&db, 1_100, "1", 60);
    assert_eq!((s.busy + s.idle + s.offline) as usize, s.runners.len());
    assert!(s.divergent <= s.busy + s.idle);
    let orgs: Vec<(&str, u32)> = s.orgs.iter().map(|o| (o.org.as_str(), o.total)).collect();
    assert_eq!(orgs, [("acme", 2), ("zeta", 1)]);
}
