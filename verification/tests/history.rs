use ghr_stats::config::persist::{
    forget_org, put_pull, put_roots, put_token, remove_org_token, set_org_token,
};
use ghr_stats::config::tokens_in;
use ghr_stats::ipc::{Query, Response};
use ghr_stats::metrics::Snapshot;
use ghr_stats::models::{
    ApiErrorKind, ApiOrgOutcome, ApiRunnerRow, GhView, HookEvent, HostSample, JobConclusion,
    Liveness, Measure, Mode, RunnerSample, Verdict,
};
use ghr_stats::serve::{apply_sample, Sample};
use ghr_stats::server::dispatch::{serve_query, Found, Source, MAX_QUERY_LIMIT};
use ghr_stats::store::reader::github::latest_api_runners;
use ghr_stats::store::reader::jobs::{
    ingest_offset, job_counts, jobs_awaiting_conclusion, recent_jobs,
};
use ghr_stats::store::reader::{
    latest_host, latest_runners, retention, runner_history, runner_states,
};
use ghr_stats::store::schema::{migrate, Plan, TARGET};
use ghr_stats::store::tables::Db;
use ghr_stats::store::writer::prune;

fn measure(value: f64) -> Measure {
    Measure { text: format!("{value}"), json: serde_json::Value::from(value) }
}

fn runner(ts: i64, name: &str, liveness: Liveness) -> RunnerSample {
    RunnerSample {
        ts,
        agent_id: 1,
        dir: format!("/srv/{name}"),
        name: name.to_string(),
        org: "acme".to_string(),
        liveness,
        current_run_id: None,
        cpu_pct: Some(measure(0.5)),
        mem_bytes: Some(7),
        mem_current_bytes: None,
        uptime_s: None,
    }
}

fn host(ts: i64) -> HostSample {
    HostSample {
        ts,
        load1: measure(1.5),
        load5: measure(1.0),
        mem_used: 3,
        mem_total: 4,
        numa: vec![],
        work_bytes: None,
        tmp_bytes: None,
        root_free: None,
    }
}

fn tick(db: &mut Db, ts: i64, up: &[(&str, Liveness)]) {
    let runners = up.iter().map(|(name, l)| runner(ts, name, *l)).collect();
    apply_sample(db, Sample::Local { runners, host: host(ts) });
}

fn row(agent_id: i64, online: bool) -> ApiRunnerRow {
    ApiRunnerRow {
        agent_id,
        org: "acme".to_string(),
        name: "r".to_string(),
        online,
        busy: false,
    }
}

fn event(phase: &str, ts: i64, job: &str) -> HookEvent {
    HookEvent {
        phase: phase.to_string(),
        ts,
        repo: "acme/app".to_string(),
        run_id: 1,
        run_attempt: 1,
        job: job.to_string(),
        runner: "r".to_string(),
    }
}

#[test]
fn a_tick_is_read_as_it_was_written() {
    let mut db = Db::new();
    tick(&mut db, 10, &[("a", Liveness::Idle), ("b", Liveness::Busy)]);
    tick(&mut db, 20, &[("b", Liveness::Idle), ("a", Liveness::Idle)]);
    let newest = latest_runners(&db);
    let names: Vec<&str> = newest.iter().map(|r| r.name.as_str()).collect();
    assert_eq!(names, vec!["b", "a"]);
    assert!(newest.iter().all(|r| r.ts == 20));
    assert_eq!(latest_host(&db).unwrap().ts, 20);
    let history = runner_history(&db, "/srv/b", 5);
    assert_eq!(history.iter().map(|p| p.ts).collect::<Vec<_>>(), vec![10, 20]);
    // The idle runner's edge stays where it was; the other one's moved.
    let since: Vec<i64> = runner_states(&db).iter().map(|s| s.since_ts).collect();
    assert_eq!(since, vec![10, 20]);
}

#[test]
fn a_reading_is_seen_until_it_ages() {
    let mut db = Db::new();
    let fetched = |online| {
        vec![ApiOrgOutcome::Fetched { org: "acme".to_string(), rows: vec![row(7, online)] }]
    };
    apply_sample(&mut db, Sample::Api { ts: 100, outcomes: fetched(true) });
    apply_sample(&mut db, Sample::Api { ts: 200, outcomes: fetched(false) });
    let seen = latest_api_runners(&db, 230, 60);
    assert_eq!(seen.len(), 1);
    assert_eq!((seen[0].view.online(), seen[0].view.age_s()), (Some(false), Some(30)));
    assert!(matches!(latest_api_runners(&db, 261, 60)[0].view, GhView::Stale { age_s: 61 }));
    // A failure after it changes nothing of the view, and leaves a trace.
    let failed = vec![ApiOrgOutcome::Failed {
        org: "acme".to_string(),
        kind: ApiErrorKind::Transport,
    }];
    apply_sample(&mut db, Sample::Api { ts: 210, outcomes: failed });
    assert_eq!(latest_api_runners(&db, 230, 60)[0].view.online(), Some(false));
    assert_eq!(db.reconcile_samples.len(), 3);
    assert_eq!(db.reconcile_states[0].last_ok_ts, Some(200));
}

#[test]
fn jobs_come_back_with_what_is_known_of_them() {
    let mut db = Db::new();
    apply_sample(
        &mut db,
        Sample::Hook {
            stream: "/log".to_string(),
            events: vec![
                event("completed", 30, "build"),
                event("started", 20, "build"),
                event("started", 40, "test"),
            ],
            offset: 99,
        },
    );
    assert_eq!(ingest_offset(&db, "/log"), 99);
    assert_eq!(ingest_offset(&db, "/other"), 0);
    assert_eq!(job_counts(&db), (2, 1));
    let recent = recent_jobs(&db, 10);
    assert_eq!(recent.iter().map(|j| j.job.as_str()).collect::<Vec<_>>(), vec!["test", "build"]);
    assert_eq!((recent[1].started_at, recent[1].completed_at), (Some(20), Some(30)));
    assert_eq!(jobs_awaiting_conclusion(&db, 10).len(), 1);

    let conclusion = |c: &str| JobConclusion {
        run_id: 1,
        run_attempt: 1,
        job: "build".to_string(),
        runner_name: "r".to_string(),
        conclusion: c.to_string(),
    };
    let updates = vec![conclusion("failure"), conclusion("success")];
    apply_sample(&mut db, Sample::JobConclusions { updates });
    // The last one counts, and nothing is awaited any more.
    assert_eq!(recent_jobs(&db, 10)[1].conclusion.as_deref(), Some("success"));
    assert!(jobs_awaiting_conclusion(&db, 10).is_empty());
}

#[test]
fn pruning_moves_the_floor() {
    let mut db = Db::new();
    for ts in [10, 20, 30] {
        tick(&mut db, ts, &[("a", Liveness::Idle)]);
    }
    assert_eq!(retention(&db), Some(10));
    assert_eq!(prune(&mut db, 20), 2);
    assert_eq!(retention(&db), Some(20));
    assert_eq!(prune(&mut db, 99), 4);
    assert_eq!(retention(&db), None);
    assert_eq!(runner_states(&db).len(), 1);
}

#[test]
fn the_renderings_of_one_fleet_agree() {
    let mut db = Db::new();
    tick(
        &mut db,
        10,
        &[("a", Liveness::Idle), ("b", Liveness::Busy), ("c", Liveness::Offline)],
    );
    let one = Snapshot::gather(&db, 20, "1", 60);
    let other = Snapshot::gather(&db, 20, "1", 60);
    assert_eq!(one.to_prometheus(), other.to_prometheus());
    assert_eq!(one.to_json(), other.to_json());
    assert_eq!((one.busy, one.idle, one.offline), (1, 1, 1));
    assert_eq!(one.orgs.len(), 1);
    let status = one.to_status(Mode::Persistent);
    assert_eq!(status.verdict, Verdict::Degraded);
    let records: serde_json::Value = serde_json::from_str(&one.to_json()).unwrap();
    assert_eq!(records[0]["verdict"], "degraded");
    assert_eq!(records[0]["offline"], status.fleet.offline);
}

#[test]
fn an_empty_fleet_is_healthy_in_no_rendering() {
    let empty = Snapshot::gather(&Db::new(), 20, "1", 60);
    assert_eq!(empty.verdict(), Verdict::Unknown);
    assert_eq!(empty.to_status(Mode::Persistent).verdict, Verdict::Unknown);
    let records: serde_json::Value = serde_json::from_str(&empty.to_json()).unwrap();
    assert_eq!(records[0]["verdict"], "unknown");

    let mut db = Db::new();
    tick(&mut db, 10, &[("a", Liveness::Idle)]);
    let fine = Snapshot::gather(&db, 20, "1", 60);
    assert_eq!(fine.to_status(Mode::Persistent).verdict, Verdict::Healthy);
    let records: serde_json::Value = serde_json::from_str(&fine.to_json()).unwrap();
    assert_eq!(records[0]["verdict"], "ok");
}

#[test]
fn a_reply_holds_no_more_than_its_bound() {
    let mut db = Db::new();
    db.host_samples = (0..MAX_QUERY_LIMIT as i64 + 5).map(host).collect();
    let q = Query::HostSeries { limit: usize::MAX };
    match serve_query(&q, &Source::Open(db), &Found::Absent, 0, 0, "1") {
        Response::HostSeries(rows) => {
            assert_eq!(rows.len(), MAX_QUERY_LIMIT);
            assert_eq!(rows[0].ts, 5);
        }
        other => panic!("unexpected {other:?}"),
    }
}

#[test]
fn migrations_apply_one_after_the_other() {
    let statements = |from| match migrate(from) {
        Ok(Plan::Apply(v)) => v,
        _ => vec![],
    };
    let all = statements(0);
    assert_eq!(all.len() as i64, TARGET);
    for from in 0..TARGET {
        assert_eq!(statements(from), all[from as usize..].to_vec());
    }
}

fn table(text: &str) -> toml::Table {
    toml::from_str(text).unwrap()
}

#[test]
fn a_document_is_edited_in_one_place() {
    let doc = table("orgs = [\"a\", 1]\n[github]\ntoken = \"t\"\n");
    let with = put_token(doc.clone(), "a", "x").unwrap();
    assert_eq!(with["github"]["tokens"]["a"].as_str(), Some("x"));
    assert_eq!(with["github"]["token"].as_str(), Some("t"));
    assert_eq!(tokens_in(with.clone()), Some((vec!["a".to_string()], true)));
    // Forgetting the org takes its token and its name, and leaves the rest.
    assert_eq!(forget_org(with, "a"), table("orgs = [1]\n[github]\ntoken = \"t\"\n"));
    assert!(put_token(table("github = 1\n"), "a", "x").is_err());
    assert!(put_pull(table("metrics = 1\n"), true, "x").is_err());
    assert_eq!(
        put_pull(table(""), false, "x").unwrap(),
        table("[metrics.pull]\nenabled = false\naddr = \"x\"\n")
    );
    assert_eq!(
        put_roots(table("a = 1\n"), &["/r".to_string()]),
        table("a = 1\nrunner_roots = [\"/r\"]\n")
    );
    assert_eq!(tokens_in(table("github = 1\n")), None);
    assert_eq!(tokens_in(table("")), Some((vec![], false)));
}

#[test]
fn removing_a_token_undoes_setting_it() {
    let before = "[metrics.push]\nenabled = true\n";
    let set = set_org_token("c", Some(before), "acme", "t").unwrap();
    let removed = remove_org_token("c", Some(&set), "acme").unwrap();
    assert_eq!(table(&removed), table(before));
}
