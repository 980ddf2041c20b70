use ghr_stats::collectors::cpu::CpuRateTracker;
use ghr_stats::collectors::runners::RunnerProbe;
use ghr_stats::config::{Config, Secret};
use ghr_stats::github::{ApiRunner, RunJob};
use ghr_stats::models::{
    ApiErrorKind, ApiOrgOutcome, HookEvent, JobConclusion, Liveness, PendingConclusion, RunnerInfo,
};
use ghr_stats::paths::Places;
use ghr_stats::serve::github::{
    api_wait, gather_api, group_by_run, match_conclusions, orgs_to_ask, reconcile_job_conclusions,
};
use ghr_stats::serve::jobs::{forwards, Offsets};
use ghr_stats::serve::local::{local_wait, to_samples, walks_work};
use ghr_stats::serve::{
    already_running, apply_sample, foreground_refusal, lock_path, sleep_for, Sample,
};
use ghr_stats::store::tables::Db;

fn pending(job: &str) -> PendingConclusion {
    PendingConclusion {
        org: "example-org".into(),
        repo: "example-org/foo".into(),
        run_id: 1,
        run_attempt: 1,
        job: job.into(),
        runner_name: "runner-01".into(),
    }
}

fn api(name: &str, concl: Option<&str>) -> RunJob {
    RunJob { name: name.into(), conclusion: concl.map(str::to_string) }
}

fn info(name: &str, org: &str) -> RunnerInfo {
    RunnerInfo {
        agent_id: 1,
        name: name.to_string(),
        org: org.to_string(),
        group: None,
        dir: format!("/srv/{name}"),
        work_folder: "_work".to_string(),
        uid: 1,
        user: "u".to_string(),
    }
}

#[test]
fn serve_match_conclusions_by_name_single_job_and_skips_running() {
    // Several jobs: matched by name; the one still running is left.
    let pend = [pending("build"), pending("test")];
    let jobs = [api("build", Some("success")), api("test", None)];
    let got = match_conclusions(&pend, &jobs);
    assert_eq!(got.len(), 1);
    assert_eq!((got[0].job.as_str(), got[0].conclusion.as_str()), ("build", "success"));

    // A single job is matched whatever its name.
    let got = match_conclusions(&[pending("deploy")], &[api("Deploy to prod", Some("failure"))]);
    assert_eq!(got.len(), 1);
    assert_eq!(got[0].conclusion, "failure");

    // No job of the name among several: nothing is resolved.
    assert!(match_conclusions(
        &[pending("nope")],
        &[api("a", Some("success")), api("b", Some("success"))]
    )
    .is_empty());
}

#[test]
fn github_match_conclusions_by_name_single_job_and_skips_running() {
    // Several jobs: matched by name; the one still running is left.
    let pend = [pending("build"), pending("test")];
    let jobs = [api("build", Some("success")), api("test", None)];
    let got = match_conclusions(&pend, &jobs);
    assert_eq!(got.len(), 1);
    assert_eq!((got[0].job.as_str(), got[0].conclusion.as_str()), ("build", "success"));

    // A single job is matched whatever its name.
    let got = match_conclusions(&[pending("deploy")], &[api("Deploy to prod", Some("failure"))]);
    assert_eq!(got.len(), 1);
    assert_eq!(got[0].conclusion, "failure");

    // No job of the name among several: nothing is resolved.
    assert!(match_conclusions(
        &[pending("nope")],
        &[api("a", Some("success")), api("b", Some("success"))]
    )
    .is_empty());
}

#[test]
fn runs_are_grouped_in_order() {
    let p = |org: &str, repo: &str, run_id, job: &str| PendingConclusion {
        org: org.into(),
        repo: repo.into(),
        run_id,
        run_attempt: 1,
        job: job.into(),
        runner_name: "r".into(),
    };
    let groups = group_by_run(&[
        p("b", "b/x", 1, "one"),
        p("a", "a/y", 2, "two"),
        p("a", "a/y", 1, "three"),
        p("b", "b/x", 1, "four"),
    ]);
    let keys: Vec<_> =
        groups.iter().map(|g| (g.org.as_str(), g.repo.as_str(), g.run_id, g.jobs.len())).collect();
    assert_eq!(keys, vec![("a", "a/y", 1, 1), ("a", "a/y", 2, 1), ("b", "b/x", 1, 2)]);
    assert_eq!(groups[2].jobs[1].job, "four");

    // A run that could not be asked resolves nothing, and one that was not reached
    // is left.
    let got = reconcile_job_conclusions(&groups, &[None, Some(vec![api("x", Some("success"))])]);
    assert_eq!(got.len(), 1);
    assert_eq!((got[0].job.as_str(), got[0].conclusion.as_str()), ("two", "success"));
}

#[test]
fn every_org_gets_its_own_outcome() {
    let env = Places {
        home: None,
        xdg_config_home: None,
        xdg_data_home: None,
        xdg_runtime_dir: None,
        uid: 0,
    };
    let mut cfg = Config::defaults(&env);
    for org in ["a", "b"] {
        cfg.github.tokens.push((org.to_string(), Secret::new("github_pat_x".to_string())));
    }
    let orgs = orgs_to_ask(&["c".into(), "a".into(), "b".into(), "a".into()], &[]);
    assert_eq!(orgs, vec!["a", "b", "c"]);
    let runner = |status: &str| ApiRunner {
        id: 7,
        name: "r".to_string(),
        status: status.to_string(),
        busy: true,
    };
    let outcomes = gather_api(
        &cfg,
        None,
        &orgs,
        &[
            Ok(vec![runner("online"), runner("offline")]),
            Err(ApiErrorKind::Forbidden),
            Err(ApiErrorKind::Transport),
        ],
    );
    assert_eq!(outcomes.len(), 3);
    match &outcomes[0] {
        ApiOrgOutcome::Fetched { org, rows } => {
            assert_eq!(org, "a");
            assert_eq!((rows[0].online, rows[1].online), (true, false));
            assert_eq!((rows[0].agent_id, rows[0].busy, rows[0].org.as_str()), (7, true, "a"));
        }
        other => panic!("unexpected {other:?}"),
    }
    assert!(matches!(&outcomes[1], ApiOrgOutcome::Failed { org, kind: ApiErrorKind::Forbidden } if org == "b"));
    // Without a token an org is not configured, whatever the answer.
    assert!(matches!(&outcomes[2], ApiOrgOutcome::Unconfigured { org } if org == "c"));
    // Stopped early, the rest is not reached.
    assert_eq!(gather_api(&cfg, None, &orgs, &[Ok(vec![])]).len(), 1);
}

#[test]
fn orgs_come_from_the_runners_where_none_is_configured() {
    assert_eq!(orgs_to_ask(&[], &[info("x", "z"), info("y", "a"), info("w", "z")]), vec!["a", "z"]);
}

#[test]
fn samples_follow_each_runners_own_counter() {
    let probe = |name: &str, usage| RunnerProbe {
        info: info(name, "o"),
        liveness: Liveness::Idle,
        mem_bytes: Some(1),
        mem_current_bytes: Some(2),
        cpu_usage_usec: usage,
        uptime_s: None,
    };
    let mut cpu = CpuRateTracker::new();
    let first = to_samples(&[probe("a", Some(10)), probe("b", Some(900))], 50, &mut cpu, 0);
    assert!(first.iter().all(|s| s.cpu.is_none()));
    let second = to_samples(&[probe("a", Some(15)), probe("b", None)], 60, &mut cpu, 1_000);
    assert_eq!(second[0].cpu.map(|d| (d.usec, d.nanos)), Some((5, 1_000)));
    assert!(second[1].cpu.is_none());
    let s = &second[0].sample;
    assert_eq!((s.ts, s.dir.as_str(), s.mem_bytes, s.mem_current_bytes), (60, "/srv/a", Some(1), Some(2)));
}

#[test]
fn the_writer_takes_every_kind_of_sample() {
    let mut db = Db::new();
    apply_sample(
        &mut db,
        Sample::Hook {
            stream: "/log".to_string(),
            events: vec![HookEvent {
                phase: "completed".into(),
                ts: 10,
                repo: "o/x".into(),
                run_id: 1,
                run_attempt: 1,
                job: "build".into(),
                runner: "r".into(),
            }],
            offset: 33,
        },
    );
    apply_sample(
        &mut db,
        Sample::JobConclusions {
            updates: vec![JobConclusion {
                run_id: 1,
                run_attempt: 1,
                job: "build".into(),
                runner_name: "r".into(),
                conclusion: "success".into(),
            }],
        },
    );
    apply_sample(
        &mut db,
        Sample::Api { ts: 5, outcomes: vec![ApiOrgOutcome::Unconfigured { org: "o".into() }] },
    );
    assert_eq!(db.jobs[0].conclusion.as_deref(), Some("success"));
    assert_eq!(db.offsets[0].offset, 33);
    assert_eq!(db.reconcile_samples.len(), 1);
}

#[test]
fn logs_go_on_where_they_were_left() {
    let mut o = Offsets::resume(&[("/a".to_string(), 7)]);
    assert_eq!((o.get("/a"), o.get("/b")), (7, 0));
    o.insert("/b", 3);
    o.insert("/a", 9);
    assert_eq!((o.get("/a"), o.get("/b"), o.get("/c")), (9, 3, 0));
    assert!(forwards(1, 5, 5));
    assert!(forwards(0, 5, 6));
    assert!(!forwards(0, 5, 5));
}

#[test]
fn the_lock_lies_beside_the_database() {
    assert_eq!(lock_path("/var/lib/ghr-stats/ghr-stats.db"), "/var/lib/ghr-stats/serve.lock");
    assert_eq!(lock_path("ghr-stats.db"), "serve.lock");
    assert_eq!(lock_path("/"), "/serve.lock");
    assert_eq!(lock_path("a/.."), "a/../serve.lock");
    assert_eq!(already_running("EAGAIN"), "another ghr-stats collector is already running (EAGAIN)");
}

#[test]
fn a_terminal_is_refused_unless_allowed() {
    assert!(foreground_refusal(true, false).unwrap().contains("ghr-stats systemd install"));
    assert!(foreground_refusal(true, true).is_none());
    assert!(foreground_refusal(false, false).is_none());
}

#[test]
fn cadences_have_a_floor() {
    assert_eq!((local_wait(0), local_wait(5)), (1, 5));
    assert_eq!((api_wait(3), api_wait(60)), (10, 60));
    assert!(walks_work(0));
    assert!(!walks_work(11));
    assert!(walks_work(24));
    assert_eq!(sleep_for(0, 1_000, false), Some(200));
    assert_eq!(sleep_for(900, 1_000, false), Some(100));
    assert_eq!(sleep_for(1_000, 1_000, false), None);
    assert_eq!(sleep_for(0, 1_000, true), None);
}
