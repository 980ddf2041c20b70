use ghr_stats::config::Config;
use ghr_stats::error::Error;
use ghr_stats::ipc::{Mutation, Query, Request, Response, VERSION};
use ghr_stats::models::timeline::TimelineQuery;
use ghr_stats::models::{GhView, HostSample, Liveness, Measure, RunnerSample, RunnerState};
use ghr_stats::paths::Places;
use ghr_stats::server::auth::{authorized, peer_auth, uid_in_group, Auth};
use ghr_stats::server::dispatch::{
    clamped, consult, handle, written, Action, Consult, Found, Source, MAX_QUERY_LIMIT,
};
use ghr_stats::server::{admits, ends_cleanly, reload_config, reloads, ReadEnd};
use ghr_stats::store::tables::{ApiSample, Db};

const ROOT: Auth = Auth { uid: 0, in_admin_group: false };
const MEMBER: Auth = Auth { uid: 1000, in_admin_group: true };
const NOBODY: Auth = Auth { uid: 1000, in_admin_group: false };
/// A freshness window for tests that do not depend on it.
const MAX_AGE: u64 = 180;
const NOW: i64 = 1_784_998_498;
const CONF: &str = "/nonexistent/ghr-stats-unused.toml";

fn measure(value: f64) -> Measure {
    Measure { text: format!("{value}"), json: serde_json::Value::from(value) }
}

fn seeded() -> Db {
    let mut db = Db::new();
    db.host_samples.push(HostSample {
        ts: 100,
        load1: measure(1.0),
        load5: measure(1.0),
        mem_used: 10,
        mem_total: 20,
        numa: vec![],
        work_bytes: None,
        tmp_bytes: None,
        root_free: None,
    });
    db
}

fn api(db: &mut Db, ts: i64, id: i64, online: bool) {
    db.api_samples.push(ApiSample {
        ts,
        agent_id: id,
        org: "o".to_string(),
        name: "r".to_string(),
        online,
        busy: false,
    });
}

fn ask(req: &Request, source: Source, auth: Auth, config: &Found, max_age: u64) -> Response {
    match handle(req, &source, auth, CONF, config, NOW, max_age, "0.2.1") {
        Action::Reply(r) => r,
        Action::Write(_) => written(Ok(())),
    }
}

#[test]
fn ipc_server_a_timeline_limit_is_clamped_server_side() {
    let mut db = Db::new();
    // Two samples, one edge.
    for (ts, live) in [(100, "idle"), (200, "busy")] {
        db.runner_samples.push(RunnerSample {
            ts,
            agent_id: 1,
            dir: "/d1".to_string(),
            name: "r1".to_string(),
            org: "o".to_string(),
            liveness: Liveness::from_db(live),
            current_run_id: None,
            cpu_pct: None,
            mem_bytes: None,
            mem_current_bytes: None,
            uptime_s: None,
        });
    }
    let reply = ask(
        &Request::Query(Query::Timeline(TimelineQuery {
            since_ts: 0,
            limit: usize::MAX,
            org: None,
            runner: None,
            samples: true,
        })),
        Source::Open(db),
        NOBODY,
        &Found::Absent,
        MAX_AGE,
    );
    match reply {
        Response::Timeline(t) => {
            assert_eq!(t.transitions.items.len(), 1);
            assert!(!t.transitions.limited);
            assert_eq!(t.samples.map(|s| s.items.len()), Some(2));
        }
        other => panic!("expected a timeline, got {other:?}"),
    }
}

#[test]
fn ipc_server_query_limit_is_clamped() {
    assert_eq!(clamped(5), 5);
    assert_eq!(clamped(MAX_QUERY_LIMIT), MAX_QUERY_LIMIT);
    assert_eq!(clamped(MAX_QUERY_LIMIT + 1), MAX_QUERY_LIMIT);
    assert_eq!(clamped(usize::MAX), MAX_QUERY_LIMIT);
}

#[test]
fn ipc_server_authorized_only_for_root_or_group_member() {
    assert!(authorized(0, false)); // root
    assert!(authorized(1000, true)); // group member
    assert!(!authorized(1000, false)); // neither
}

#[test]
fn ipc_server_hello_replies_with_server_version_without_a_db() {
    assert!(matches!(
        ask(&Request::Hello { client: VERSION }, Source::Missing, NOBODY, &Found::Absent, MAX_AGE),
        Response::Hello { server, .. } if server == VERSION
    ));
}

#[test]
fn ipc_server_data_request_without_db_is_an_error_not_a_panic() {
    assert!(matches!(
        ask(
            &Request::Query(Query::HostSeries { limit: 5 }),
            Source::Missing,
            ROOT,
            &Found::Absent,
            MAX_AGE
        ),
        Response::Error(_)
    ));
}

#[test]
fn ipc_server_host_series_request_returns_rows() {
    let db = seeded();
    assert!(matches!(
        ask(
            &Request::Query(Query::HostSeries { limit: 5 }),
            Source::Open(db),
            ROOT,
            &Found::Absent,
            MAX_AGE
        ),
        Response::HostSeries(v) if v.len() == 1 && v[0].ts == 100
    ));
}

#[test]
fn ipc_server_latest_api_runners_serializes_as_pairs() {
    let mut db = seeded();
    api(&mut db, 200, 9, true);
    // A window so wide that the row is fresh.
    match ask(
        &Request::Query(Query::LatestApiRunners),
        Source::Open(db),
        ROOT,
        &Found::Absent,
        u64::MAX,
    ) {
        Response::LatestApiRunners(rows) => {
            assert_eq!(rows.len(), 1);
            assert_eq!(rows[0].agent_id, 9);
            assert_eq!(rows[0].view.online(), Some(true));
            assert_eq!(rows[0].view.busy(), Some(false));
        }
        other => panic!("unexpected {other:?}"),
    }
}

#[test]
fn ipc_server_latest_api_runners_reports_an_aged_row_as_stale_over_the_wire() {
    let mut db = seeded();
    api(&mut db, 200, 9, true);
    match ask(&Request::Query(Query::LatestApiRunners), Source::Open(db), ROOT, &Found::Absent, 0) {
        Response::LatestApiRunners(rows) => {
            assert_eq!(rows.len(), 1);
            assert!(matches!(rows[0].view, GhView::Stale { .. }));
            assert_eq!(rows[0].view.online(), None);
        }
        other => panic!("unexpected {other:?}"),
    }
}

#[test]
fn ipc_server_runner_states_returns_persisted_edges() {
    let mut db = seeded();
    db.runner_states.push(RunnerState {
        dir: "/srv/r7".to_string(),
        liveness: Liveness::from_db("busy"),
        since_ts: 500,
        last_seen_ts: 900,
    });
    match ask(
        &Request::Query(Query::RunnerStates),
        Source::Open(db),
        ROOT,
        &Found::Absent,
        MAX_AGE,
    ) {
        Response::RunnerStates(rows) => {
            assert_eq!(rows.len(), 1);
            assert_eq!(rows[0].dir, "/srv/r7");
            assert_eq!(rows[0].since_ts, 500);
        }
        other => panic!("unexpected {other:?}"),
    }
}

#[test]
fn ipc_server_configured_token_orgs_reads_the_config_needs_no_auth_and_hides_values() {
    let cfg = Found::Text(
        "[github.tokens]\nwidgets = \"github_pat_SECRET\"\nacme = \"github_pat_OTHER\"\n".to_string(),
    );
    // Anyone can read which orgs there are. No database is needed.
    match ask(
        &Request::Query(Query::ConfiguredTokenOrgs),
        Source::Missing,
        NOBODY,
        &cfg,
        MAX_AGE,
    ) {
        Response::ConfiguredTokenOrgs(orgs) => {
            assert_eq!(orgs, vec!["acme".to_string(), "widgets".to_string()]);
        }
        other => panic!("unexpected {other:?}"),
    }
    // A missing or unreadable file names none, and is no error.
    assert!(matches!(
        ask(
            &Request::Query(Query::ConfiguredTokenOrgs),
            Source::Missing,
            NOBODY,
            &Found::Absent,
            MAX_AGE
        ),
        Response::ConfiguredTokenOrgs(orgs) if orgs.is_empty()
    ));
}

#[test]
fn ipc_server_mutation_denied_for_unauthorized_peer_and_writes_nothing() {
    let req = Request::Mutate(Mutation::SetMetricsPull {
        enabled: true,
        addr: "127.0.0.1:9999".to_string(),
    });
    let action =
        handle(&req, &Source::Missing, NOBODY, "config.toml", &Found::Absent, NOW, MAX_AGE, "0.2.1");
    assert!(matches!(action, Action::Reply(Response::Denied)));
    assert!(
        consult(&req, NOBODY) == Consult::Nothing,
        "denied mutation must not write the config"
    );
}

#[test]
fn ipc_server_mutation_persists_for_authorized_peer() {
    let req = Request::Mutate(Mutation::SetMetricsPull {
        enabled: true,
        addr: "127.0.0.1:9999".to_string(),
    });
    // A member of the group is authorized, as root is.
    let action =
        handle(&req, &Source::Missing, MEMBER, "config.toml", &Found::Absent, NOW, MAX_AGE, "0.2.1");
    let text = match action {
        Action::Write(text) => text,
        other => panic!("expected a write, got {other:?}"),
    };
    assert!(matches!(written(Ok(())), Response::Mutated));
    assert!(text.contains("9999"), "persisted config should hold the new addr");
}

#[test]
fn auth_authorized_only_for_root_or_group_member() {
    assert!(authorized(0, false)); // root
    assert!(authorized(1000, true)); // group member
    assert!(!authorized(1000, false)); // neither
}

#[test]
fn dispatch_a_timeline_limit_is_clamped_server_side() {
    let mut db = Db::new();
    // Two samples, one edge.
    for (ts, live) in [(100, "idle"), (200, "busy")] {
        db.runner_samples.push(RunnerSample {
            ts,
            agent_id: 1,
            dir: "/d1".to_string(),
            name: "r1".to_string(),
            org: "o".to_string(),
            liveness: Liveness::from_db(live),
            current_run_id: None,
            cpu_pct: None,
            mem_bytes: None,
            mem_current_bytes: None,
            uptime_s: None,
        });
    }
    let reply = ask(
        &Request::Query(Query::Timeline(TimelineQuery {
            since_ts: 0,
            limit: usize::MAX,
            org: None,
            runner: None,
            samples: true,
        })),
        Source::Open(db),
        NOBODY,
        &Found::Absent,
        MAX_AGE,
    );
    match reply {
        Response::Timeline(t) => {
            assert_eq!(t.transitions.items.len(), 1);
            assert!(!t.transitions.limited);
            assert_eq!(t.samples.map(|s| s.items.len()), Some(2));
        }
        other => panic!("expected a timeline, got {other:?}"),
    }
}

#[test]
fn dispatch_query_limit_is_clamped() {
    assert_eq!(clamped(5), 5);
    assert_eq!(clamped(MAX_QUERY_LIMIT), MAX_QUERY_LIMIT);
    assert_eq!(clamped(MAX_QUERY_LIMIT + 1), MAX_QUERY_LIMIT);
    assert_eq!(clamped(usize::MAX), MAX_QUERY_LIMIT);
}

#[test]
fn dispatch_hello_replies_with_server_version_without_a_db() {
    assert!(matches!(
        ask(&Request::Hello { client: VERSION }, Source::Missing, NOBODY, &Found::Absent, MAX_AGE),
        Response::Hello { server, .. } if server == VERSION
    ));
}

#[test]
fn dispatch_data_request_without_db_is_an_error_not_a_panic() {
    assert!(matches!(
        ask(
            &Request::Query(Query::HostSeries { limit: 5 }),
            Source::Missing,
            ROOT,
            &Found::Absent,
            MAX_AGE
        ),
        Response::Error(_)
    ));
}

#[test]
fn dispatch_host_series_request_returns_rows() {
    let db = seeded();
    assert!(matches!(
        ask(
            &Request::Query(Query::HostSeries { limit: 5 }),
            Source::Open(db),
            ROOT,
            &Found::Absent,
            MAX_AGE
        ),
        Response::HostSeries(v) if v.len() == 1 && v[0].ts == 100
    ));
}

#[test]
fn dispatch_latest_api_runners_serializes_as_pairs() {
    let mut db = seeded();
    api(&mut db, 200, 9, true);
    // A window so wide that the row is fresh.
    match ask(
        &Request::Query(Query::LatestApiRunners),
        Source::Open(db),
        ROOT,
        &Found::Absent,
        u64::MAX,
    ) {
        Response::LatestApiRunners(rows) => {
            assert_eq!(rows.len(), 1);
            assert_eq!(rows[0].agent_id, 9);
            assert_eq!(rows[0].view.online(), Some(true));
            assert_eq!(rows[0].view.busy(), Some(false));
        }
        other => panic!("unexpected {other:?}"),
    }
}

#[test]
fn dispatch_latest_api_runners_reports_an_aged_row_as_stale_over_the_wire() {
    let mut db = seeded();
    api(&mut db, 200, 9, true);
    match ask(&Request::Query(Query::LatestApiRunners), Source::Open(db), ROOT, &Found::Absent, 0) {
        Response::LatestApiRunners(rows) => {
            assert_eq!(rows.len(), 1);
            assert!(matches!(rows[0].view, GhView::Stale { .. }));
            assert_eq!(rows[0].view.online(), None);
        }
        other => panic!("unexpected {other:?}"),
    }
}

#[test]
fn dispatch_runner_states_returns_persisted_edges() {
    let mut db = seeded();
    db.runner_states.push(RunnerState {
        dir: "/srv/r7".to_string(),
        liveness: Liveness::from_db("busy"),
        since_ts: 500,
        last_seen_ts: 900,
    });
    match ask(
        &Request::Query(Query::RunnerStates),
        Source::Open(db),
        ROOT,
        &Found::Absent,
        MAX_AGE,
    ) {
        Response::RunnerStates(rows) => {
            assert_eq!(rows.len(), 1);
            assert_eq!(rows[0].dir, "/srv/r7");
            assert_eq!(rows[0].since_ts, 500);
        }
        other => panic!("unexpected {other:?}"),
    }
}

#[test]
fn dispatch_configured_token_orgs_reads_the_config_needs_no_auth_and_hides_values() {
    let cfg = Found::Text(
        "[github.tokens]\nwidgets = \"github_pat_SECRET\"\nacme = \"github_pat_OTHER\"\n".to_string(),
    );
    // Anyone can read which orgs there are. No database is needed.
    match ask(
        &Request::Query(Query::ConfiguredTokenOrgs),
        Source::Missing,
        NOBODY,
        &cfg,
        MAX_AGE,
    ) {
        Response::ConfiguredTokenOrgs(orgs) => {
            assert_eq!(orgs, vec!["acme".to_string(), "widgets".to_string()]);
        }
        other => panic!("unexpected {other:?}"),
    }
    // A missing or unreadable file names none, and is no error.
    assert!(matches!(
        ask(
            &Request::Query(Query::ConfiguredTokenOrgs),
            Source::Missing,
            NOBODY,
            &Found::Absent,
            MAX_AGE
        ),
        Response::ConfiguredTokenOrgs(orgs) if orgs.is_empty()
    ));
}

#[test]
fn dispatch_mutation_denied_for_unauthorized_peer_and_writes_nothing() {
    let req = Request::Mutate(Mutation::SetMetricsPull {
        enabled: true,
        addr: "127.0.0.1:9999".to_string(),
    });
    let action =
        handle(&req, &Source::Missing, NOBODY, "config.toml", &Found::Absent, NOW, MAX_AGE, "0.2.1");
    assert!(matches!(action, Action::Reply(Response::Denied)));
    assert!(
        consult(&req, NOBODY) == Consult::Nothing,
        "denied mutation must not write the config"
    );
}

#[test]
fn dispatch_mutation_persists_for_authorized_peer() {
    let req = Request::Mutate(Mutation::SetMetricsPull {
        enabled: true,
        addr: "127.0.0.1:9999".to_string(),
    });
    // A member of the group is authorized, as root is.
    let action =
        handle(&req, &Source::Missing, MEMBER, "config.toml", &Found::Absent, NOW, MAX_AGE, "0.2.1");
    let text = match action {
        Action::Write(text) => text,
        other => panic!("expected a write, got {other:?}"),
    };
    assert!(matches!(written(Ok(())), Response::Mutated));
    assert!(text.contains("9999"), "persisted config should hold the new addr");
}

#[test]
fn a_database_that_fails_says_why() {
    let reply = ask(
        &Request::Query(Query::Retention),
        Source::Failed(Error::Sqlite("locked".to_string())),
        ROOT,
        &Found::Absent,
        MAX_AGE,
    );
    assert!(matches!(reply, Response::Error(m) if m == "sqlite: locked"));
    let reply =
        ask(&Request::Query(Query::Retention), Source::Missing, ROOT, &Found::Absent, MAX_AGE);
    assert!(matches!(reply, Response::Error(m) if m == "db unavailable"));
    assert!(matches!(
        written(Err(Error::Io("full".to_string()))),
        Response::Error(m) if m == "io: full"
    ));
}

#[test]
fn a_status_is_given_from_the_collectors_tables() {
    let reply = ask(
        &Request::Query(Query::FleetStatus),
        Source::Open(seeded()),
        NOBODY,
        &Found::Absent,
        MAX_AGE,
    );
    match reply {
        Response::FleetStatus(s) => {
            assert_eq!(s.fleet.runners, 0);
            assert_eq!(s.generated_at, "2026-07-25T16:54:58Z");
        }
        other => panic!("unexpected {other:?}"),
    }
}

#[test]
fn a_write_that_cannot_be_made_is_an_error() {
    let req = Request::Mutate(Mutation::AddOrgToken {
        org: "acme".to_string(),
        token: "github_pat_ABC".to_string(),
    });
    let reply = ask(&req, Source::Missing, ROOT, &Found::Text("github = 1\n".to_string()), MAX_AGE);
    assert!(matches!(reply, Response::Error(m) if m == "config: `github` is not a table"));
    let reply = ask(&req, Source::Missing, ROOT, &Found::Unreadable("io".to_string()), MAX_AGE);
    assert!(matches!(
        reply,
        Response::Error(m) if m == "config: reading /nonexistent/ghr-stats-unused.toml: io"
    ));
    assert_eq!(consult(&req, ROOT), Consult::Edit);
    assert_eq!(consult(&Request::Query(Query::ConfiguredTokenOrgs), NOBODY), Consult::Read);
    assert_eq!(consult(&Request::Query(Query::Retention), ROOT), Consult::Nothing);
}

#[test]
fn a_peer_without_credentials_has_no_privilege() {
    assert_eq!(peer_auth(None, true), Auth { uid: u32::MAX, in_admin_group: false });
    assert_eq!(peer_auth(Some(1000), true), MEMBER);
    let groups = vec![Some("wheel".to_string()), None, Some("ghr-stats".to_string())];
    assert!(uid_in_group(Some(&groups), "ghr-stats"));
    assert!(!uid_in_group(Some(&groups), "docker"));
    assert!(!uid_in_group(None, "ghr-stats"));
}

#[test]
fn connections_are_bounded_and_end_cleanly() {
    assert!(admits(0));
    assert!(admits(7));
    assert!(!admits(8));
    assert!(ends_cleanly(ReadEnd::UnexpectedEof));
    assert!(ends_cleanly(ReadEnd::TimedOut));
    assert!(!ends_cleanly(ReadEnd::Other));
    assert!(reloads(&Response::Mutated));
    assert!(!reloads(&Response::Denied));
}

#[test]
fn a_reload_falls_back_to_the_defaults() {
    let env = Places {
        home: Some("/home/u".to_string()),
        xdg_config_home: None,
        xdg_data_home: None,
        xdg_runtime_dir: None,
        uid: 0,
    };
    let found = vec!["/srv/r".to_string()];
    let c = reload_config(Err(Error::Config("bad".to_string())), &env, &found);
    assert_eq!((c.intervals.api_secs, c.runner_roots), (60, found.clone()));
    let mut own = Config::defaults(&env);
    own.runner_roots = vec!["/own".to_string()];
    assert_eq!(reload_config(Ok(own), &env, &found).runner_roots, vec!["/own"]);
}

#[test]
fn every_peer_reads_the_same_thing() {
    let open = || {
        let mut db = seeded();
        api(&mut db, NOW, 1, true);
        api(&mut db, NOW, 2, false);
        Source::Open(db)
    };
    let found = Found::Text("[github.tokens]\nb = \"x\"\na = \"y\"\n".to_string());
    for q in [
        Query::HostSeries { limit: 5 },
        Query::FleetStatus,
        Query::Retention,
        Query::ConfiguredTokenOrgs,
    ] {
        let req = Request::Query(q);
        let root = ask(&req, open(), ROOT, &found, MAX_AGE);
        let nobody = ask(&req, open(), NOBODY, &found, MAX_AGE);
        assert_eq!(format!("{root:?}"), format!("{nobody:?}"));
    }
    let req = Request::Query(Query::LatestApiRunners);
    let views = |auth| match ask(&req, open(), auth, &found, MAX_AGE) {
        Response::LatestApiRunners(mut v) => {
            v.sort_by_key(|r| r.agent_id);
            v
        }
        other => panic!("unexpected {other:?}"),
    };
    assert_eq!(views(ROOT), views(NOBODY));
}

#[test]
fn a_write_is_refused_to_no_one_who_may() {
    let req = Request::Mutate(Mutation::RemoveOrgToken { org: "acme".to_string() });
    for (auth, denied) in [(ROOT, false), (MEMBER, false), (NOBODY, true)] {
        let reply = ask(&req, Source::Missing, auth, &Found::Absent, MAX_AGE);
        assert_eq!(matches!(reply, Response::Denied), denied);
    }
    // Anyone may greet.
    let reply = ask(&Request::Hello { client: 0 }, Source::Missing, NOBODY, &Found::Absent, MAX_AGE);
    assert!(matches!(reply, Response::Hello { server: VERSION, version } if version == "0.2.1"));
}

#[test]
fn a_reply_holds_no_more_than_was_asked_for() {
    let mut db = Db::new();
    for _ in 0..3 {
        db.host_samples.extend(seeded().host_samples);
    }
    let req = Request::Query(Query::HostSeries { limit: 2 });
    let reply = ask(&req, Source::Open(db), NOBODY, &Found::Absent, MAX_AGE);
    assert!(matches!(reply, Response::HostSeries(v) if v.len() == 2));
}

#[test]
fn a_read_tells_nothing_of_the_tokens() {
    let one = Found::Text("[github.tokens]\nacme = \"secret\"\n".to_string());
    let other = Found::Text("orgs = []\n\n[github.tokens]\nacme = \"\"\n".to_string());
    let req = Request::Query(Query::ConfiguredTokenOrgs);
    let a = ask(&req, Source::Missing, NOBODY, &one, MAX_AGE);
    let b = ask(&req, Source::Missing, NOBODY, &other, MAX_AGE);
    assert_eq!(format!("{a:?}"), "ConfiguredTokenOrgs([\"acme\"])");
    assert_eq!(format!("{a:?}"), format!("{b:?}"));
}
