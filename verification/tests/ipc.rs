use ghr_stats::ipc::client::{
    api_map, collector_version, connect_any, next_scope, read_timeout, refused, shake, weigh,
    ConnectErr, EphemeralReason, Search, SocketFailure, IO_TIMEOUT, SCAN_TIMEOUT,
};
use ghr_stats::ipc::{
    frame_len, read_frame, write_frame, ApiRow, FrameError, Mutation, Query, Request, Response,
    MAX_FRAME, VERSION,
};
use ghr_stats::models::timeline::TimelineQuery;
use ghr_stats::models::{ApiState, GhView};
use ghr_stats::paths::Scope;

#[test]
fn frame_round_trips() {
    let msg = serde_json::to_vec(&vec![42, 3, 7]).unwrap();
    let buf = write_frame(&msg).unwrap();
    // The first four bytes are the length of the body.
    let declared = u32::from_le_bytes(buf[..4].try_into().unwrap()) as usize;
    assert_eq!(declared, buf.len() - 4);
    let back: Vec<i64> = serde_json::from_slice(&read_frame(&buf).unwrap()).unwrap();
    assert!(back.len() == 3 && back[2] == 7);
}

#[test]
fn oversize_length_prefix_is_rejected_before_alloc() {
    let mut framed = (u32::MAX).to_le_bytes().to_vec();
    framed.extend_from_slice(b"ignored");
    let err = read_frame(&framed).unwrap_err();
    assert_eq!(err, FrameError::TooLarge);
    assert_eq!(frame_len(u32::MAX.to_le_bytes()), Err(FrameError::TooLarge));
}

#[test]
fn truncated_body_errors() {
    let mut buf = write_frame(b"{\"HostSeries\":{\"limit\":10}}").unwrap();
    buf.truncate(buf.len() - 2); // lose the tail of the body
    assert!(read_frame(&buf).is_err());
    assert_eq!(read_frame(&buf[..3]), Err(FrameError::Truncated));
}

#[test]
fn frames_are_bounded_both_ways() {
    let big = vec![0u8; MAX_FRAME as usize + 1];
    assert_eq!(write_frame(&big), Err(FrameError::TooLarge));
    assert_eq!(write_frame(&big[..MAX_FRAME as usize]).unwrap().len(), MAX_FRAME as usize + 4);
    assert_eq!(frame_len(MAX_FRAME.to_le_bytes()), Ok(MAX_FRAME));
    assert_eq!(read_frame(&write_frame(b"").unwrap()), Ok(vec![]));
    // What follows a frame is not part of it.
    let mut two = write_frame(b"a").unwrap();
    two.extend(write_frame(b"b").unwrap());
    assert_eq!(read_frame(&two), Ok(b"a".to_vec()));
}

/// A write as the body of a frame.
fn body(m: &Mutation) -> Vec<u8> {
    let fields = match m {
        Mutation::SetMetricsPull { enabled, addr } => {
            vec![("enabled", (*enabled).into()), ("addr", addr.as_str().into())]
        }
        Mutation::AddOrgToken { org, token } => {
            vec![("org", org.as_str().into()), ("token", token.as_str().into())]
        }
        Mutation::RemoveOrgToken { org } => vec![("org", org.as_str().into())],
    };
    let fields: serde_json::Map<String, serde_json::Value> =
        fields.into_iter().map(|(k, v)| (k.to_string(), v)).collect();
    let tagged: serde_json::Map<String, serde_json::Value> =
        [(m.action().to_string(), fields.into())].into_iter().collect();
    serde_json::to_vec(&tagged).unwrap()
}

#[test]
fn mutation_request_variants_round_trip() {
    let m = Mutation::SetMetricsPull { enabled: true, addr: "127.0.0.1:9477".to_string() };
    let back = read_frame(&write_frame(&body(&m)).unwrap()).unwrap();
    let v: serde_json::Value = serde_json::from_slice(&back).unwrap();
    let pull = &v["set_metrics_pull"];
    assert!(pull["enabled"] == true && pull["addr"] == "127.0.0.1:9477");

    let m = Mutation::AddOrgToken { org: "acme".to_string(), token: "github_pat_ABC".to_string() };
    let back = read_frame(&write_frame(&body(&m)).unwrap()).unwrap();
    let v: serde_json::Value = serde_json::from_slice(&back).unwrap();
    let added = &v["add_org_token"];
    assert!(added["org"] == "acme" && added["token"] == "github_pat_ABC");
}

#[test]
fn mutation_replies_are_payload_free() {
    for resp in [Response::Mutated, Response::Denied] {
        let body = format!("{resp:?}");
        assert!(
            body == "Mutated" || body == "Denied",
            "mutation reply must be a bare tag, got {body}"
        );
    }
}

#[test]
fn writes_are_labelled_without_what_they_carry() {
    let add = Mutation::AddOrgToken { org: "acme".to_string(), token: "github_pat_ABC".to_string() };
    assert_eq!(add.action(), "add_org_token");
    let pull = Mutation::SetMetricsPull { enabled: true, addr: "127.0.0.1:9477".to_string() };
    assert_eq!(pull.action(), "set_metrics_pull");
    assert_eq!(Mutation::RemoveOrgToken { org: "acme".to_string() }.action(), "remove_org_token");
}

#[test]
fn a_span_query_gets_a_larger_budget_than_an_instant_one() {
    let span = Request::Query(Query::Timeline(TimelineQuery {
        since_ts: 0,
        limit: 1,
        org: None,
        runner: None,
        samples: false,
    }));
    assert_eq!(read_timeout(&span), SCAN_TIMEOUT);
    assert!(SCAN_TIMEOUT > IO_TIMEOUT);
}

#[test]
fn the_handshake_and_instant_queries_stay_tight() {
    assert_eq!(read_timeout(&Request::Hello { client: VERSION }), IO_TIMEOUT);
    assert_eq!(read_timeout(&Request::Query(Query::FleetStatus)), IO_TIMEOUT);
    assert_eq!(read_timeout(&Request::Query(Query::RunnerStates)), IO_TIMEOUT);
    assert_eq!(
        read_timeout(&Request::Mutate(Mutation::RemoveOrgToken { org: "example".to_string() })),
        IO_TIMEOUT
    );
}

#[test]
fn the_scan_budget_is_sized_for_a_month_not_for_doctors_probe() {
    const MEASURED_PER_DAY_MS: u64 = 1200;
    let doctors_probe = MEASURED_PER_DAY_MS * 7;
    let a_month = MEASURED_PER_DAY_MS * 30;
    assert!(SCAN_TIMEOUT > doctors_probe);
    assert!(
        SCAN_TIMEOUT >= a_month,
        "sizing to the probe alone is how 750ms was chosen"
    );
}

#[test]
fn views_are_keyed_by_org_and_id() {
    let row = |org: &str, id, online| ApiRow {
        agent_id: id,
        org: org.to_string(),
        view: GhView::Fresh { state: ApiState { online, busy: false }, age_s: 0 },
    };
    let m = api_map(vec![row("a", 1, true), row("b", 1, false), row("a", 1, false)]);
    assert_eq!(m.len(), 2);
    let a = m.iter().find(|r| r.org == "a").unwrap();
    // The later row counts.
    assert_eq!(a.view.online(), Some(false));
    assert!(api_map(vec![]).is_empty());
}

#[test]
fn a_handshake_needs_the_very_version() {
    let hello = |server| Response::Hello { server, version: "1.2".to_string() };
    assert_eq!(shake(Ok(hello(VERSION))), Ok("1.2".to_string()));
    assert_eq!(shake(Ok(hello(1))), Err(ConnectErr::Version { server: 1 }));
    assert_eq!(
        shake(Ok(Response::VersionMismatch { server: 3 })),
        Err(ConnectErr::Version { server: 3 })
    );
    assert_eq!(
        shake(Ok(Response::Denied)),
        Err(ConnectErr::Io("unexpected handshake reply".to_string()))
    );
    assert_eq!(shake(Err("eof".to_string())), Err(ConnectErr::Io("eof".to_string())));
}

#[test]
fn a_failure_to_connect_is_told_by_its_kind() {
    assert_eq!(refused(SocketFailure::NotFound), ConnectErr::Unreachable);
    assert_eq!(refused(SocketFailure::ConnectionRefused), ConnectErr::Unreachable);
    assert_eq!(refused(SocketFailure::PermissionDenied), ConnectErr::Denied);
    assert_eq!(refused(SocketFailure::Other("x".to_string())), ConnectErr::Io("x".to_string()));
}

#[test]
fn the_most_specific_reason_wins() {
    let io = || ConnectErr::Io("timed out".to_string());
    assert_eq!(
        connect_any(ConnectErr::Unreachable, ConnectErr::Unreachable),
        EphemeralReason::NoCollector
    );
    assert_eq!(connect_any(ConnectErr::Denied, io()), EphemeralReason::Denied);
    assert_eq!(
        connect_any(ConnectErr::Version { server: 4 }, ConnectErr::Unreachable),
        EphemeralReason::VersionDrift { server: 4 }
    );
    let r = connect_any(io(), ConnectErr::Unreachable);
    assert_eq!(r.word(), "handshake-failed");
    assert_eq!(r.detail(), Some("timed out"));
    assert_eq!(EphemeralReason::QueryFailed.word(), "query-failed");
    assert_eq!(EphemeralReason::Denied.detail(), None);
    assert_eq!(weigh(EphemeralReason::NoCollector, ConnectErr::Denied).word(), "denied");
}

#[test]
fn an_empty_build_is_none() {
    assert_eq!(collector_version(""), None);
    assert_eq!(collector_version("0.2.1"), Some("0.2.1"));
}

#[test]
fn a_reason_is_copied_whole() {
    for reason in [
        EphemeralReason::NoCollector,
        EphemeralReason::VersionDrift { server: 4 },
        EphemeralReason::Denied,
        EphemeralReason::Unusable { detail: "broken pipe".to_string() },
        EphemeralReason::QueryFailed,
    ] {
        assert_eq!(reason.clone(), reason);
    }
}

#[test]
fn the_search_tries_the_system_first_and_ends_at_the_first_success() {
    assert_eq!(next_scope(None), Some(Scope::System));
    assert_eq!(next_scope(Some(Scope::System)), Some(Scope::User));
    assert_eq!(next_scope(Some(Scope::User)), None);

    let start = || Search::new();
    assert!(matches!(start(), Search::Trying { scope: Scope::System, .. }));
    let system = start().step(Ok("1".to_string()));
    let found = Search::Connected { scope: Scope::System, version: "1".to_string() };
    assert_eq!(system, found);
    // What ended stays ended.
    assert_eq!(system.step(Err(ConnectErr::Denied)), found);
    assert_eq!(
        start().step(Err(ConnectErr::Denied)).step(Ok("2".to_string())),
        Search::Connected { scope: Scope::User, version: "2".to_string() }
    );
    assert_eq!(
        start().step(Err(ConnectErr::Denied)).step(Err(ConnectErr::Unreachable)),
        Search::Ephemeral { reason: EphemeralReason::Denied }
    );
    assert_eq!(
        start().step(Err(ConnectErr::Unreachable)).step(Err(ConnectErr::Version { server: 4 })),
        Search::Ephemeral { reason: EphemeralReason::VersionDrift { server: 4 } }
    );
}
