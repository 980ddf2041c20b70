//! What a status and a push show of a snapshot, value by value.

use vstd::prelude::*;

use crate::config::PushConfig;
use crate::json::Json;
use crate::metrics::export::{is_on, listener_wanted, looked, push_every, Pusher};
use crate::metrics::laws::lasted;
use crate::metrics::records::{fleet_record, org_record, runner_record};
use crate::metrics::status::status_of;
use crate::metrics::{OrgRollup, RunnerMetric, Snapshot};
use crate::models::status::{FleetStatus, Mode, OrgStatus, RunnerStatus};
use crate::models::{ApiReconcileState, GhView, Liveness};
use crate::store::reader::laws::reports;
use crate::store::rows::first_where_is_least;
use crate::util::rfc3339;

verus! {

// ---------------------------------------------------------------------------
// Status
// ---------------------------------------------------------------------------

/// A status row shows a runner: what it is, how alive it is, what it uses, and what
/// GitHub says of it while that is fresh.
pub open spec fn status_shows(t: RunnerStatus, r: RunnerMetric) -> bool {
    &&& t.name@ == r.name@ && t.org@ == r.org@ && t.agent_id == r.agent_id
    &&& t.liveness == r.liveness
    &&& t.state_seconds == r.state_seconds
    &&& t.cpu_percent == r.cpu_pct
    &&& t.mem_bytes == r.mem_bytes
    &&& t.github_offline_seconds == r.gh_offline_seconds
    &&& match r.gh {
        GhView::Fresh { state, age_s } => {
            &&& t.github_online == Some(state.online)
            &&& t.github_busy == Some(state.busy)
            &&& t.github_sample_age_s == Some(age_s)
        },
        GhView::Stale { age_s } => {
            &&& t.github_online is None && t.github_busy is None
            &&& t.github_sample_age_s == Some(age_s)
        },
        GhView::Unknown => {
            t.github_online is None && t.github_busy is None && t.github_sample_age_s is None
        },
    }
    &&& match r.liveness {
        Liveness::Offline => t.divergent == Some(false),
        Liveness::Idle | Liveness::Busy => match r.gh {
            GhView::Fresh { state, .. } => t.divergent == Some(!state.online),
            GhView::Stale { .. } | GhView::Unknown => t.divergent is None,
        },
    }
}

/// A status row shows an org: its counts, how long ago it was last asked about with
/// success, and whether all that GitHub knows of it are online.
pub open spec fn status_shows_org(
    t: OrgStatus,
    o: OrgRollup,
    healths: Seq<ApiReconcileState>,
    now: i64,
) -> bool {
    &&& t.org@ == o.org@
    &&& t.runners == o.total
    &&& t.github_online == o.github_online
    &&& t.verdict is Unknown <==> o.github_known == 0
    &&& t.verdict is Degraded <==> 0 < o.github_known && o.github_online < o.github_known
    &&& t.verdict is Healthy <==> 0 < o.github_known <= o.github_online
    &&& forall|i: int|
        0 <= i < healths.len() && (#[trigger] healths[i]).org@ == o.org@ && (forall|j: int|
            0 <= j < i ==> (#[trigger] healths[j]).org@ != o.org@) ==> (match healths[i].last_ok_ts {
            Some(ts) => t.reconcile_age_s matches Some(a) && a == lasted(now, ts),
            None => t.reconcile_age_s is None,
        })
    &&& (forall|i: int| 0 <= i < healths.len() ==> (#[trigger] healths[i]).org@ != o.org@)
        ==> t.reconcile_age_s is None
}

/// A status shows its snapshot: every runner and every org, in their order, and the
/// counts. It knows nothing of a fleet without runners, and calls one with runners
/// healthy exactly where none is offline and none diverges.
pub proof fn a_status_shows_its_snapshot(t: FleetStatus, s: Snapshot, mode: Mode)
    requires
        status_of(t, s, mode),
    ensures
        t.schema_version == 1,
        t.generated_at_epoch == s.now && t.generated_at@ == rfc3339(s.now as int),
        t.mode == mode,
        t.verdict is Unknown <==> s.runners@.len() == 0,
        t.verdict is Degraded <==> s.runners@.len() > 0 && (s.divergent > 0 || s.offline > 0),
        t.verdict is Healthy <==> s.runners@.len() > 0 && s.divergent == 0 && s.offline == 0,
        reports(t.fleet.runners, s.runners@.len()),
        t.fleet.busy == s.busy && t.fleet.idle == s.idle && t.fleet.offline == s.offline,
        t.fleet.divergent == s.divergent,
        t.runners@.len() == s.runners@.len(),
        forall|i: int|
            0 <= i < t.runners@.len() ==> status_shows(#[trigger] t.runners@[i], s.runners@[i]),
        t.orgs@.len() == s.orgs@.len(),
        forall|k: int|
            0 <= k < t.orgs@.len() ==> status_shows_org(
                #[trigger] t.orgs@[k],
                s.orgs@[k],
                s.reconcile@,
                s.now,
            ),
{
    assert forall|k: int| 0 <= k < t.orgs@.len() implies status_shows_org(
        #[trigger] t.orgs@[k],
        s.orgs@[k],
        s.reconcile@,
        s.now,
    ) by {
        let o = s.orgs@[k];
        let rows = s.reconcile@;
        let p = |i: int| rows[i].org@ == o.org@;
        first_where_is_least(p, rows.len() as int);
        let m = crate::store::rows::first_where(p, rows.len() as int);
        if m < rows.len() {
            assert(p(m));
            assert(rows[m].org@ == o.org@);
        }
        assert forall|i: int|
            0 <= i < rows.len() && (#[trigger] rows[i]).org@ == o.org@ && (forall|j: int|
                0 <= j < i ==> (#[trigger] rows[j]).org@ != o.org@) implies i == m by {
            if i < m {
                assert(!p(i));
            } else if m < i {
                assert(rows[m].org@ != o.org@);
            }
        }
    }
}

// ---------------------------------------------------------------------------
// Records
// ---------------------------------------------------------------------------

/// A record has an entry.
pub open spec fn has_entry(j: Json, key: Seq<char>, v: Json) -> bool {
    j matches Json::Object(m) && m.dom().contains(key) && m[key] == v
}

/// 1 where it holds, 0 where it does not.
pub open spec fn one_if(b: bool) -> Json {
    if b {
        Json::Int(1)
    } else {
        Json::Int(0)
    }
}

/// A record shows a runner: who it is, how alive, and what it uses.
pub open spec fn record_shows(j: Json, now: i64, r: RunnerMetric) -> bool {
    &&& has_entry(j, "_timestamp"@, Json::Int(now * 1_000_000))
    &&& has_entry(j, "kind"@, Json::Text("runner"@))
    &&& has_entry(j, "agent_id"@, Json::Int(r.agent_id as int))
    &&& has_entry(j, "name"@, Json::Text(r.name@))
    &&& has_entry(j, "org"@, Json::Text(r.org@))
    &&& has_entry(
        j,
        "liveness"@,
        Json::Text(
            match r.liveness {
                Liveness::Idle => "idle"@,
                Liveness::Busy => "busy"@,
                Liveness::Offline => "offline"@,
            },
        ),
    )
    &&& has_entry(j, "up"@, one_if(r.liveness is Idle || r.liveness is Busy))
    &&& has_entry(j, "busy"@, one_if(r.liveness is Busy))
    &&& has_entry(
        j,
        "mem_bytes"@,
        match r.mem_bytes {
            Some(n) => Json::Int(n as int),
            None => Json::Null,
        },
    )
    &&& has_entry(
        j,
        "mem_current_bytes"@,
        match r.mem_current_bytes {
            Some(n) => Json::Int(n as int),
            None => Json::Null,
        },
    )
    &&& has_entry(
        j,
        "cpu_percent"@,
        match r.cpu_pct {
            Some(m) => crate::json::json_model(m.json),
            None => Json::Null,
        },
    )
    &&& has_entry(j, "state_seconds"@, Json::Int(r.state_seconds as int))
}

/// A record shows what GitHub says of a runner: its bits while they are fresh, the
/// age of what it said, and how long it has called the runner offline.
pub open spec fn record_shows_github(j: Json, r: RunnerMetric) -> bool {
    &&& match r.gh {
        GhView::Fresh { state, age_s } => {
            &&& has_entry(j, "github_online"@, Json::Bool(state.online))
            &&& has_entry(j, "github_busy"@, Json::Bool(state.busy))
            &&& has_entry(j, "github_sample_age_s"@, Json::Int(age_s as int))
        },
        GhView::Stale { age_s } => {
            &&& has_entry(j, "github_online"@, Json::Null)
            &&& has_entry(j, "github_busy"@, Json::Null)
            &&& has_entry(j, "github_sample_age_s"@, Json::Int(age_s as int))
        },
        GhView::Unknown => {
            &&& has_entry(j, "github_online"@, Json::Null)
            &&& has_entry(j, "github_busy"@, Json::Null)
            &&& has_entry(j, "github_sample_age_s"@, Json::Null)
        },
    }
    &&& has_entry(
        j,
        "github_offline_seconds"@,
        match r.gh_offline_seconds {
            Some(n) => Json::Int(n as int),
            None => Json::Null,
        },
    )
    &&& has_entry(
        j,
        "divergent"@,
        match (r.liveness, r.gh) {
            (Liveness::Offline, _) => Json::Bool(false),
            (_, GhView::Fresh { state, .. }) => Json::Bool(!state.online),
            (_, _) => Json::Null,
        },
    )
}

/// A record shows the fleet.
pub open spec fn record_shows_fleet(j: Json, s: Snapshot) -> bool {
    &&& has_entry(j, "_timestamp"@, Json::Int(s.now * 1_000_000))
    &&& has_entry(j, "kind"@, Json::Text("fleet"@))
    &&& has_entry(j, "version"@, Json::Text(s.version@))
    &&& has_entry(j, "runners"@, Json::Int(s.runners@.len() as int))
    &&& has_entry(j, "busy"@, Json::Int(s.busy as int))
    &&& has_entry(j, "idle"@, Json::Int(s.idle as int))
    &&& has_entry(j, "offline"@, Json::Int(s.offline as int))
    &&& has_entry(j, "divergent"@, Json::Int(s.divergent as int))
    &&& has_entry(j, "jobs_total"@, Json::Int(s.jobs_total as int))
    &&& has_entry(j, "jobs_running"@, Json::Int(s.jobs_running as int))
    &&& has_entry(
        j,
        "load1"@,
        match s.load1 {
            Some(m) => crate::json::json_model(m.json),
            None => Json::Null,
        },
    )
    &&& has_entry(
        j,
        "mem_used"@,
        match s.mem_used {
            Some(n) => Json::Int(n as int),
            None => Json::Null,
        },
    )
    &&& has_entry(
        j,
        "mem_total"@,
        match s.mem_total {
            Some(n) => Json::Int(n as int),
            None => Json::Null,
        },
    )
    &&& has_entry(
        j,
        "last_sample_ts"@,
        match s.last_sample_ts {
            Some(n) => Json::Int(n as int),
            None => Json::Null,
        },
    )
    &&& has_entry(
        j,
        "verdict"@,
        Json::Text(
            if s.runners@.len() == 0 {
                "unknown"@
            } else if s.divergent > 0 || s.offline > 0 {
                "degraded"@
            } else {
                "ok"@
            },
        ),
    )
}

/// A record shows an org.
pub open spec fn record_shows_org(j: Json, o: OrgRollup) -> bool {
    &&& has_entry(j, "org"@, Json::Text(o.org@))
    &&& has_entry(j, "runners"@, Json::Int(o.total as int))
    &&& has_entry(j, "github_online"@, Json::Int(o.github_online as int))
}

#[verifier::rlimit(100)]
proof fn a_runners_record(now: i64, r: RunnerMetric)
    ensures
        record_shows(runner_record(now, r), now, r),
        record_shows_github(runner_record(now, r), r),
{
    reveal_strlit("_timestamp");
    reveal_strlit("kind");
    reveal_strlit("agent_id");
    reveal_strlit("name");
    reveal_strlit("org");
    reveal_strlit("liveness");
    reveal_strlit("up");
    reveal_strlit("busy");
    reveal_strlit("cpu_percent");
    reveal_strlit("mem_bytes");
    reveal_strlit("mem_current_bytes");
    reveal_strlit("state_seconds");
    reveal_strlit("github_online");
    reveal_strlit("github_busy");
    reveal_strlit("github_sample_age_s");
    reveal_strlit("github_offline_seconds");
    reveal_strlit("divergent");
    assert("_timestamp"@.len() == 10 && "_timestamp"@[0] == '_' && "_timestamp"@[9] == 'p');
    assert("kind"@.len() == 4 && "kind"@[0] == 'k' && "kind"@[3] == 'd');
    assert("agent_id"@.len() == 8 && "agent_id"@[0] == 'a' && "agent_id"@[7] == 'd');
    assert("name"@.len() == 4 && "name"@[0] == 'n' && "name"@[3] == 'e');
    assert("org"@.len() == 3 && "org"@[0] == 'o' && "org"@[2] == 'g');
    assert("liveness"@.len() == 8 && "liveness"@[0] == 'l' && "liveness"@[7] == 's');
    assert("up"@.len() == 2 && "up"@[0] == 'u' && "up"@[1] == 'p');
    assert("busy"@.len() == 4 && "busy"@[0] == 'b' && "busy"@[3] == 'y');
    assert("cpu_percent"@.len() == 11 && "cpu_percent"@[0] == 'c' && "cpu_percent"@[10] == 't');
    assert("mem_bytes"@.len() == 9 && "mem_bytes"@[0] == 'm' && "mem_bytes"@[8] == 's');
    assert("mem_current_bytes"@.len() == 17 && "mem_current_bytes"@[0] == 'm' && "mem_current_bytes"@[16] == 's');
    assert("state_seconds"@.len() == 13 && "state_seconds"@[0] == 's' && "state_seconds"@[12] == 's');
    assert("github_online"@.len() == 13 && "github_online"@[0] == 'g' && "github_online"@[12] == 'e');
    assert("github_busy"@.len() == 11 && "github_busy"@[0] == 'g' && "github_busy"@[10] == 'y');
    assert("github_sample_age_s"@.len() == 19 && "github_sample_age_s"@[0] == 'g' && "github_sample_age_s"@[18] == 's');
    assert("github_offline_seconds"@.len() == 22 && "github_offline_seconds"@[0] == 'g' && "github_offline_seconds"@[21] == 's');
    assert("divergent"@.len() == 9 && "divergent"@[0] == 'd' && "divergent"@[8] == 't');
}

#[verifier::rlimit(100)]
proof fn the_fleets_record(s: Snapshot)
    ensures
        record_shows_fleet(fleet_record(s), s),
        fleet_record(s) matches Json::Object(m) && m.dom().contains("orgs"@) && m["orgs"@]
            == Json::List(s.orgs@.map_values(|o: OrgRollup| org_record(o))),
{
    reveal_strlit("_timestamp");
    reveal_strlit("kind");
    reveal_strlit("version");
    reveal_strlit("runners");
    reveal_strlit("busy");
    reveal_strlit("idle");
    reveal_strlit("offline");
    reveal_strlit("load1");
    reveal_strlit("mem_used");
    reveal_strlit("mem_total");
    reveal_strlit("jobs_total");
    reveal_strlit("jobs_running");
    reveal_strlit("last_sample_ts");
    reveal_strlit("divergent");
    reveal_strlit("verdict");
    reveal_strlit("orgs");
    assert("_timestamp"@.len() == 10 && "_timestamp"@[0] == '_' && "_timestamp"@[9] == 'p');
    assert("kind"@.len() == 4 && "kind"@[0] == 'k' && "kind"@[3] == 'd');
    assert("version"@.len() == 7 && "version"@[0] == 'v' && "version"@[6] == 'n');
    assert("runners"@.len() == 7 && "runners"@[0] == 'r' && "runners"@[6] == 's');
    assert("busy"@.len() == 4 && "busy"@[0] == 'b' && "busy"@[3] == 'y');
    assert("idle"@.len() == 4 && "idle"@[0] == 'i' && "idle"@[3] == 'e');
    assert("offline"@.len() == 7 && "offline"@[0] == 'o' && "offline"@[6] == 'e');
    assert("load1"@.len() == 5 && "load1"@[0] == 'l' && "load1"@[4] == '1');
    assert("mem_used"@.len() == 8 && "mem_used"@[0] == 'm' && "mem_used"@[7] == 'd');
    assert("mem_total"@.len() == 9 && "mem_total"@[0] == 'm' && "mem_total"@[8] == 'l');
    assert("jobs_total"@.len() == 10 && "jobs_total"@[0] == 'j' && "jobs_total"@[9] == 'l');
    assert("jobs_running"@.len() == 12 && "jobs_running"@[0] == 'j' && "jobs_running"@[11] == 'g');
    assert("last_sample_ts"@.len() == 14 && "last_sample_ts"@[0] == 'l' && "last_sample_ts"@[13] == 's');
    assert("divergent"@.len() == 9 && "divergent"@[0] == 'd' && "divergent"@[8] == 't');
    assert("verdict"@.len() == 7 && "verdict"@[0] == 'v' && "verdict"@[6] == 't');
    assert("orgs"@.len() == 4 && "orgs"@[0] == 'o' && "orgs"@[3] == 's');
}

proof fn an_orgs_record(o: OrgRollup)
    ensures
        record_shows_org(org_record(o), o),
{
    reveal_strlit("org");
    reveal_strlit("runners");
    reveal_strlit("github_online");
    assert("org"@.len() == 3 && "org"@[0] == 'o' && "org"@[2] == 'g');
    assert("runners"@.len() == 7 && "runners"@[0] == 'r' && "runners"@[6] == 's');
    assert("github_online"@.len() == 13 && "github_online"@[0] == 'g' && "github_online"@[12] == 'e');
}

/// The records of a push show the snapshot: the fleet first, with its orgs in their
/// order, then every runner in theirs.
pub proof fn the_records_show_the_snapshot(s: Snapshot)
    ensures
        ({
            &&& s.records() matches Json::List(all)
            &&& all.len() == 1 + s.runners@.len()
            &&& record_shows_fleet(all[0], s)
            &&& all[0] matches Json::Object(m)
            &&& m.dom().contains("orgs"@)
            &&& m["orgs"@] matches Json::List(orgs)
            &&& orgs.len() == s.orgs@.len()
            &&& forall|k: int|
                0 <= k < orgs.len() ==> record_shows_org(#[trigger] orgs[k], s.orgs@[k])
            &&& forall|i: int|
                0 <= i < s.runners@.len() ==> record_shows(all[i + 1], s.now, #[trigger] s.runners@[i])
                    && record_shows_github(all[i + 1], s.runners@[i])
        }),
{
    the_fleets_record(s);
    let all = seq![fleet_record(s)] + s.runners@.map_values(
        |r: RunnerMetric| runner_record(s.now, r),
    );
    assert(s.records() == Json::List(all));
    let orgs = s.orgs@.map_values(|o: OrgRollup| org_record(o));
    assert forall|k: int| 0 <= k < orgs.len() implies record_shows_org(
        #[trigger] orgs[k],
        s.orgs@[k],
    ) by {
        an_orgs_record(s.orgs@[k]);
    }
    assert forall|i: int| 0 <= i < s.runners@.len() implies record_shows(
        all[i + 1],
        s.now,
        #[trigger] s.runners@[i],
    ) && record_shows_github(all[i + 1], s.runners@[i]) by {
        a_runners_record(s.now, s.runners@[i]);
        assert(all[i + 1] == runner_record(s.now, s.runners@[i]));
    }
}

// ---------------------------------------------------------------------------
// Listening and pushing
// ---------------------------------------------------------------------------

/// A listener is left alone exactly where it is as it should be: bound to the
/// address that is asked for, or absent where none is.
pub proof fn a_settled_listener_is_kept(bound: Option<Seq<char>>, enabled: bool, addr: Seq<char>)
    ensures
        listener_wanted(bound, enabled, addr) is Keep <==> (if enabled {
            bound == Some(addr)
        } else {
            bound is None
        }),
        listener_wanted(bound, enabled, addr) is Listen ==> enabled,
        listener_wanted(bound, enabled, addr) is Close ==> !enabled && bound is Some,
{
}

/// Pushing is on where it is enabled and has somewhere to push to. Turned on, it is
/// due at once; while it stays on or off, when it is due does not move. Two pushes
/// are at least five seconds apart, and as far as is asked for beyond that.
pub proof fn pushing_waits_its_turn(p: Pusher, push: PushConfig, now: u64)
    ensures
        is_on(push) <==> push.enabled && push.endpoint@ != Seq::<char>::empty(),
        looked(p, is_on(push), now).active == is_on(push),
        is_on(push) && !p.active ==> looked(p, is_on(push), now).next == now,
        !is_on(push) || p.active ==> looked(p, is_on(push), now).next == p.next,
        push_every(push.interval_secs) >= 5,
        push.interval_secs >= 5 ==> push_every(push.interval_secs) == push.interval_secs,
        push.interval_secs < 5 ==> push_every(push.interval_secs) == 5,
{
    if push.endpoint@.len() == 0 {
        assert(push.endpoint@ =~= Seq::<char>::empty());
    }
}

} // verus!
