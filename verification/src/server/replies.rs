//! When two replies say the same, and that they do for every peer.

use vstd::prelude::*;

use crate::ipc::{ApiRow, Query, Request, Response};
use crate::metrics::status::{org_status, status_of};
use crate::metrics::{gathered, rollups, Snapshot};
use crate::models::timeline::Timeline;
use crate::models::{FleetStatus, GhView, Mode, OrgStatus, Verdict};
use crate::server::auth::Auth;
use crate::server::dispatch::{answered, handled, served, told_orgs, Action, Found, Source};
use crate::store::reader::github::{has_row, lists_views};
use crate::store::reader::timeline::edges::{change_rows, job_changes};
use crate::store::tables::{ApiSample, Db};
use crate::text::{listing_is_unique, names};

verus! {

/// GitHub's view of one runner, as a value.
pub struct RunnerView {
    pub agent_id: i64,
    pub org: Seq<char>,
    pub view: GhView,
}

/// GitHub's views as values.
pub open spec fn runner_views(v: Seq<ApiRow>) -> Seq<RunnerView> {
    v.map_values(|r: ApiRow| RunnerView { agent_id: r.agent_id, org: r.org@, view: r.view })
}

/// The status of one org, as a value.
pub struct OrgLine {
    pub org: Seq<char>,
    pub runners: u32,
    pub github_online: u32,
    pub reconcile_age_s: Option<i64>,
    pub verdict: Verdict,
}

/// The statuses of orgs as values.
pub open spec fn org_statuses(v: Seq<OrgStatus>) -> Seq<OrgLine> {
    v.map_values(
        |o: OrgStatus|
            OrgLine {
                org: o.org@,
                runners: o.runners,
                github_online: o.github_online,
                reconcile_age_s: o.reconcile_age_s,
                verdict: o.verdict,
            },
    )
}

/// Two statuses say the same.
pub open spec fn same_status(a: FleetStatus, b: FleetStatus) -> bool {
    &&& a.schema_version == b.schema_version
    &&& a.generated_at@ == b.generated_at@
    &&& a.generated_at_epoch == b.generated_at_epoch
    &&& a.mode == b.mode
    &&& a.verdict == b.verdict
    &&& a.fleet == b.fleet
    &&& org_statuses(a.orgs@) == org_statuses(b.orgs@)
    &&& a.runners@ == b.runners@
}

/// Two timelines say the same.
pub open spec fn same_timeline(a: Timeline, b: Timeline) -> bool {
    &&& a.schema_version == b.schema_version
    &&& a.generated_at@ == b.generated_at@
    &&& a.generated_at_epoch == b.generated_at_epoch
    &&& a.window.since@ == b.window.since@
    &&& a.window.since_epoch == b.window.since_epoch
    &&& a.window.until_epoch == b.window.until_epoch
    &&& a.window.truncated_at == b.window.truncated_at
    &&& change_rows(a.transitions.items@) == change_rows(b.transitions.items@)
    &&& a.transitions.limited == b.transitions.limited
    &&& job_changes(a.jobs.items@) == job_changes(b.jobs.items@)
    &&& a.jobs.limited == b.jobs.limited
    &&& (a.samples is Some) == (b.samples is Some)
    &&& a.samples is Some ==> a.samples->0.items@ == b.samples->0.items@ && a.samples->0.limited
        == b.samples->0.limited
}

/// Two replies say the same. GitHub's views come in no particular order, so they
/// count by what they hold.
pub open spec fn same_reply(a: Response, b: Response) -> bool {
    match a {
        Response::Hello { server, version } => b matches Response::Hello { server: s, version: v }
            && server == s && version@ == v@,
        Response::VersionMismatch { server } => b matches Response::VersionMismatch { server: s }
            && server == s,
        Response::HostSeries(v) => b matches Response::HostSeries(w) && v@ == w@,
        Response::BusySeries(v) => b matches Response::BusySeries(w) && v@ == w@,
        Response::RunnerHistory(v) => b matches Response::RunnerHistory(w) && v@ == w@,
        Response::RecentJobs(v) => b matches Response::RecentJobs(w) && v@ == w@,
        Response::LatestJob(v) => b matches Response::LatestJob(w) && v == w,
        Response::LatestApiRunners(v) => b matches Response::LatestApiRunners(w) && runner_views(
            v@,
        ).to_multiset() == runner_views(w@).to_multiset(),
        Response::FleetStatus(s) => b matches Response::FleetStatus(t) && same_status(*s, *t),
        Response::Retention { earliest_ts } => b matches Response::Retention { earliest_ts: e }
            && earliest_ts == e,
        Response::Timeline(s) => b matches Response::Timeline(t) && same_timeline(*s, *t),
        Response::RunnerStates(v) => b matches Response::RunnerStates(w) && v@ == w@,
        Response::ConfiguredTokenOrgs(v) => b matches Response::ConfiguredTokenOrgs(w) && names(v@)
            == names(w@),
        Response::Mutated => b is Mutated,
        Response::Denied => b is Denied,
        Response::Error(m) => b matches Response::Error(n) && m@ == n@,
    }
}

/// What one list of views holds, another of the same readings holds too.
proof fn views_are_shared(
    a: Seq<ApiRow>,
    b: Seq<ApiRow>,
    samples: Seq<ApiSample>,
    now: i64,
    max_age: u64,
    x: RunnerView,
)
    requires
        lists_views(a, samples, now, max_age),
        lists_views(b, samples, now, max_age),
        runner_views(a).contains(x),
    ensures
        runner_views(b).contains(x),
{
    let i = choose|i: int| 0 <= i < runner_views(a).len() && runner_views(a)[i] == x;
    assert(a[i].org@ == x.org && a[i].agent_id == x.agent_id && a[i].view == x.view);
    assert(has_row(a, x.org, x.agent_id));
    assert(has_row(b, x.org, x.agent_id));
    let j = choose|j: int|
        0 <= j < b.len() && #[trigger] b[j].org@ == x.org && b[j].agent_id == x.agent_id;
    assert(b[j].view == a[i].view);
    assert(runner_views(b)[j] == x);
}

proof fn views_are_distinct(a: Seq<ApiRow>, samples: Seq<ApiSample>, now: i64, max_age: u64)
    requires
        lists_views(a, samples, now, max_age),
    ensures
        runner_views(a).no_duplicates(),
{
    let v = runner_views(a);
    assert forall|i: int, j: int| 0 <= i < v.len() && 0 <= j < v.len() && i != j implies v[i]
        != v[j] by {
        if i < j {
            assert(a[i].org@ != a[j].org@ || a[i].agent_id != a[j].agent_id);
        } else {
            assert(a[j].org@ != a[i].org@ || a[j].agent_id != a[i].agent_id);
        }
    }
}

proof fn views_agree(
    a: Seq<ApiRow>,
    b: Seq<ApiRow>,
    samples: Seq<ApiSample>,
    now: i64,
    max_age: u64,
)
    requires
        lists_views(a, samples, now, max_age),
        lists_views(b, samples, now, max_age),
    ensures
        runner_views(a).to_multiset() == runner_views(b).to_multiset(),
{
    broadcast use vstd::seq_lib::group_to_multiset_ensures;

    let v = runner_views(a);
    let w = runner_views(b);
    views_are_distinct(a, samples, now, max_age);
    views_are_distinct(b, samples, now, max_age);
    v.lemma_multiset_has_no_duplicates();
    w.lemma_multiset_has_no_duplicates();
    assert forall|x: RunnerView| #[trigger] v.to_multiset().count(x) == w.to_multiset().count(x) by {
        if v.contains(x) {
            views_are_shared(a, b, samples, now, max_age, x);
            assert(v.to_multiset().contains(x) && w.to_multiset().contains(x));
        } else if w.contains(x) {
            views_are_shared(b, a, samples, now, max_age, x);
        }
    }
    assert(v.to_multiset() =~= w.to_multiset());
}

proof fn statuses_agree(
    a: FleetStatus,
    b: FleetStatus,
    s: Snapshot,
    t: Snapshot,
    db: Db,
    now: i64,
    max_age: u64,
    version: Seq<char>,
    mode: Mode,
)
    requires
        gathered(s, db, now, version, max_age),
        gathered(t, db, now, version, max_age),
        status_of(a, s, mode),
        status_of(b, t, mode),
    ensures
        same_status(a, b),
{
    assert(rollups(s.orgs@).len() == s.orgs@.len());
    assert(rollups(t.orgs@).len() == t.orgs@.len());
    assert forall|i: int| 0 <= i < a.orgs@.len() implies #[trigger] org_statuses(a.orgs@)[i]
        == org_statuses(b.orgs@)[i] by {
        assert(rollups(s.orgs@)[i] == s.orgs@[i]@);
        assert(rollups(t.orgs@)[i] == t.orgs@[i]@);
        assert(a.orgs@[i] == org_status(s, s.orgs@[i]));
        assert(b.orgs@[i] == org_status(t, t.orgs@[i]));
    }
    assert(org_statuses(a.orgs@) =~= org_statuses(b.orgs@));
}

proof fn tables_answer_alike(
    r: Response,
    o: Response,
    q: Query,
    db: Db,
    now: i64,
    max_age: u64,
    version: Seq<char>,
)
    requires
        answered(r, q, db, now, max_age, version),
        answered(o, q, db, now, max_age, version),
    ensures
        same_reply(r, o),
{
    match q {
        Query::LatestApiRunners => {
            let v = r->LatestApiRunners_0;
            let w = o->LatestApiRunners_0;
            views_agree(v@, w@, db.api_samples@, now, max_age);
        },
        Query::FleetStatus => {
            let a = *r->FleetStatus_0;
            let b = *o->FleetStatus_0;
            let s = choose|snap: Snapshot| #[trigger]
                gathered(snap, db, now, version, max_age) && status_of(a, snap, Mode::Persistent);
            let t = choose|snap: Snapshot| #[trigger]
                gathered(snap, db, now, version, max_age) && status_of(b, snap, Mode::Persistent);
            statuses_agree(a, b, s, t, db, now, max_age, version, Mode::Persistent);
        },
        _ => {},
    }
}

/// Replies to one query agree where the tables are the same and the configuration
/// files name the same orgs.
proof fn served_alike(
    r: Response,
    o: Response,
    q: Query,
    source: Source,
    config: Found,
    other: Found,
    now: i64,
    max_age: u64,
    version: Seq<char>,
)
    requires
        served(r, q, source, config, now, max_age, version),
        served(o, q, source, other, now, max_age, version),
        told_orgs(config) == told_orgs(other),
    ensures
        same_reply(r, o),
{
    if q is ConfiguredTokenOrgs {
        listing_is_unique(
            names(r->ConfiguredTokenOrgs_0@),
            names(o->ConfiguredTokenOrgs_0@),
            told_orgs(config),
        );
    } else if let Source::Open(db) = source {
        tables_answer_alike(r, o, q, db, now, max_age, version);
    }
}

/// A read is answered alike for every peer: whoever asks the same of the same
/// tables and the same configuration file at the same time is told the same.
pub proof fn every_peer_reads_the_same(
    a: Action,
    b: Action,
    q: Query,
    source: Source,
    auth: Auth,
    other: Auth,
    path: Seq<char>,
    config: Found,
    now: i64,
    max_age: u64,
    version: Seq<char>,
)
    requires
        handled(a, Request::Query(q), source, auth, path, config, now, max_age, version),
        handled(b, Request::Query(q), source, other, path, config, now, max_age, version),
    ensures
        a matches Action::Reply(r) && (b matches Action::Reply(o) && same_reply(r, o)),
{
    served_alike(a->Reply_0, b->Reply_0, q, source, config, config, now, max_age, version);
}

/// A read tells of the configuration file which orgs have a token, and nothing
/// more: files that agree in that, whatever their tokens, are answered alike.
pub proof fn reads_hide_the_tokens(
    a: Action,
    b: Action,
    q: Query,
    source: Source,
    auth: Auth,
    path: Seq<char>,
    config: Found,
    other: Found,
    now: i64,
    max_age: u64,
    version: Seq<char>,
)
    requires
        handled(a, Request::Query(q), source, auth, path, config, now, max_age, version),
        handled(b, Request::Query(q), source, auth, path, other, now, max_age, version),
        told_orgs(config) == told_orgs(other),
    ensures
        a matches Action::Reply(r) && (b matches Action::Reply(o) && same_reply(r, o)),
{
    served_alike(a->Reply_0, b->Reply_0, q, source, config, other, now, max_age, version);
}

} // verus!
