//! What each request is answered, value by value.

use vstd::prelude::*;

use crate::config::document::Toml;
use crate::config::peek;
use crate::config::persist::{document, edited, with_pull, with_token, without_org, without_token};
use crate::ipc::{Mutation, Query, Request, Response};
use crate::metrics::status::status_of;
use crate::metrics::{gathered, Snapshot};
use crate::models::status::Mode;
use crate::models::timeline::TimelineQuery;
use crate::server::auth::Auth;
use crate::server::dispatch::{
    answered, bounded, consults, handled, served, told_orgs, Action, Found,
    Source,
};
use crate::store::reader::any_row;
use crate::store::reader::github::lists_views;
use crate::store::reader::jobs::{newest_jobs, of_runner};
use crate::store::reader::occupancy::occupancy;
use crate::store::reader::timeline::answers;
use crate::store::reader::{history, host_history, min_ts_where};
use crate::store::tables::Db;
use crate::text::{lists, names};

verus! {

/// As much as is asked for, up to a bound.
pub open spec fn up_to(limit: usize, bound: nat) -> nat {
    if limit as nat > bound {
        bound
    } else {
        limit as nat
    }
}

/// Each question is answered from the table it is about, with as much as it asks
/// for, up to ten thousand points or two thousand entries of a timeline.
pub proof fn each_question_has_its_answer(
    r: Response,
    q: Query,
    db: Db,
    now: i64,
    max_age: u64,
    version: Seq<char>,
)
    requires
        answered(r, q, db, now, max_age, version),
    ensures
        match q {
            Query::HostSeries { limit } => r matches Response::HostSeries(v) && v@ == host_history(
                db.host_samples@,
                up_to(limit, 10_000),
            ),
            Query::BusySeries { limit } => r matches Response::BusySeries(v) && v@ == occupancy(
                db.runner_samples@,
                db.api_samples@,
                up_to(limit, 10_000),
                max_age,
            ),
            Query::RunnerHistory { dir, limit } => r matches Response::RunnerHistory(v) && v@
                == history(
                db.runner_samples@,
                dir@,
                up_to(limit, 10_000),
            ),
            Query::RecentJobs { limit } => r matches Response::RecentJobs(v) && v@ == newest_jobs(
                db.jobs@,
                any_row(),
                up_to(limit, 10_000),
            ),
            Query::LatestJob { runner_name } => {
                let jobs = newest_jobs(db.jobs@, of_runner(db.jobs@, runner_name@), 1);
                &&& r matches Response::LatestJob(v)
                &&& v is Some <==> jobs.len() > 0
                &&& v is Some ==> v->0 == jobs[0]
            },
            Query::LatestApiRunners => r matches Response::LatestApiRunners(v) && lists_views(
                v@,
                db.api_samples@,
                now,
                max_age,
            ),
            Query::FleetStatus => r matches Response::FleetStatus(s) && exists|snap: Snapshot| #[trigger]
                gathered(snap, db, now, version, max_age) && status_of(*s, snap, Mode::Persistent),
            Query::Retention => r matches Response::Retention { earliest_ts } && earliest_ts
                == min_ts_where(db.runner_samples@, any_row(), db.runner_samples@.len() as int),
            Query::Timeline(asked) => r matches Response::Timeline(v) && exists|t: TimelineQuery| #[trigger]
                answers(*v, db, t, now, max_age) && t.since_ts == asked.since_ts && t.org
                    == asked.org && t.runner == asked.runner && t.samples == asked.samples
                    && t.limit as nat == up_to(
                    asked.limit,
                    2_000,
                ),
            Query::RunnerStates => r matches Response::RunnerStates(v) && v@ == db.runner_states@,
            Query::ConfiguredTokenOrgs => false,
        },
{
    if let Query::Timeline(asked) = q {
        let t = bounded(asked);
        assert(r matches Response::Timeline(v) && answers(*v, db, t, now, max_age));
    }
}

/// The orgs with a token are told from the configuration, whether or not there is a
/// store; every other question needs the store, and says why it cannot be answered
/// where there is none.
pub proof fn questions_without_a_store_are_refused(
    r: Response,
    q: Query,
    source: Source,
    config: Found,
    now: i64,
    max_age: u64,
    version: Seq<char>,
)
    requires
        served(r, q, source, config, now, max_age, version),
    ensures
        q is ConfiguredTokenOrgs ==> (r matches Response::ConfiguredTokenOrgs(orgs) && match config {
            Found::Text(t) => match peek(t@) {
                Some(p) => lists(names(orgs@), p.orgs),
                None => orgs@.len() == 0,
            },
            _ => orgs@.len() == 0,
        }),
        q !is ConfiguredTokenOrgs && source is Missing ==> (r matches Response::Error(m) && m@
            == "db unavailable"@),
        q !is ConfiguredTokenOrgs ==> (source matches Source::Failed(e) ==> (r matches Response::Error(
            m,
        ) && m@ == e@.prefix + e@.message)),
        q !is ConfiguredTokenOrgs ==> (source matches Source::Open(db) ==> answered(
            r,
            q,
            db,
            now,
            max_age,
            version,
        )),
{
    if let Response::ConfiguredTokenOrgs(orgs) = r {
        if q is ConfiguredTokenOrgs && orgs@.len() > 0 {
            let x = names(orgs@)[0];
            assert(names(orgs@).contains(x));
            assert(told_orgs(config).contains(x));
        }
    }
}

/// A change that is allowed is made to the document that was found, and to no other
/// part of it: the address and the switch of the metrics, the token of an org, or
/// the org taken out with its token. A document that could not be read is left
/// alone, and why is said.
pub proof fn a_change_is_made_as_asked(
    a: Action,
    m: Mutation,
    source: Source,
    auth: Auth,
    path: Seq<char>,
    config: Found,
    now: i64,
    max_age: u64,
    version: Seq<char>,
)
    requires
        handled(a, Request::Mutate(m), source, auth, path, config, now, max_age, version),
        auth.uid == 0 || auth.in_admin_group,
    ensures
        config matches Found::Unreadable(cause) ==> (a matches Action::Reply(Response::Error(msg))
            && msg@ == "config: reading "@ + path + ": "@ + cause@),
        config !is Unreadable ==> {
            let text = if let Found::Text(t) = config {
                Some(t@)
            } else {
                None
            };
            let after = match m {
                Mutation::SetMetricsPull { enabled, addr } => edited(
                    path,
                    document(text),
                    |d: Map<Seq<char>, Toml>| with_pull(d, enabled, addr@),
                ),
                Mutation::AddOrgToken { org, token } => edited(
                    path,
                    document(text),
                    |d: Map<Seq<char>, Toml>| with_token(d, org@, token@),
                ),
                Mutation::RemoveOrgToken { org } => edited(
                    path,
                    document(text),
                    |d: Map<Seq<char>, Toml>|
                        Ok::<Map<Seq<char>, Toml>, Seq<char>>(
                            without_org(without_token(d, org@), org@),
                        ),
                ),
            };
            &&& after matches Ok(new) ==> (a matches Action::Write(t) && t@ == new)
            &&& after matches Err(f) ==> (a matches Action::Reply(Response::Error(msg)) && msg@
                == f.prefix + f.message)
        },
{
}

/// A greeting is answered with what speaks here, whoever greets.
pub proof fn a_greeting_is_answered(
    a: Action,
    req: Request,
    source: Source,
    auth: Auth,
    path: Seq<char>,
    config: Found,
    now: i64,
    max_age: u64,
    version: Seq<char>,
)
    requires
        handled(a, req, source, auth, path, config, now, max_age, version),
        req is Hello,
    ensures
        a matches Action::Reply(Response::Hello { server, version: v }) && server
            == crate::ipc::VERSION && v@ == version,
        consults(req, auth) is Nothing,
{
}

/// The configuration is looked at for two things only: to tell which orgs have a
/// token, and to be changed by who may.
pub proof fn the_configuration_is_consulted_when_needed(req: Request, auth: Auth)
    ensures
        consults(req, auth) is Read <==> (req matches Request::Query(q) && q is ConfiguredTokenOrgs),
        consults(req, auth) is Edit <==> req is Mutate && (auth.uid == 0 || auth.in_admin_group),
{
}

} // verus!
