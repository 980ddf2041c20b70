//! What a request means: one request, one reply.
//!
//! Reads are answered from the tables, and the orgs with a token from the
//! configuration file. Writes edit that file, past one gate.

use vstd::prelude::*;
use vstd::string::*;

use crate::config::document::Toml;
use crate::config::persist::{
    document, edited, outcome, remove_org_token, set_metrics_pull, set_org_token, with_pull,
    with_token, without_org, without_token,
};
use crate::config::{peek, token_orgs};
use crate::error::{Error, Failure};
use crate::ipc::{Mutation, Query, Request, Response, VERSION};
use crate::metrics::status::status_of;
use crate::metrics::{gathered, Snapshot};
use crate::models::timeline::TimelineQuery;
use crate::models::Mode;
use crate::server::auth::{authorized, Auth};
use crate::store::reader::github::{latest_api_runners, lists_views};
use crate::store::reader::jobs::{latest_job, newest_jobs, of_runner, recent_jobs};
use crate::store::reader::occupancy::{busy_series, occupancy};
use crate::store::reader::timeline::edges::{change_rows, job_changes};
use crate::store::reader::timeline::{answers, timeline};
use crate::store::reader::{
    any_row, history, host_history, host_series, min_ts_where, retention, runner_history,
    runner_states,
};
use crate::store::tables::Db;
use crate::text::{given, lists, names, owned};

verus! {

/// The most rows that a read returns. Any local user can ask, so the bound is kept
/// here and not left to whoever asks.
pub const MAX_QUERY_LIMIT: usize = 10_000;

/// The most rows of each stream that a timeline returns: its rows are wide, and a
/// reply must fit a frame.
pub const MAX_TIMELINE_LIMIT: usize = 2_000;

/// A limit within a bound.
pub open spec fn at_most(limit: usize, bound: usize) -> usize {
    if limit <= bound {
        limit
    } else {
        bound
    }
}

/// A limit that a client asks for, within what a read returns.
pub fn clamped(limit: usize) -> (r: usize)
    ensures
        r == at_most(limit, MAX_QUERY_LIMIT),
{
    if limit <= MAX_QUERY_LIMIT {
        limit
    } else {
        MAX_QUERY_LIMIT
    }
}

/// Where a read gets its rows.
#[derive(Debug)]
pub enum Source {
    /// There is no database to read.
    Missing,
    /// The database could not be read.
    Failed(Error),
    /// The tables.
    Open(Db),
}

/// What was found of the configuration file.
#[derive(Debug)]
pub enum Found {
    Absent,
    Text(String),
    /// It could not be read, and why.
    Unreadable(String),
}

/// What is to be done about a request.
#[derive(Debug)]
pub enum Action {
    /// Send this.
    Reply(Response),
    /// Write this text to the configuration file; `written` says what to send then.
    Write(String),
}

/// What a request needs of the configuration file.
#[derive(Debug, Clone, Copy, PartialEq, Eq, Structural)]
pub enum Consult {
    Nothing,
    /// Its text.
    Read,
    /// Its text, with the file locked until the edit is written.
    Edit,
}

/// What a request needs of the configuration file.
pub open spec fn consults(req: Request, auth: Auth) -> Consult {
    match req {
        Request::Query(Query::ConfiguredTokenOrgs) => Consult::Read,
        Request::Mutate(_) if auth.may_change() => Consult::Edit,
        _ => Consult::Nothing,
    }
}

/// What a request needs of the configuration file. A write that is not authorized
/// does not even look at it.
pub fn consult(req: &Request, auth: Auth) -> (r: Consult)
    ensures
        r == consults(*req, auth),
{
    match req {
        Request::Query(Query::ConfiguredTokenOrgs) => Consult::Read,
        Request::Mutate(_) => if authorized(auth.uid, auth.in_admin_group) {
            Consult::Edit
        } else {
            Consult::Nothing
        },
        _ => Consult::Nothing,
    }
}

/// A timeline query within the bound.
pub open spec fn bounded(q: TimelineQuery) -> TimelineQuery {
    TimelineQuery { limit: at_most(q.limit, MAX_TIMELINE_LIMIT), ..q }
}

/// The orgs to which a configuration file gives a token of their own: none where
/// the file is missing or does not say.
pub open spec fn told_orgs(config: Found) -> Set<Seq<char>> {
    match config {
        Found::Text(t) => match peek(t@) {
            Some(p) => p.orgs,
            None => Set::empty(),
        },
        _ => Set::empty(),
    }
}

/// Whether a reply answers a query from the tables.
pub open spec fn answered(
    r: Response,
    q: Query,
    db: Db,
    now: i64,
    max_age: u64,
    version: Seq<char>,
) -> bool {
    match q {
        Query::HostSeries { limit } => r matches Response::HostSeries(v) && v@ == host_history(
            db.host_samples@,
            at_most(limit, MAX_QUERY_LIMIT) as nat,
        ),
        Query::BusySeries { limit } => r matches Response::BusySeries(v) && v@ == occupancy(
            db.runner_samples@,
            db.api_samples@,
            at_most(limit, MAX_QUERY_LIMIT) as nat,
            max_age,
        ),
        Query::RunnerHistory { dir, limit } => r matches Response::RunnerHistory(v) && v@
            == history(db.runner_samples@, dir@, at_most(limit, MAX_QUERY_LIMIT) as nat),
        Query::RecentJobs { limit } => r matches Response::RecentJobs(v) && v@ == newest_jobs(
            db.jobs@,
            any_row(),
            at_most(limit, MAX_QUERY_LIMIT) as nat,
        ),
        Query::LatestJob { runner_name } => {
            let jobs = newest_jobs(db.jobs@, of_runner(db.jobs@, runner_name@), 1);
            r matches Response::LatestJob(v) && v == if jobs.len() > 0 {
                Some(jobs[0])
            } else {
                None
            }
        },
        Query::LatestApiRunners => r matches Response::LatestApiRunners(v) && lists_views(
            v@,
            db.api_samples@,
            now,
            max_age,
        ),
        Query::FleetStatus => r matches Response::FleetStatus(s) && exists|snap: Snapshot| #[trigger]
            gathered(snap, db, now, version, max_age) && status_of(*s, snap, Mode::Persistent),
        Query::Retention => r matches Response::Retention { earliest_ts } && earliest_ts
            == min_ts_where(db.runner_samples@, any_row(), db.runner_samples@.len() as int),
        Query::Timeline(t) => r matches Response::Timeline(v) && answers(
            *v,
            db,
            bounded(t),
            now,
            max_age,
        ),
        Query::RunnerStates => r matches Response::RunnerStates(v) && v@ == db.runner_states@,
        Query::ConfiguredTokenOrgs => false,
    }
}

/// Whether a reply serves a query.
pub open spec fn served(
    r: Response,
    q: Query,
    source: Source,
    config: Found,
    now: i64,
    max_age: u64,
    version: Seq<char>,
) -> bool {
    if q is ConfiguredTokenOrgs {
        r matches Response::ConfiguredTokenOrgs(orgs) && lists(names(orgs@), told_orgs(config))
    } else {
        match source {
            Source::Missing => r matches Response::Error(m) && m@ == "db unavailable"@,
            Source::Failed(e) => r matches Response::Error(m) && m@ == e@.prefix + e@.message,
            Source::Open(db) => answered(r, q, db, now, max_age, version),
        }
    }
}

/// The orgs with a token of their own, by the file as it is now: never a token.
/// A file that is missing or malformed names none.
pub fn configured_token_orgs(config: &Found) -> (r: Vec<String>)
    ensures
        lists(names(r@), told_orgs(*config)),
{
    match config {
        Found::Text(t) => {
            let orgs = token_orgs(t.as_str());
            assert(names(orgs@).len() == orgs@.len());
            orgs
        },
        _ => {
            let none: Vec<String> = Vec::new();
            assert(names(none@).len() == 0);
            none
        },
    }
}

fn read_tables(q: &Query, db: &Db, now: i64, max_age: u64, version: &str) -> (r: Response)
    requires
        !(q is ConfiguredTokenOrgs),
    ensures
        answered(r, *q, *db, now, max_age, version@),
{
    match q {
        Query::HostSeries { limit } => Response::HostSeries(host_series(db, clamped(*limit))),
        Query::BusySeries { limit } => Response::BusySeries(
            busy_series(db, clamped(*limit), max_age),
        ),
        Query::RunnerHistory { dir, limit } => Response::RunnerHistory(
            runner_history(db, dir.as_str(), clamped(*limit)),
        ),
        Query::RecentJobs { limit } => Response::RecentJobs(recent_jobs(db, clamped(*limit))),
        Query::LatestJob { runner_name } => Response::LatestJob(
            latest_job(db, runner_name.as_str()),
        ),
        Query::LatestApiRunners => Response::LatestApiRunners(latest_api_runners(db, now, max_age)),
        Query::FleetStatus => {
            let snap = Snapshot::gather(db, now, version, max_age);
            let status = snap.to_status(Mode::Persistent);
            assert(gathered(snap, *db, now, version@, max_age));
            Response::FleetStatus(Box::new(status))
        },
        Query::Retention => Response::Retention { earliest_ts: retention(db) },
        Query::Timeline(t) => {
            let mut bound = t.clone();
            if bound.limit > MAX_TIMELINE_LIMIT {
                bound.limit = MAX_TIMELINE_LIMIT;
            }
            assert(bound == bounded(*t));
            Response::Timeline(Box::new(timeline(db, &bound, now, max_age)))
        },
        Query::RunnerStates => Response::RunnerStates(runner_states(db)),
        Query::ConfiguredTokenOrgs => Response::Error(String::new()),
    }
}

/// Answer a read. The orgs with a token come from the configuration file; all
/// else comes from the tables, and is an error where there are none.
pub fn serve_query(
    q: &Query,
    source: &Source,
    config: &Found,
    now: i64,
    max_age: u64,
    version: &str,
) -> (r: Response)
    ensures
        served(r, *q, *source, *config, now, max_age, version@),
{
    match q {
        Query::ConfiguredTokenOrgs => Response::ConfiguredTokenOrgs(configured_token_orgs(config)),
        _ => match source {
            Source::Missing => Response::Error(owned("db unavailable")),
            Source::Failed(e) => Response::Error(e.text()),
            Source::Open(db) => read_tables(q, db, now, max_age, version),
        },
    }
}

/// The text of the configuration file after a write, or what stands in its way.
pub open spec fn mutated(path: Seq<char>, text: Option<Seq<char>>, m: Mutation) -> Result<
    Seq<char>,
    Failure,
> {
    match m {
        Mutation::SetMetricsPull { enabled, addr } => edited(
            path,
            document(text),
            |d: Map<Seq<char>, Toml>| with_pull(d, enabled, addr@),
        ),
        Mutation::AddOrgToken { org, token } => edited(
            path,
            document(text),
            |d: Map<Seq<char>, Toml>| with_token(d, org@, token@),
        ),
        Mutation::RemoveOrgToken { org } => edited(
            path,
            document(text),
            |d: Map<Seq<char>, Toml>|
                Ok::<Map<Seq<char>, Toml>, Seq<char>>(without_org(without_token(d, org@), org@)),
        ),
    }
}

/// Whether an action carries out an authorized write: the new text is to be
/// written, or the error is sent.
pub open spec fn applies(a: Action, m: Mutation, path: Seq<char>, config: Found) -> bool {
    match config {
        Found::Unreadable(cause) => a matches Action::Reply(Response::Error(msg)) && msg@
            == "config: reading "@ + path + ": "@ + cause@,
        Found::Absent => carries(a, mutated(path, None, m)),
        Found::Text(t) => carries(a, mutated(path, Some(t@), m)),
    }
}

/// Whether an action carries an edit's outcome.
pub open spec fn carries(a: Action, after: Result<Seq<char>, Failure>) -> bool {
    match after {
        Ok(text) => a matches Action::Write(t) && t@ == text,
        Err(f) => a matches Action::Reply(Response::Error(msg)) && msg@ == f.prefix + f.message,
    }
}

fn edit(m: &Mutation, path: &str, text: Option<&str>) -> (r: Action)
    ensures
        carries(r, mutated(path@, given(text), *m)),
{
    let done = match m {
        Mutation::SetMetricsPull { enabled, addr } => set_metrics_pull(
            path,
            text,
            *enabled,
            addr.as_str(),
        ),
        Mutation::AddOrgToken { org, token } => set_org_token(
            path,
            text,
            org.as_str(),
            token.as_str(),
        ),
        Mutation::RemoveOrgToken { org } => remove_org_token(path, text, org.as_str()),
    };
    assert(outcome(done) == mutated(path@, given(text), *m));
    match done {
        Ok(t) => Action::Write(t),
        Err(e) => Action::Reply(Response::Error(e.text())),
    }
}

/// Apply an authorized write to the configuration file's text.
fn apply_mutation(m: &Mutation, path: &str, config: &Found) -> (r: Action)
    ensures
        applies(r, *m, path@, *config),
{
    match config {
        Found::Unreadable(cause) => {
            let mut msg = owned("config: reading ");
            msg.append(path);
            msg.append(": ");
            msg.append(cause.as_str());
            Action::Reply(Response::Error(msg))
        },
        Found::Absent => edit(m, path, None),
        Found::Text(t) => edit(m, path, Some(t.as_str())),
    }
}

/// What is sent once the new text was written, or could not be.
pub fn written(result: Result<(), Error>) -> (r: Response)
    ensures
        match result {
            Ok(_) => r is Mutated,
            Err(e) => r matches Response::Error(m) && m@ == e@.prefix + e@.message,
        },
{
    match result {
        Ok(_) => Response::Mutated,
        Err(e) => Response::Error(e.text()),
    }
}

/// Whether an action is the right one for a request.
pub open spec fn handled(
    a: Action,
    req: Request,
    source: Source,
    auth: Auth,
    path: Seq<char>,
    config: Found,
    now: i64,
    max_age: u64,
    version: Seq<char>,
) -> bool {
    match req {
        Request::Hello { .. } => a matches Action::Reply(Response::Hello { server, version: v })
            && server == VERSION && v@ == version,
        Request::Query(q) => a matches Action::Reply(r) && served(
            r,
            q,
            source,
            config,
            now,
            max_age,
            version,
        ),
        Request::Mutate(m) => if auth.may_change() {
            applies(a, m, path, config)
        } else {
            a matches Action::Reply(Response::Denied)
        },
    }
}

/// Decide what to do about a request. Reads need no authorization; a write is
/// reached only past the one gate here.
pub fn handle(
    req: &Request,
    source: &Source,
    auth: Auth,
    path: &str,
    config: &Found,
    now: i64,
    max_age: u64,
    version: &str,
) -> (r: Action)
    ensures
        handled(r, *req, *source, auth, path@, *config, now, max_age, version@),
{
    match req {
        Request::Hello { .. } => Action::Reply(
            Response::Hello { server: VERSION, version: owned(version) },
        ),
        Request::Query(q) => Action::Reply(serve_query(q, source, config, now, max_age, version)),
        Request::Mutate(m) => {
            if !authorized(auth.uid, auth.in_admin_group) {
                return Action::Reply(Response::Denied);
            }
            apply_mutation(m, path, config)
        },
    }
}

/// Every write, whichever it is, is refused to a peer that is not authorized, and
/// to no other: a refused one looks at no file and writes none.
pub proof fn every_write_is_gated(
    a: Action,
    m: Mutation,
    source: Source,
    auth: Auth,
    path: Seq<char>,
    config: Found,
    now: i64,
    max_age: u64,
    version: Seq<char>,
)
    requires
        handled(a, Request::Mutate(m), source, auth, path, config, now, max_age, version),
    ensures
        a == Action::Reply(Response::Denied) <==> !(auth.uid == 0 || auth.in_admin_group),
        a is Write ==> auth.uid == 0 || auth.in_admin_group,
        consults(Request::Mutate(m), auth) == if auth.uid == 0 || auth.in_admin_group {
            Consult::Edit
        } else {
            Consult::Nothing
        },
{
}

/// A read never leads to a write, whoever asks, and looks at the same things for
/// everyone.
pub proof fn reads_never_write(
    a: Action,
    q: Query,
    source: Source,
    auth: Auth,
    other: Auth,
    path: Seq<char>,
    config: Found,
    now: i64,
    max_age: u64,
    version: Seq<char>,
)
    requires
        handled(a, Request::Query(q), source, auth, path, config, now, max_age, version),
    ensures
        a is Reply,
        handled(a, Request::Query(q), source, other, path, config, now, max_age, version),
        consults(Request::Query(q), auth) == consults(Request::Query(q), other),
        consults(Request::Query(q), auth) != Consult::Edit,
{
}

/// No reply holds more rows than its bound, nor more than the client asks for.
pub proof fn replies_are_bounded(
    r: Response,
    q: Query,
    db: Db,
    now: i64,
    max_age: u64,
    version: Seq<char>,
)
    requires
        answered(r, q, db, now, max_age, version),
    ensures
        q matches Query::HostSeries { limit } ==> (r matches Response::HostSeries(v) && v@.len()
            <= limit && v@.len() <= MAX_QUERY_LIMIT),
        q matches Query::BusySeries { limit } ==> (r matches Response::BusySeries(v) && v@.len()
            <= limit && v@.len() <= MAX_QUERY_LIMIT),
        q matches Query::RunnerHistory { dir, limit } ==> (r matches Response::RunnerHistory(v)
            && v@.len() <= limit && v@.len() <= MAX_QUERY_LIMIT),
        q matches Query::RecentJobs { limit } ==> (r matches Response::RecentJobs(v) && v@.len()
            <= limit && v@.len() <= MAX_QUERY_LIMIT),
        q matches Query::Timeline(asked) ==> (r matches Response::Timeline(t) && {
            let most = at_most(asked.limit, MAX_TIMELINE_LIMIT);
            &&& most <= asked.limit && most <= MAX_TIMELINE_LIMIT
            &&& t.transitions.items@.len() <= most
            &&& t.jobs.items@.len() <= most
            &&& t.samples matches Some(s) ==> s.items@.len() <= most
        }),
{
    if let Response::Timeline(t) = r {
        assert(change_rows(t.transitions.items@).len() == t.transitions.items@.len());
        assert(job_changes(t.jobs.items@).len() == t.jobs.items@.len());
    }
}

} // verus!
