//! The dashboard's end of the socket: how long to wait for an answer, what a
//! failed connection means, and what is made of a reply.

use vstd::prelude::*;
use vstd::string::*;

use crate::ipc::{ApiRow, Mutation, Query, Request, Response, VERSION};
use crate::paths::Scope;
use crate::store::reader::github::{distinct_views, has_row};
use crate::text::{owned, same};

verus! {

/// Milliseconds to wait for what is answered from memory or by a keyed lookup.
pub const IO_TIMEOUT: u64 = 750;

/// Milliseconds to wait for an answer about a span of time, whose cost grows with
/// the span and with the database.
pub const SCAN_TIMEOUT: u64 = 60_000;

/// How long to wait for this request's answer, in milliseconds: only a query about
/// a span gets the larger budget.
pub fn read_timeout(req: &Request) -> (r: u64)
    ensures
        r == if *req matches Request::Query(Query::Timeline(_)) {
            SCAN_TIMEOUT
        } else {
            IO_TIMEOUT
        },
{
    match req {
        Request::Hello { .. } => IO_TIMEOUT,
        Request::Mutate(
            Mutation::SetMetricsPull { .. } | Mutation::AddOrgToken { .. }
            | Mutation::RemoveOrgToken { .. },
        ) => IO_TIMEOUT,
        Request::Query(Query::Timeline(_)) => SCAN_TIMEOUT,
        Request::Query(
            Query::HostSeries { .. } | Query::BusySeries { .. } | Query::RunnerHistory { .. }
            | Query::RecentJobs { .. } | Query::LatestJob { .. } | Query::LatestApiRunners
            | Query::FleetStatus | Query::Retention | Query::RunnerStates
            | Query::ConfiguredTokenOrgs,
        ) => IO_TIMEOUT,
    }
}

// ---------------------------------------------------------------------------
// GitHub's views by runner
// ---------------------------------------------------------------------------

/// The last of the first `n` rows of a runner; -1 where there is none.
pub open spec fn last_row(rows: Seq<ApiRow>, n: int, org: Seq<char>, id: i64) -> int
    decreases n,
{
    if n <= 0 {
        -1
    } else if rows[n - 1].org@ == org && rows[n - 1].agent_id == id {
        n - 1
    } else {
        last_row(rows, n - 1, org, id)
    }
}

/// Whether `r` holds one row for each runner of the first `n` rows, with the last
/// view of it.
pub open spec fn maps(r: Seq<ApiRow>, rows: Seq<ApiRow>, n: int) -> bool {
    &&& distinct_views(r)
    &&& forall|k: int|
        0 <= k < r.len() ==> {
            let at = last_row(rows, n, (#[trigger] r[k]).org@, r[k].agent_id);
            0 <= at && r[k].view == rows[at].view
        }
    &&& forall|i: int|
        0 <= i < n ==> has_row(r, (#[trigger] rows[i]).org@, rows[i].agent_id)
}

proof fn last_row_bound(rows: Seq<ApiRow>, n: int, org: Seq<char>, id: i64)
    requires
        0 <= n <= rows.len(),
    ensures
        -1 <= last_row(rows, n, org, id) < n,
    decreases n,
{
    if n > 0 {
        last_row_bound(rows, n - 1, org, id);
    }
}

/// The runners' views by org and id, which together are the key: an id is unique
/// only within its org. Where a runner comes twice, the later row counts.
pub fn api_map(rows: Vec<ApiRow>) -> (r: Vec<ApiRow>)
    ensures
        maps(r@, rows@, rows@.len() as int),
{
    let mut out: Vec<ApiRow> = Vec::new();
    let mut i: usize = 0;
    while i < rows.len()
        invariant
            i <= rows@.len(),
            maps(out@, rows@, i as int),
        decreases rows@.len() - i,
    {
        let ghost before = out@;
        let ghost key = rows@[i as int];
        let mut k: usize = 0;
        while k < out.len() && !(out[k].agent_id == rows[i].agent_id && same(
            out[k].org.as_str(),
            rows[i].org.as_str(),
        ))
            invariant
                k <= out@.len(),
                out@ == before,
                i < rows@.len(),
                key == rows@[i as int],
                forall|m: int|
                    0 <= m < k ==> (#[trigger] before[m]).org@ != key.org@ || before[m].agent_id
                        != key.agent_id,
            ensures
                k <= out@.len(),
                out@ == before,
                forall|m: int|
                    0 <= m < k ==> (#[trigger] before[m]).org@ != key.org@ || before[m].agent_id
                        != key.agent_id,
                k < out@.len() ==> before[k as int].org@ == key.org@ && before[k as int].agent_id
                    == key.agent_id,
            decreases out@.len() - k,
        {
            k = k + 1;
        }
        if k < out.len() {
            let row = ApiRow {
                agent_id: rows[i].agent_id,
                org: owned(rows[i].org.as_str()),
                view: rows[i].view,
            };
            out.set(k, row);
        } else {
            out.push(
                ApiRow {
                    agent_id: rows[i].agent_id,
                    org: owned(rows[i].org.as_str()),
                    view: rows[i].view,
                },
            );
        }
        proof {
            let now = out@;
            assert forall|m: int| 0 <= m < now.len() implies {
                let at = last_row(rows@, i + 1, (#[trigger] now[m]).org@, now[m].agent_id);
                0 <= at && now[m].view == rows@[at].view
            } by {
                if m != k {
                    assert(now[m] == before[m]);
                    if m > k {
                        assert(before[k as int].org@ != before[m].org@ || before[k as int].agent_id
                            != before[m].agent_id);
                    }
                    assert(before[m].org@ != key.org@ || before[m].agent_id != key.agent_id);
                }
            }
            assert forall|m: int| 0 <= m < i + 1 implies has_row(
                now,
                (#[trigger] rows@[m]).org@,
                rows@[m].agent_id,
            ) by {
                if m == i {
                    assert(now[k as int].org@ == key.org@);
                } else {
                    assert(has_row(before, rows@[m].org@, rows@[m].agent_id));
                    let w = choose|w: int|
                        0 <= w < before.len() && #[trigger] before[w].org@ == rows@[m].org@
                            && before[w].agent_id == rows@[m].agent_id;
                    assert(now[w].org@ == before[w].org@);
                }
            }
            assert(distinct_views(now)) by {
                assert forall|a: int, b: int| 0 <= a < b < now.len() implies #[trigger] now[a].org@
                    != #[trigger] now[b].org@ || now[a].agent_id != now[b].agent_id by {
                    if b < before.len() {
                        assert(before[a].org@ != before[b].org@ || before[a].agent_id
                            != before[b].agent_id);
                    }
                }
            }
        }
        i = i + 1;
    }
    out
}

// ---------------------------------------------------------------------------
// Connecting
// ---------------------------------------------------------------------------

/// Why the dashboard runs without a collector.
#[derive(Debug, PartialEq, Eq)]
pub enum EphemeralReason {
    /// No collector's socket was found.
    NoCollector,
    /// A collector runs, but speaks another version: nearly always a binary that
    /// was upgraded without restarting the service.
    VersionDrift { server: u16 },
    /// The socket is there, but may not be used.
    Denied,
    /// Something listens, but the handshake came to nothing; with the failure
    /// itself.
    Unusable { detail: String },
    /// The collector did not answer the query.
    QueryFailed,
}

impl Clone for EphemeralReason {
    fn clone(&self) -> (r: Self)
        ensures
            r == *self,
    {
        match self {
            EphemeralReason::NoCollector => EphemeralReason::NoCollector,
            EphemeralReason::VersionDrift { server } => EphemeralReason::VersionDrift {
                server: *server,
            },
            EphemeralReason::Denied => EphemeralReason::Denied,
            EphemeralReason::Unusable { detail } => EphemeralReason::Unusable {
                detail: detail.clone(),
            },
            EphemeralReason::QueryFailed => EphemeralReason::QueryFailed,
        }
    }
}

impl EphemeralReason {
    /// The stable token of a reason.
    pub open spec fn token(self) -> Seq<char> {
        match self {
            EphemeralReason::NoCollector => "no-collector"@,
            EphemeralReason::VersionDrift { .. } => "version-drift"@,
            EphemeralReason::Denied => "denied"@,
            EphemeralReason::Unusable { .. } => "handshake-failed"@,
            EphemeralReason::QueryFailed => "query-failed"@,
        }
    }

    /// A stable token, on which a caller can branch.
    pub fn word(&self) -> (r: &'static str)
        ensures
            r@ == self.token(),
    {
        match self {
            EphemeralReason::NoCollector => "no-collector",
            EphemeralReason::VersionDrift { .. } => "version-drift",
            EphemeralReason::Denied => "denied",
            EphemeralReason::Unusable { .. } => "handshake-failed",
            EphemeralReason::QueryFailed => "query-failed",
        }
    }

    /// The failure itself, where the token does not say all.
    pub fn detail(&self) -> (r: Option<&str>)
        ensures
            r is Some <==> *self is Unusable,
            r matches Some(d) ==> d@ == self->detail@,
    {
        match self {
            EphemeralReason::Unusable { detail } => Some(detail.as_str()),
            _ => None,
        }
    }
}

/// Why one attempt to connect came to nothing.
#[derive(Debug, PartialEq, Eq)]
pub enum ConnectErr {
    /// No socket, or a stale one that nobody listens on.
    Unreachable,
    /// The socket may not be used.
    Denied,
    /// The peer speaks another version.
    Version { server: u16 },
    /// Anything else.
    Io(String),
}

/// How connecting to a socket failed.
#[derive(Debug, PartialEq, Eq)]
pub enum SocketFailure {
    NotFound,
    ConnectionRefused,
    PermissionDenied,
    Other(String),
}

/// What a failure to connect means.
pub fn refused(failure: SocketFailure) -> (r: ConnectErr)
    ensures
        match failure {
            SocketFailure::NotFound | SocketFailure::ConnectionRefused => r is Unreachable,
            SocketFailure::PermissionDenied => r is Denied,
            SocketFailure::Other(e) => r == ConnectErr::Io(e),
        },
{
    match failure {
        SocketFailure::NotFound | SocketFailure::ConnectionRefused => ConnectErr::Unreachable,
        SocketFailure::PermissionDenied => ConnectErr::Denied,
        SocketFailure::Other(e) => ConnectErr::Io(e),
    }
}

/// What the reply to a handshake means: the collector's build where it speaks this
/// very version, else why it cannot be used.
pub fn shake(reply: Result<Response, String>) -> (r: Result<String, ConnectErr>)
    ensures
        match reply {
            Err(e) => r == Err::<String, ConnectErr>(ConnectErr::Io(e)),
            Ok(Response::Hello { server, version }) => if server == VERSION {
                r == Ok::<String, ConnectErr>(version)
            } else {
                r == Err::<String, ConnectErr>(ConnectErr::Version { server })
            },
            Ok(Response::VersionMismatch { server }) => r == Err::<String, ConnectErr>(
                ConnectErr::Version { server },
            ),
            Ok(_) => r matches Err(ConnectErr::Io(m)) && m@ == "unexpected handshake reply"@,
        },
{
    match reply {
        Err(e) => Err(ConnectErr::Io(e)),
        Ok(Response::Hello { server, version }) => if server == VERSION {
            Ok(version)
        } else {
            Err(ConnectErr::Version { server })
        },
        Ok(Response::VersionMismatch { server }) => Err(ConnectErr::Version { server }),
        Ok(_) => Err(ConnectErr::Io(owned("unexpected handshake reply"))),
    }
}

/// The reason after one more failed attempt. A refusal or another version is the
/// more specific, and says more than what was known; a broken handshake only says
/// more than nothing.
pub open spec fn weighed(reason: EphemeralReason, err: ConnectErr) -> EphemeralReason {
    match err {
        ConnectErr::Unreachable => reason,
        ConnectErr::Denied => EphemeralReason::Denied,
        ConnectErr::Version { server } => EphemeralReason::VersionDrift { server },
        ConnectErr::Io(e) => if reason is NoCollector {
            EphemeralReason::Unusable { detail: e }
        } else {
            reason
        },
    }
}

/// The reason after failed attempts.
pub open spec fn reason_for(errs: Seq<ConnectErr>) -> EphemeralReason
    decreases errs.len(),
{
    if errs.len() == 0 {
        EphemeralReason::NoCollector
    } else {
        weighed(reason_for(errs.drop_last()), errs.last())
    }
}

/// The reason after one more failed attempt.
pub fn weigh(reason: EphemeralReason, err: ConnectErr) -> (r: EphemeralReason)
    ensures
        r == weighed(reason, err),
{
    match err {
        ConnectErr::Unreachable => reason,
        ConnectErr::Denied => EphemeralReason::Denied,
        ConnectErr::Version { server } => EphemeralReason::VersionDrift { server },
        ConnectErr::Io(e) => match reason {
            EphemeralReason::NoCollector => EphemeralReason::Unusable { detail: e },
            other => other,
        },
    }
}

/// Why no collector could be used, after an attempt in each scope: the system's,
/// then the user's.
pub fn connect_any(system: ConnectErr, user: ConnectErr) -> (r: EphemeralReason)
    ensures
        r == reason_for(seq![system, user]),
{
    proof {
        let both = seq![system, user];
        assert(both.drop_last() =~= seq![system]);
        assert(seq![system].drop_last() =~= Seq::<ConnectErr>::empty());
        reveal_with_fuel(reason_for, 3);
    }
    let first = weigh(EphemeralReason::NoCollector, system);
    weigh(first, user)
}

/// The scope to try behind another: the system's comes first, then the user's own.
pub open spec fn scope_after(tried: Option<Scope>) -> Option<Scope> {
    match tried {
        None => Some(Scope::System),
        Some(Scope::System) => Some(Scope::User),
        Some(Scope::User) => None,
    }
}

/// The scope to try next.
pub fn next_scope(tried: Option<Scope>) -> (r: Option<Scope>)
    ensures
        r == scope_after(tried),
{
    match tried {
        None => Some(Scope::System),
        Some(Scope::System) => Some(Scope::User),
        Some(Scope::User) => None,
    }
}

/// How far the search for a collector has come.
#[derive(Debug, PartialEq, Eq)]
pub enum Search {
    /// This scope is to be tried; with the reason so far.
    Trying { scope: Scope, reason: EphemeralReason },
    /// The collector of this scope is used; with its build.
    Connected { scope: Scope, version: String },
    /// There is none to use, and why.
    Ephemeral { reason: EphemeralReason },
}

impl Search {
    /// The search after one more attempt: the first success ends it, a failure
    /// goes on to the next scope, and after the last one it is given up.
    pub open spec fn after(self, attempt: Result<String, ConnectErr>) -> Search {
        match self {
            Search::Trying { scope, reason } => match attempt {
                Ok(version) => Search::Connected { scope, version },
                Err(e) => match scope_after(Some(scope)) {
                    Some(next) => Search::Trying { scope: next, reason: weighed(reason, e) },
                    None => Search::Ephemeral { reason: weighed(reason, e) },
                },
            },
            done => done,
        }
    }

    /// The start of a search.
    pub fn new() -> (r: Search)
        ensures
            r == (Search::Trying { scope: Scope::System, reason: EphemeralReason::NoCollector }),
    {
        match next_scope(None) {
            Some(scope) => Search::Trying { scope, reason: EphemeralReason::NoCollector },
            None => Search::Ephemeral { reason: EphemeralReason::NoCollector },
        }
    }

    /// Go on with what came of an attempt. A search that has ended stays as it is.
    pub fn step(self, attempt: Result<String, ConnectErr>) -> (r: Search)
        ensures
            r == self.after(attempt),
    {
        match self {
            Search::Trying { scope, reason } => match attempt {
                Ok(version) => Search::Connected { scope, version },
                Err(e) => {
                    let reason = weigh(reason, e);
                    match next_scope(Some(scope)) {
                        Some(next) => Search::Trying { scope: next, reason },
                        None => Search::Ephemeral { reason },
                    }
                },
            },
            done => done,
        }
    }
}

/// The system's collector is used wherever it can be, whatever the user's own would
/// have said; the user's own where only that one can be; and where neither can, the
/// reason is that of both failures. No search takes a third attempt.
pub proof fn the_system_comes_first(
    start: Search,
    system: Result<String, ConnectErr>,
    user: Result<String, ConnectErr>,
)
    requires
        start == (Search::Trying { scope: Scope::System, reason: EphemeralReason::NoCollector }),
    ensures
        start.after(system).after(user) == match (system, user) {
            (Ok(version), _) => Search::Connected { scope: Scope::System, version },
            (Err(_), Ok(version)) => Search::Connected { scope: Scope::User, version },
            (Err(s), Err(u)) => Search::Ephemeral { reason: reason_for(seq![s, u]) },
        },
        system is Ok ==> start.after(system) == start.after(system).after(user),
        forall|more: Result<String, ConnectErr>| #[trigger]
            start.after(system).after(user).after(more) == start.after(system).after(user),
{
    if let (Err(s), Err(u)) = (system, user) {
        let both = seq![s, u];
        assert(both.drop_last() =~= seq![s]);
        assert(seq![s].drop_last() =~= Seq::<ConnectErr>::empty());
        reveal_with_fuel(reason_for, 3);
    }
}

/// A collector is called absent only where every attempt found nobody listening.
pub proof fn absent_means_unreachable(errs: Seq<ConnectErr>)
    ensures
        reason_for(errs) is NoCollector <==> forall|i: int|
            0 <= i < errs.len() ==> #[trigger] errs[i] is Unreachable,
    decreases errs.len(),
{
    if errs.len() > 0 {
        let init = errs.drop_last();
        absent_means_unreachable(init);
        if reason_for(errs) is NoCollector {
            assert forall|i: int| 0 <= i < errs.len() implies #[trigger] errs[i] is Unreachable by {
                if i < init.len() {
                    assert(init[i] is Unreachable);
                }
            }
        }
        if forall|i: int| 0 <= i < errs.len() ==> #[trigger] errs[i] is Unreachable {
            assert(errs[errs.len() - 1] is Unreachable);
            assert forall|i: int| 0 <= i < init.len() implies #[trigger] init[i] is Unreachable by {
                assert(errs[i] is Unreachable);
            }
        }
    }
}

/// A broken handshake never hides a refusal or another version.
pub proof fn specific_reasons_stay(errs: Seq<ConnectErr>, e: String)
    requires
        reason_for(errs) is Denied || reason_for(errs) is VersionDrift,
    ensures
        reason_for(errs.push(ConnectErr::Io(e))) == reason_for(errs),
        reason_for(errs.push(ConnectErr::Unreachable)) == reason_for(errs),
{
    assert(errs.push(ConnectErr::Io(e)).drop_last() =~= errs);
    assert(errs.push(ConnectErr::Unreachable).drop_last() =~= errs);
}

/// The collector's build, where it said.
pub fn collector_version(version: &str) -> (r: Option<&str>)
    ensures
        r is Some <==> version@.len() > 0,
        r matches Some(v) ==> v@ == version@,
{
    if crate::text::chars_of(version).len() > 0 {
        Some(version)
    } else {
        None
    }
}

/// Row `i` is the last that is said of its runner.
pub open spec fn said_last(rows: Seq<ApiRow>, i: int) -> bool {
    forall|j: int|
        i < j < rows.len() ==> !((#[trigger] rows[j]).org@ == rows[i].org@ && rows[j].agent_id
            == rows[i].agent_id)
}

/// What stands of a runner is the last that was said of it.
pub open spec fn stands_last(rows: Seq<ApiRow>, r: ApiRow) -> bool {
    exists|i: int|
        0 <= i < rows.len() && (#[trigger] rows[i]).org@ == r.org@ && rows[i].agent_id == r.agent_id
            && rows[i].view == r.view && said_last(rows, i)
}

proof fn last_row_is_last(rows: Seq<ApiRow>, n: int, org: Seq<char>, id: i64)
    requires
        0 <= n <= rows.len(),
    ensures
        ({
            let k = last_row(rows, n, org, id);
            &&& -1 <= k < n || n == 0 && k == -1
            &&& k >= 0 ==> rows[k].org@ == org && rows[k].agent_id == id
            &&& forall|j: int|
                k < j < n ==> !((#[trigger] rows[j]).org@ == org && rows[j].agent_id == id)
        }),
    decreases n,
{
    if n > 0 {
        last_row_is_last(rows, n - 1, org, id);
    }
}

/// A map of the rows has each runner once, with the last that was said of it, and
/// leaves no runner out.
pub proof fn a_map_keeps_the_last(r: Seq<ApiRow>, rows: Seq<ApiRow>)
    requires
        maps(r, rows, rows.len() as int),
    ensures
        forall|k: int| 0 <= k < r.len() ==> stands_last(rows, #[trigger] r[k]),
        forall|a: int, b: int|
            0 <= a < b < r.len() ==> (#[trigger] r[a]).org@ != (#[trigger] r[b]).org@
                || r[a].agent_id != r[b].agent_id,
        forall|i: int|
            0 <= i < rows.len() ==> has_row(r, (#[trigger] rows[i]).org@, rows[i].agent_id),
{
    assert forall|k: int| 0 <= k < r.len() implies stands_last(rows, #[trigger] r[k]) by {
        let n = rows.len() as int;
        last_row_is_last(rows, n, r[k].org@, r[k].agent_id);
        let i = last_row(rows, n, r[k].org@, r[k].agent_id);
        assert(rows[i].org@ == r[k].org@);
        assert(said_last(rows, i));
    }
}

/// What speaks against going on with the socket that was tried.
pub open spec fn speaks(e: ConnectErr) -> bool {
    e is Denied || e is Version
}

/// Why there is no collector: the last that refused, or spoke another version, says
/// it; where none did, the first that failed otherwise; and where none failed
/// otherwise, that none is there.
pub proof fn the_last_refusal_counts(errs: Seq<ConnectErr>)
    ensures
        forall|i: int|
            0 <= i < errs.len() && (#[trigger] errs[i]) is Denied && (forall|j: int|
                i < j < errs.len() ==> !speaks(#[trigger] errs[j])) ==> reason_for(errs) is Denied,
        forall|i: int|
            0 <= i < errs.len() && (#[trigger] errs[i]) is Version && (forall|j: int|
                i < j < errs.len() ==> !speaks(#[trigger] errs[j])) ==> reason_for(errs) == (
            EphemeralReason::VersionDrift { server: errs[i]->server }),
        forall|i: int|
            0 <= i < errs.len() && (#[trigger] errs[i]) is Io && (forall|j: int|
                0 <= j < errs.len() ==> !speaks(#[trigger] errs[j])) && (forall|j: int|
                0 <= j < i ==> (#[trigger] errs[j]) !is Io) ==> reason_for(errs) == (
            EphemeralReason::Unusable { detail: errs[i]->Io_0 }),
        (forall|j: int| 0 <= j < errs.len() ==> (#[trigger] errs[j]) is Unreachable) ==> reason_for(
            errs,
        ) is NoCollector,
    decreases errs.len(),
{
    if errs.len() > 0 {
        let init = errs.drop_last();
        let n = errs.len() - 1;
        let last = errs.last();
        assert(errs[n] == last);
        the_last_refusal_counts(init);
        absent_means_unreachable(init);
        assert forall|i: int| 0 <= i < n implies #[trigger] init[i] == errs[i] by {}
        assert forall|i: int|
            0 <= i < errs.len() && (#[trigger] errs[i]) is Denied && (forall|j: int|
                i < j < errs.len() ==> !speaks(#[trigger] errs[j])) implies reason_for(errs) is Denied by {
            if i < n {
                assert(init[i] == errs[i]);
                assert(!speaks(errs[n]));
                assert forall|j: int| i < j < init.len() implies !speaks(#[trigger] init[j]) by {
                    assert(!speaks(errs[j]));
                }
            }
        }
        assert forall|i: int|
            0 <= i < errs.len() && (#[trigger] errs[i]) is Version && (forall|j: int|
                i < j < errs.len() ==> !speaks(#[trigger] errs[j])) implies reason_for(errs) == (
        EphemeralReason::VersionDrift { server: errs[i]->server }) by {
            if i < n {
                assert(init[i] == errs[i]);
                assert(!speaks(errs[n]));
                assert forall|j: int| i < j < init.len() implies !speaks(#[trigger] init[j]) by {
                    assert(!speaks(errs[j]));
                }
            }
        }
        assert forall|i: int|
            0 <= i < errs.len() && (#[trigger] errs[i]) is Io && (forall|j: int|
                0 <= j < errs.len() ==> !speaks(#[trigger] errs[j])) && (forall|j: int|
                0 <= j < i ==> (#[trigger] errs[j]) !is Io) implies reason_for(errs) == (
        EphemeralReason::Unusable { detail: errs[i]->Io_0 }) by {
            assert(!speaks(errs[n]));
            assert forall|j: int| 0 <= j < init.len() implies !speaks(#[trigger] init[j]) by {
                assert(!speaks(errs[j]));
            }
            if i < n {
                assert(init[i] == errs[i]);
                assert forall|j: int| 0 <= j < i implies (#[trigger] init[j]) !is Io by {
                    assert(errs[j] !is Io);
                }
            } else {
                assert forall|j: int| 0 <= j < init.len() implies #[trigger] init[j] is Unreachable by {
                    assert(errs[j] !is Io);
                    assert(!speaks(errs[j]));
                }
            }
        }
        if forall|j: int| 0 <= j < errs.len() ==> (#[trigger] errs[j]) is Unreachable {
            assert(errs[n] is Unreachable);
            assert forall|j: int| 0 <= j < init.len() implies #[trigger] init[j] is Unreachable by {
                assert(errs[j] is Unreachable);
            }
        }
    }
}

/// Each reason has a word of its own.
pub proof fn reasons_have_their_words(r: EphemeralReason)
    ensures
        r is NoCollector ==> r.token() == "no-collector"@,
        r is VersionDrift ==> r.token() == "version-drift"@,
        r is Denied ==> r.token() == "denied"@,
        r is Unusable ==> r.token() == "handshake-failed"@,
        r is QueryFailed ==> r.token() == "query-failed"@,
{
}

} // verus!
