//! What GitHub said, and how well it could be asked.

use vstd::prelude::*;
use vstd::string::*;

use crate::models::copy_text;
use crate::text::{dec, dec_u64, owned};

verus! {

/// A runner's state as GitHub reports it.
#[derive(Debug, PartialEq, Eq)]
pub struct ApiRunnerRow {
    pub agent_id: i64,
    pub org: String,
    pub name: String,
    pub online: bool,
    pub busy: bool,
}

impl Clone for ApiRunnerRow {
    fn clone(&self) -> (r: Self)
        ensures
            r == *self,
    {
        ApiRunnerRow {
            agent_id: self.agent_id,
            org: self.org.clone(),
            name: self.name.clone(),
            online: self.online,
            busy: self.busy,
        }
    }
}

/// Why asking GitHub about an org produced no data. The one taxonomy: label,
/// hint and status derive from it.
#[derive(Debug, Clone, Copy, PartialEq, Eq, Structural)]
pub enum ApiErrorKind {
    /// 401: the token is invalid or expired.
    Unauthorized,
    /// 403: the token lacks the permission, or org approval is pending.
    Forbidden,
    /// 404: org not found, or invisible to this token.
    NotFound,
    /// Any other HTTP status.
    Http(u16),
    /// Never reached GitHub.
    Transport,
    /// A response arrived but did not decode.
    Decode,
}

impl ApiErrorKind {
    /// The kind of failure that an HTTP status stands for.
    pub open spec fn of_status(code: u16) -> ApiErrorKind {
        if code == 401 {
            ApiErrorKind::Unauthorized
        } else if code == 403 {
            ApiErrorKind::Forbidden
        } else if code == 404 {
            ApiErrorKind::NotFound
        } else {
            ApiErrorKind::Http(code)
        }
    }

    /// The HTTP status of a failure that had one.
    pub open spec fn status(self) -> Option<u16> {
        match self {
            ApiErrorKind::Unauthorized => Some(401),
            ApiErrorKind::Forbidden => Some(403),
            ApiErrorKind::NotFound => Some(404),
            ApiErrorKind::Http(code) => Some(code),
            ApiErrorKind::Transport | ApiErrorKind::Decode => None,
        }
    }

    /// The label of a failure.
    pub open spec fn label_text(self) -> Seq<char> {
        match self {
            ApiErrorKind::Unauthorized => "http_401"@,
            ApiErrorKind::Forbidden => "http_403"@,
            ApiErrorKind::NotFound => "http_404"@,
            ApiErrorKind::Http(code) => "http_"@ + dec(code as int),
            ApiErrorKind::Transport => "transport"@,
            ApiErrorKind::Decode => "decode"@,
        }
    }

    /// What an operator can do about a failure.
    pub open spec fn hint_text(self) -> Seq<char> {
        match self {
            ApiErrorKind::Unauthorized => "token is invalid or expired"@,
            ApiErrorKind::Forbidden => "token lacks 'Self-hosted runners: read', or org approval is pending"@,
            ApiErrorKind::NotFound => "org not found, or this token cannot see it (wrong resource owner?)"@,
            ApiErrorKind::Http(_) => "unexpected status"@,
            ApiErrorKind::Transport => "could not reach GitHub"@,
            ApiErrorKind::Decode => "response did not decode"@,
        }
    }

    pub fn from_status(code: u16) -> (r: Self)
        ensures
            r == ApiErrorKind::of_status(code),
    {
        match code {
            401 => ApiErrorKind::Unauthorized,
            403 => ApiErrorKind::Forbidden,
            404 => ApiErrorKind::NotFound,
            other => ApiErrorKind::Http(other),
        }
    }

    /// Low-cardinality label, for the metric's `kind` dimension and the store.
    pub fn label(&self) -> (r: String)
        ensures
            r@ == self.label_text(),
    {
        match self {
            ApiErrorKind::Unauthorized => owned("http_401"),
            ApiErrorKind::Forbidden => owned("http_403"),
            ApiErrorKind::NotFound => owned("http_404"),
            ApiErrorKind::Http(code) => {
                let mut s = owned("http_");
                s.append(dec_u64(*code as u64).as_str());
                s
            },
            ApiErrorKind::Transport => owned("transport"),
            ApiErrorKind::Decode => owned("decode"),
        }
    }

    /// The actionable explanation.
    pub fn hint(&self) -> (r: &'static str)
        ensures
            r@ == self.hint_text(),
    {
        match self {
            ApiErrorKind::Unauthorized => "token is invalid or expired",
            ApiErrorKind::Forbidden => "token lacks 'Self-hosted runners: read', or org approval is pending",
            ApiErrorKind::NotFound => "org not found, or this token cannot see it (wrong resource owner?)",
            ApiErrorKind::Http(_) => "unexpected status",
            ApiErrorKind::Transport => "could not reach GitHub",
            ApiErrorKind::Decode => "response did not decode",
        }
    }

    /// The HTTP status, when the failure had one.
    pub fn http_status(&self) -> (r: Option<u16>)
        ensures
            r == self.status(),
    {
        match self {
            ApiErrorKind::Unauthorized => Some(401),
            ApiErrorKind::Forbidden => Some(403),
            ApiErrorKind::NotFound => Some(404),
            ApiErrorKind::Http(code) => Some(*code),
            ApiErrorKind::Transport | ApiErrorKind::Decode => None,
        }
    }

    /// A status survives its classification, and the label names it: a metric
    /// and a stored row cannot describe one failure differently.
    pub proof fn status_round_trips(code: u16)
        ensures
            ApiErrorKind::of_status(code).status() == Some(code),
            ApiErrorKind::of_status(code).label_text() == "http_"@ + dec(code as int),
    {
        reveal_strlit("http_");
        reveal_strlit("http_401");
        reveal_strlit("http_403");
        reveal_strlit("http_404");
        reveal_with_fuel(crate::text::dec_nat, 4);
        assert(dec(401) =~= seq!['4', '0', '1']);
        assert(dec(403) =~= seq!['4', '0', '3']);
        assert(dec(404) =~= seq!['4', '0', '4']);
        assert("http_401"@ =~= "http_"@ + dec(401));
        assert("http_403"@ =~= "http_"@ + dec(403));
        assert("http_404"@ =~= "http_"@ + dec(404));
    }
}

/// One org's outcome for one tick. Runner rows exist only in the success arm, so
/// a failed fetch cannot move an edge. `Unconfigured` is not a failure.
#[derive(Debug, Clone, PartialEq, Eq)]
pub enum ApiOrgOutcome {
    Fetched { org: String, rows: Vec<ApiRunnerRow> },
    Failed { org: String, kind: ApiErrorKind },
    Unconfigured { org: String },
}

impl ApiOrgOutcome {
    /// The org that an outcome is about.
    pub open spec fn org_name(self) -> String {
        match self {
            ApiOrgOutcome::Fetched { org, .. } => org,
            ApiOrgOutcome::Failed { org, .. } => org,
            ApiOrgOutcome::Unconfigured { org } => org,
        }
    }

    /// The rows that an outcome brought: none where the fetch did not succeed.
    pub open spec fn rows_seq(self) -> Seq<ApiRunnerRow> {
        match self {
            ApiOrgOutcome::Fetched { rows, .. } => rows@,
            _ => seq![],
        }
    }

    /// The failure of an outcome.
    pub open spec fn failure(self) -> Option<ApiErrorKind> {
        match self {
            ApiOrgOutcome::Failed { kind, .. } => Some(kind),
            _ => None,
        }
    }

    pub fn org(&self) -> (r: &str)
        ensures
            r@ == self.org_name()@,
    {
        match self {
            ApiOrgOutcome::Fetched { org, .. } => org.as_str(),
            ApiOrgOutcome::Failed { org, .. } => org.as_str(),
            ApiOrgOutcome::Unconfigured { org } => org.as_str(),
        }
    }

    /// An owned copy of the org's name.
    pub fn org_owned(&self) -> (r: String)
        ensures
            r == self.org_name(),
    {
        match self {
            ApiOrgOutcome::Fetched { org, .. } => org.clone(),
            ApiOrgOutcome::Failed { org, .. } => org.clone(),
            ApiOrgOutcome::Unconfigured { org } => org.clone(),
        }
    }
}

/// GitHub's view of one runner, from one reading.
#[derive(Debug, Clone, Copy, PartialEq, Eq, Structural)]
pub struct ApiState {
    pub online: bool,
    pub busy: bool,
}

/// GitHub's view of one runner, its freshness adjudicated. `Stale` (we knew, and
/// the data has aged out) and `Unknown` (we never knew) stay apart.
#[derive(Debug, Clone, Copy, PartialEq, Eq, Structural)]
pub enum GhView {
    /// Within the freshness window.
    Fresh { state: ApiState, age_s: i64 },
    /// There is a reading, older than the window allows.
    Stale { age_s: i64 },
    /// No reading at all.
    Unknown,
}

impl GhView {
    /// The verdict on a reading of age `age_s`: fresh up to and including
    /// `max_age`, stale beyond it. A reading from the future has age 0.
    pub open spec fn adjudged(state: ApiState, age_s: i64, max_age: u64) -> GhView {
        let age = if age_s < 0 {
            0i64
        } else {
            age_s
        };
        if age <= max_age {
            GhView::Fresh { state, age_s: age }
        } else {
            GhView::Stale { age_s: age }
        }
    }

    /// The online bit of a fresh reading.
    pub open spec fn online_view(self) -> Option<bool> {
        match self {
            GhView::Fresh { state, .. } => Some(state.online),
            _ => None,
        }
    }

    /// The busy bit of a fresh reading.
    pub open spec fn busy_view(self) -> Option<bool> {
        match self {
            GhView::Fresh { state, .. } => Some(state.busy),
            _ => None,
        }
    }

    /// The age of the reading, fresh or stale.
    pub open spec fn age_view(self) -> Option<i64> {
        match self {
            GhView::Fresh { age_s, .. } => Some(age_s),
            GhView::Stale { age_s } => Some(age_s),
            GhView::Unknown => None,
        }
    }

    /// Adjudicate one reading against the freshness window: the single place
    /// where the call is made. The age is compared as an unsigned number, so no
    /// window, however wide, turns a reading stale by wrapping.
    pub fn observed(state: ApiState, age_s: i64, max_age: u64) -> (r: GhView)
        ensures
            r == GhView::adjudged(state, age_s, max_age),
    {
        let age: i64 = if age_s < 0 {
            0
        } else {
            age_s
        };
        if age as u64 <= max_age {
            GhView::Fresh { state, age_s: age }
        } else {
            GhView::Stale { age_s: age }
        }
    }

    /// GitHub's online bit, only when it is trustworthy.
    pub fn online(&self) -> (r: Option<bool>)
        ensures
            r == self.online_view(),
    {
        match self {
            GhView::Fresh { state, .. } => Some(state.online),
            GhView::Stale { .. } | GhView::Unknown => None,
        }
    }

    /// GitHub's busy bit, on the same terms.
    pub fn busy(&self) -> (r: Option<bool>)
        ensures
            r == self.busy_view(),
    {
        match self {
            GhView::Fresh { state, .. } => Some(state.busy),
            GhView::Stale { .. } | GhView::Unknown => None,
        }
    }

    /// Age of the underlying reading, fresh or stale.
    pub fn age_s(&self) -> (r: Option<i64>)
        ensures
            r == self.age_view(),
    {
        match self {
            GhView::Fresh { age_s, .. } => Some(*age_s),
            GhView::Stale { age_s } => Some(*age_s),
            GhView::Unknown => None,
        }
    }

    /// A wider window never makes a reading stale that a narrower one calls
    /// fresh, and the widest window makes none stale.
    pub proof fn wider_window_keeps_fresh(state: ApiState, age_s: i64, narrow: u64, wide: u64)
        requires
            narrow <= wide,
        ensures
            GhView::adjudged(state, age_s, narrow) is Fresh ==> GhView::adjudged(state, age_s, wide)
                is Fresh,
            GhView::adjudged(state, age_s, u64::MAX) is Fresh,
    {
    }

    /// A reading that is not fresh gives no online and no busy bit: not knowing
    /// is never presented as offline.
    pub proof fn aged_readings_are_silent(state: ApiState, age_s: i64, max_age: u64)
        ensures
            age_s > max_age ==> GhView::adjudged(state, age_s, max_age).online_view() is None,
            age_s > max_age ==> GhView::adjudged(state, age_s, max_age).busy_view() is None,
            age_s <= max_age ==> GhView::adjudged(state, age_s, max_age).online_view() == Some(
                state.online,
            ),
            GhView::adjudged(state, age_s, max_age).age_view() is Some,
    {
    }
}

/// GitHub-side liveness edge of one runner, keyed by `(org, agent_id)`.
/// `since_ts` is the last time `online` changed.
#[derive(Debug, PartialEq, Eq)]
pub struct ApiRunnerState {
    pub org: String,
    pub agent_id: i64,
    pub online: bool,
    pub since_ts: i64,
    pub last_seen_ts: i64,
}

impl Clone for ApiRunnerState {
    fn clone(&self) -> (r: Self)
        ensures
            r == *self,
    {
        ApiRunnerState {
            org: self.org.clone(),
            agent_id: self.agent_id,
            online: self.online,
            since_ts: self.since_ts,
            last_seen_ts: self.last_seen_ts,
        }
    }
}

/// Current health of one org's reconcile.
#[derive(Debug, PartialEq, Eq)]
pub struct ApiReconcileState {
    pub org: String,
    /// Last tick that succeeded. `None` if this org has never succeeded.
    pub last_ok_ts: Option<i64>,
    pub last_try_ts: i64,
    /// Outcome of the most recent attempt.
    pub ok: bool,
    pub http_status: Option<u16>,
    /// Label of the last failure, if any.
    pub error_kind: Option<String>,
    /// Whether a token is configured for this org at all.
    pub configured: bool,
}

impl Clone for ApiReconcileState {
    fn clone(&self) -> (r: Self)
        ensures
            r == *self,
    {
        ApiReconcileState {
            org: self.org.clone(),
            last_ok_ts: self.last_ok_ts,
            last_try_ts: self.last_try_ts,
            ok: self.ok,
            http_status: self.http_status,
            error_kind: copy_text(&self.error_kind),
            configured: self.configured,
        }
    }
}

/// GitHub's count for one occupancy tick, with the population it speaks for.
#[derive(Debug, Clone, Copy, PartialEq, Eq)]
pub struct GhCount {
    /// Runners GitHub considered online, out of `known`.
    pub online: u32,
    /// Runners at this tick with a reading fresh enough to count.
    pub known: u32,
}

impl GhCount {
    /// A tick's count: none where nothing at the tick had a fresh reading.
    pub open spec fn counted(online: u32, known: u32) -> Option<GhCount> {
        if known > 0 {
            Some(GhCount { online, known })
        } else {
            None
        }
    }

    /// A tick's count, or `None` when nothing had a fresh reading: nobody asked
    /// is a gap, not a zero.
    pub fn new(online: u32, known: u32) -> (r: Option<Self>)
        ensures
            r == GhCount::counted(online, known),
    {
        if known > 0 {
            Some(GhCount { online, known })
        } else {
            None
        }
    }
}

} // verus!
