//! The two ways in which metrics leave the collector: a scrape answers, and a push
//! is due.

use vstd::prelude::*;
use vstd::string::*;

use crate::config::PushConfig;
use crate::json::json_text;
use crate::metrics::exposition::{org_lines, orgs_text};
use crate::metrics::records::{fleet_record, org_record, runner_record, verdict_word};
use crate::metrics::status::status_of;
use crate::metrics::{gathered, rollups, OrgRollup, RunnerMetric, Snapshot};
use crate::models::{FleetStatus, Mode, Verdict};
use crate::scan::has_prefix;
use crate::server::dispatch::Source;
use crate::store::tables::Db;
use crate::text::{chars_of, owned, same};

verus! {

// ---------------------------------------------------------------------------
// Pull
// ---------------------------------------------------------------------------

/// The type of the exposition's text.
pub const TEXT_TYPE: &'static str = "text/plain; version=0.0.4; charset=utf-8";

/// What a scrape is answered.
#[derive(Debug)]
pub struct PullReply {
    pub body: String,
    /// Whether the body is the exposition, and carries its type.
    pub typed: bool,
}

/// Whether a text is the exposition of what can be read: a comment where there is
/// nothing to read, or it could not be read.
pub open spec fn exposes(
    text: Seq<char>,
    source: Source,
    now: i64,
    version: Seq<char>,
    max_age: u64,
) -> bool {
    match source {
        Source::Missing => text == "# db unavailable\n"@,
        Source::Failed(e) => text == "# gather error: "@ + (e@.prefix + e@.message) + "\n"@,
        Source::Open(db) => exists|snap: Snapshot| #[trigger]
            gathered(snap, db, now, version, max_age) && text == snap.exposition(),
    }
}

/// The body of a scrape.
pub fn body(source: &Source, now: i64, version: &str, max_age: u64) -> (r: String)
    ensures
        exposes(r@, *source, now, version@, max_age),
{
    match source {
        Source::Missing => owned("# db unavailable\n"),
        Source::Failed(e) => {
            let mut s = owned("# gather error: ");
            s.append(e.text().as_str());
            s.append("\n");
            s
        },
        Source::Open(db) => {
            let snap = Snapshot::gather(db, now, version, max_age);
            assert(gathered(snap, *db, now, version@, max_age));
            snap.to_prometheus()
        },
    }
}

/// Answer a request of the pull endpoint: the exposition at `/metrics` and below,
/// a pointer to it anywhere else.
pub fn respond(url: &str, source: &Source, now: i64, version: &str, max_age: u64) -> (r: PullReply)
    ensures
        r.typed == "/metrics"@.is_prefix_of(url@),
        if r.typed {
            exposes(r.body@, *source, now, version@, max_age)
        } else {
            r.body@ == "see /metrics\n"@
        },
{
    let chars = chars_of(url);
    let path = chars_of("/metrics");
    if has_prefix(chars.as_slice(), path.as_slice()) {
        PullReply { body: body(source, now, version, max_age), typed: true }
    } else {
        PullReply { body: owned("see /metrics\n"), typed: false }
    }
}

/// What to do about the pull endpoint's listener.
#[derive(Debug, Clone, Copy, PartialEq, Eq, Structural)]
pub enum Listener {
    /// It is as configured.
    Keep,
    /// Close it.
    Close,
    /// Listen at the configured address; what listens elsewhere is closed first.
    Listen,
}

/// What to do about the listener, given where it listens now and what is
/// configured.
pub open spec fn listener_wanted(bound: Option<Seq<char>>, enabled: bool, addr: Seq<char>) -> Listener {
    match bound {
        Some(at) => if !enabled {
            Listener::Close
        } else if at == addr {
            Listener::Keep
        } else {
            Listener::Listen
        },
        None => if enabled {
            Listener::Listen
        } else {
            Listener::Keep
        },
    }
}

/// What to do about the listener.
pub fn follow(bound: Option<&str>, enabled: bool, addr: &str) -> (r: Listener)
    ensures
        r == listener_wanted(crate::text::given(bound), enabled, addr@),
{
    match bound {
        Some(at) => if !enabled {
            Listener::Close
        } else if same(at, addr) {
            Listener::Keep
        } else {
            Listener::Listen
        },
        None => if enabled {
            Listener::Listen
        } else {
            Listener::Keep
        },
    }
}

/// Where the listener is after what was to be done, where that succeeded.
pub open spec fn listening(bound: Option<Seq<char>>, done: Listener, addr: Seq<char>) -> Option<
    Seq<char>,
> {
    match done {
        Listener::Keep => bound,
        Listener::Close => None,
        Listener::Listen => Some(addr),
    }
}

/// Following the configuration settles: it is met afterwards, and there is then
/// nothing left to do.
pub proof fn following_settles(bound: Option<Seq<char>>, enabled: bool, addr: Seq<char>)
    ensures
        ({
            let after = listening(bound, listener_wanted(bound, enabled, addr), addr);
            &&& after == if enabled {
                Some(addr)
            } else {
                None
            }
            &&& listener_wanted(after, enabled, addr) == Listener::Keep
        }),
{
}

// ---------------------------------------------------------------------------
// Push
// ---------------------------------------------------------------------------

/// The state of the pusher. Times are milliseconds of a clock that does not go
/// back.
#[derive(Debug, Clone, Copy, PartialEq, Eq, Structural)]
pub struct Pusher {
    /// Whether pushing was on when last looked at.
    pub active: bool,
    /// When the next push is due.
    pub next: u64,
}

/// What a look at the configuration and the clock says.
#[derive(Debug, Clone, Copy, PartialEq, Eq, Structural)]
pub struct PushTick {
    /// Pushing is on.
    pub on: bool,
    /// It was turned on or off since the last look.
    pub changed: bool,
    /// A push is due.
    pub due: bool,
}

/// Whether pushing is on: it is enabled, and there is where to.
pub open spec fn is_on(push: PushConfig) -> bool {
    push.enabled && push.endpoint@.len() > 0
}

/// Seconds between two pushes: never less than five.
pub open spec fn push_every(interval_secs: u64) -> u64 {
    if interval_secs < 5 {
        5
    } else {
        interval_secs
    }
}

/// Seconds between two pushes.
pub fn push_wait(interval_secs: u64) -> (r: u64)
    ensures
        r == push_every(interval_secs),
{
    if interval_secs < 5 {
        5
    } else {
        interval_secs
    }
}

/// The state after a look: a push is due at once where pushing was turned on.
pub open spec fn looked(p: Pusher, on: bool, now: u64) -> Pusher {
    Pusher {
        active: on,
        next: if on && !p.active {
            now
        } else {
            p.next
        },
    }
}

impl Pusher {
    /// A pusher that starts now.
    pub fn new(now: u64) -> (r: Pusher)
        ensures
            r == (Pusher { active: false, next: now }),
    {
        Pusher { active: false, next: now }
    }

    /// Look at the configuration and the clock.
    pub fn tick(&mut self, push: &PushConfig, now: u64) -> (r: PushTick)
        ensures
            *final(self) == looked(*old(self), is_on(*push), now),
            r.on == is_on(*push),
            r.changed == (is_on(*push) != old(self).active),
            r.due == (r.on && now >= final(self).next),
    {
        let on = push.enabled && chars_of(push.endpoint.as_str()).len() > 0;
        let changed = on != self.active;
        if changed && on {
            self.next = now;
        }
        self.active = on;
        PushTick { on, changed, due: on && now >= self.next }
    }

    /// Note that a push was made, or was tried.
    pub fn pushed(&mut self, interval_secs: u64, now: u64)
        ensures
            final(self).active == old(self).active,
            final(self).next as int == if now + push_every(interval_secs) * 1000 <= u64::MAX {
                now + push_every(interval_secs) * 1000
            } else {
                u64::MAX as int
            },
    {
        let wait: u64 = push_wait(interval_secs);
        let ms: u64 = if wait <= u64::MAX / 1000 {
            wait * 1000
        } else {
            u64::MAX
        };
        self.next = if ms <= u64::MAX - now {
            now + ms
        } else {
            u64::MAX
        };
    }
}

/// Pushing that is turned on pushes at once, and pushing that is off never does.
pub proof fn enabling_pushes_at_once(p: Pusher, on: bool, now: u64)
    ensures
        on && !p.active ==> now >= looked(p, on, now).next,
        looked(p, on, now).active == on,
{
}

/// What a push posts: the records of the snapshot, where the tables can be read.
/// The time is given in microseconds, and must leave room for them.
pub fn push_body(source: &Source, now: i64, version: &str, max_age: u64) -> (r: Result<
    Option<String>,
    String,
>)
    requires
        i64::MIN <= now * 1_000_000 <= i64::MAX,
    ensures
        match *source {
            Source::Missing => r matches Ok(None),
            Source::Failed(e) => r matches Err(m) && m@ == e@.prefix + e@.message,
            Source::Open(db) => r matches Ok(Some(text)) && exists|snap: Snapshot| #[trigger]
                gathered(snap, db, now, version@, max_age) && text@ == match json_text(
                    snap.records(),
                ) {
                    Some(t) => t,
                    None => "[]"@,
                },
        },
{
    match source {
        Source::Missing => Ok(None),
        Source::Failed(e) => Err(e.text()),
        Source::Open(db) => {
            let snap = Snapshot::gather(db, now, version, max_age);
            assert(gathered(snap, *db, now, version@, max_age));
            Ok(Some(snap.to_json()))
        },
    }
}

// ---------------------------------------------------------------------------
// One snapshot, three renderings
// ---------------------------------------------------------------------------

proof fn same_org_lines(a: Seq<OrgRollup>, b: Seq<OrgRollup>, n: int)
    requires
        rollups(a) == rollups(b),
        0 <= n <= a.len(),
    ensures
        org_lines(a, n) == org_lines(b, n),
    decreases n,
{
    assert(rollups(a).len() == a.len() && rollups(b).len() == b.len());
    if n > 0 {
        same_org_lines(a, b, n - 1);
        assert(rollups(a)[n - 1] == a[n - 1]@);
        assert(rollups(b)[n - 1] == b[n - 1]@);
    }
}

/// The tables decide what is reported: whoever takes a snapshot of them at a time
/// renders the same exposition and the same records, and comes to the same verdict.
pub proof fn the_tables_decide(
    a: Snapshot,
    b: Snapshot,
    db: Db,
    now: i64,
    version: Seq<char>,
    max_age: u64,
    one: FleetStatus,
    other: FleetStatus,
    mode: Mode,
)
    requires
        gathered(a, db, now, version, max_age),
        gathered(b, db, now, version, max_age),
        status_of(one, a, mode),
        status_of(other, b, mode),
    ensures
        a.exposition() == b.exposition(),
        a.records() == b.records(),
        one.verdict == other.verdict,
        one.fleet == other.fleet,
{
    assert(rollups(a.orgs@).len() == a.orgs@.len());
    assert(rollups(b.orgs@).len() == b.orgs@.len());
    same_org_lines(a.orgs@, b.orgs@, a.orgs@.len() as int);
    assert(orgs_text(a) == orgs_text(b));
    assert forall|i: int| 0 <= i < a.orgs@.len() implies #[trigger] org_record(a.orgs@[i])
        == org_record(b.orgs@[i]) by {
        assert(rollups(a.orgs@)[i] == a.orgs@[i]@);
        assert(rollups(b.orgs@)[i] == b.orgs@[i]@);
    }
    assert(a.orgs@.map_values(|o: OrgRollup| org_record(o)) =~= b.orgs@.map_values(
        |o: OrgRollup| org_record(o),
    ));
    assert(fleet_record(a) == fleet_record(b));
    assert(a.runners@.map_values(|r: RunnerMetric| runner_record(a.now, r)) =~= b.runners@.map_values(
        |r: RunnerMetric| runner_record(b.now, r),
    ));
}

/// The verdict in the records is the one in the status, whatever the fleet.
pub proof fn verdicts_agree(s: Snapshot, r: FleetStatus, mode: Mode)
    requires
        status_of(r, s, mode),
    ensures
        r.verdict == Verdict::Healthy <==> verdict_word(s) == "ok"@,
        r.verdict == Verdict::Degraded <==> verdict_word(s) == "degraded"@,
        r.verdict == Verdict::Unknown <==> verdict_word(s) == "unknown"@,
{
    reveal_strlit("degraded");
    reveal_strlit("unknown");
    reveal_strlit("ok");
    assert("degraded"@.len() == 8 && "unknown"@.len() == 7 && "ok"@.len() == 2);
}

/// A scrape without tables says so in a comment, and holds nothing else.
pub proof fn an_empty_scrape_is_a_comment(
    text: Seq<char>,
    source: Source,
    now: i64,
    version: Seq<char>,
    max_age: u64,
)
    requires
        exposes(text, source, now, version, max_age),
    ensures
        source is Missing ==> text == "# db unavailable\n"@,
        source matches Source::Failed(e) ==> text == "# gather error: "@ + (e@.prefix + e@.message)
            + "\n"@,
        source matches Source::Open(db) ==> exists|snap: Snapshot| #[trigger]
            gathered(snap, db, now, version, max_age) && text == snap.exposition(),
{
}

} // verus!
