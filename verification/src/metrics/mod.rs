//! A point-in-time snapshot of the fleet, gathered once per scrape, push or
//! status query, so that no two of them can disagree.

use vstd::prelude::*;

use crate::models::{
    copy_measure, diverges, divergent, ApiReconcileState, ApiRunnerState, GhView, Liveness, Measure,
    RunnerSample, RunnerState,
};
use crate::ipc::ApiRow;
use crate::store::reader::github::{
    age, age_between, api_reconcile_states, api_runner_states, distinct_views, gh_view, has_row,
    latest_api_runners, newest_at, sorted_healths,
};
use crate::store::reader::jobs::{job_counts, running};
use crate::store::reader::{
    add_clipped, clip32, latest_host, latest_runners, max_ts, newest_host, newest_tick, runner_states,
};
use crate::store::rows::{find_row, select, select_rows};
use crate::store::tables::Db;
use crate::store::writer::dir_at;
use crate::store::writer::github::runner_at;
use crate::text::{names, owned, text_at_or_before, text_le};

pub mod export;
pub mod exposition;
pub mod laws;
pub mod records;
pub mod shown;
pub mod status;
pub mod totals;

verus! {

/// One runner's metric row.
#[derive(Debug)]
pub struct RunnerMetric {
    pub agent_id: i64,
    pub name: String,
    pub org: String,
    pub liveness: Liveness,
    pub cpu_pct: Option<Measure>,
    pub mem_bytes: Option<u64>,
    pub mem_current_bytes: Option<u64>,
    /// Seconds in the current liveness state.
    pub state_seconds: i64,
    /// GitHub's view, its freshness adjudged.
    pub gh: GhView,
    /// Seconds this runner has been offline to GitHub without a break, from the
    /// persisted edge. `None` when online, or when there is no edge yet.
    pub gh_offline_seconds: Option<i64>,
}

impl RunnerMetric {
    /// Whether the runner diverges.
    pub fn divergent(&self) -> (r: Option<bool>)
        ensures
            r == diverges(self.liveness, self.gh),
    {
        divergent(self.liveness, self.gh)
    }
}

/// Counts of one org.
#[derive(Debug)]
pub struct OrgRollup {
    pub org: String,
    pub total: u32,
    /// Runners of which GitHub's view is fresh.
    pub github_known: u32,
    pub github_online: u32,
}

/// Counts of one org, by its name.
pub struct Rollup {
    pub org: Seq<char>,
    pub total: u32,
    pub github_known: u32,
    pub github_online: u32,
}

impl View for OrgRollup {
    type V = Rollup;

    open spec fn view(&self) -> Rollup {
        Rollup {
            org: self.org@,
            total: self.total,
            github_known: self.github_known,
            github_online: self.github_online,
        }
    }
}

/// Rollups as values.
pub open spec fn rollups(v: Seq<OrgRollup>) -> Seq<Rollup> {
    v.map_values(|o: OrgRollup| o@)
}

/// A snapshot of the fleet.
#[derive(Debug)]
pub struct Snapshot {
    pub version: String,
    pub now: i64,
    pub last_sample_ts: Option<i64>,
    pub runners: Vec<RunnerMetric>,
    pub busy: u32,
    pub idle: u32,
    pub offline: u32,
    pub load1: Option<Measure>,
    pub mem_used: Option<u64>,
    pub mem_total: Option<u64>,
    pub jobs_total: u64,
    pub jobs_running: u64,
    /// Runners that are up here while GitHub says they cannot take work.
    pub divergent: u32,
    pub orgs: Vec<OrgRollup>,
    pub reconcile: Vec<ApiReconcileState>,
    /// The freshness window that the snapshot was taken with.
    pub max_age: u64,
}

// ---------------------------------------------------------------------------
// One runner
// ---------------------------------------------------------------------------

/// How long a runner has been in its state: 0 where no edge is known.
pub open spec fn seconds_in_state(states: Seq<RunnerState>, dir: Seq<char>, now: i64) -> i64 {
    let k = dir_at(states, dir);
    if k < states.len() {
        age_between(now, states[k].since_ts)
    } else {
        0
    }
}

/// How long a runner has been offline to GitHub, by its edge.
pub open spec fn seconds_offline(
    edges: Seq<ApiRunnerState>,
    org: Seq<char>,
    id: i64,
    now: i64,
) -> Option<i64> {
    let k = runner_at(edges, org, id);
    if k < edges.len() && !edges[k].online {
        Some(age_between(now, edges[k].since_ts))
    } else {
        None
    }
}

/// The metric row of a runner's sample. A runner without a reading is unknown to
/// GitHub, never offline.
pub open spec fn metric_of(db: Db, r: RunnerSample, now: i64, max_age: u64) -> RunnerMetric {
    RunnerMetric {
        agent_id: r.agent_id,
        name: r.name,
        org: r.org,
        liveness: r.liveness,
        cpu_pct: r.cpu_pct,
        mem_bytes: r.mem_bytes,
        mem_current_bytes: r.mem_current_bytes,
        state_seconds: seconds_in_state(db.runner_states@, r.dir@, now),
        gh: gh_view(db.api_samples@, r.org@, r.agent_id, now, max_age),
        gh_offline_seconds: seconds_offline(db.api_states@, r.org@, r.agent_id, now),
    }
}

/// The metric rows of the newest tick.
pub open spec fn metrics_of(db: Db, now: i64, max_age: u64) -> Seq<RunnerMetric> {
    newest_tick(db.runner_samples@).map_values(|r: RunnerSample| metric_of(db, r, now, max_age))
}

fn find_state(states: &Vec<RunnerState>, dir: &String) -> (k: usize)
    ensures
        k == dir_at(states@, dir@),
        k <= states@.len(),
{
    let hit = |i: usize| -> (b: bool)
        requires
            i < states@.len(),
        ensures
            b == (states@[i as int].dir@ == dir@),
    {
        states[i].dir == *dir
    };
    find_row(states.len(), hit, Ghost(|i: int| states@[i].dir@ == dir@))
}

fn find_edge(edges: &Vec<ApiRunnerState>, org: &String, id: i64) -> (k: usize)
    ensures
        k == runner_at(edges@, org@, id),
        k <= edges@.len(),
{
    let hit = |i: usize| -> (b: bool)
        requires
            i < edges@.len(),
        ensures
            b == (edges@[i as int].org@ == org@ && edges@[i as int].agent_id == id),
    {
        edges[i].agent_id == id && edges[i].org == *org
    };
    find_row(
        edges.len(),
        hit,
        Ghost(|i: int| edges@[i].org@ == org@ && edges@[i].agent_id == id),
    )
}

/// GitHub's view of a runner among the latest views: unknown where it has none.
fn look_up(rows: &Vec<ApiRow>, org: &String, id: i64) -> (r: GhView)
    ensures
        !has_row(rows@, org@, id) ==> r == GhView::Unknown,
        has_row(rows@, org@, id) ==> exists|k: int|
            0 <= k < rows@.len() && #[trigger] rows@[k].org@ == org@ && rows@[k].agent_id == id && r
                == rows@[k].view,
{
    let mut k: usize = 0;
    while k < rows.len()
        invariant
            k <= rows@.len(),
            forall|m: int|
                0 <= m < k ==> !(#[trigger] rows@[m].org@ == org@ && rows@[m].agent_id == id),
        decreases rows@.len() - k,
    {
        if rows[k].agent_id == id && rows[k].org == *org {
            assert(rows@[k as int].org@ == org@);
            return rows[k].view;
        }
        k = k + 1;
    }
    GhView::Unknown
}

// ---------------------------------------------------------------------------
// Counting
// ---------------------------------------------------------------------------

/// Which runners have a liveness.
pub open spec fn with_liveness(rs: Seq<RunnerMetric>, l: Liveness) -> spec_fn(int) -> bool {
    |i: int| rs[i].liveness == l
}

/// Which runners diverge.
pub open spec fn diverging(rs: Seq<RunnerMetric>) -> spec_fn(int) -> bool {
    |i: int| diverges(rs[i].liveness, rs[i].gh) == Some(true)
}

/// Which runners belong to an org.
pub open spec fn in_org(rs: Seq<RunnerMetric>, org: Seq<char>) -> spec_fn(int) -> bool {
    |i: int| rs[i].org@ == org
}

/// Which runners of an org GitHub has a fresh reading of.
pub open spec fn known_in_org(rs: Seq<RunnerMetric>, org: Seq<char>) -> spec_fn(int) -> bool {
    |i: int| rs[i].org@ == org && rs[i].gh.online_view() is Some
}

/// Which runners of an org a fresh reading calls online.
pub open spec fn online_in_org(rs: Seq<RunnerMetric>, org: Seq<char>) -> spec_fn(int) -> bool {
    |i: int| rs[i].org@ == org && rs[i].gh.online_view() == Some(true)
}

/// How many of the runners satisfy `p`.
pub open spec fn how_many(rs: Seq<RunnerMetric>, p: spec_fn(int) -> bool) -> int {
    select(p, rs.len() as int).len() as int
}

/// Busy, idle and offline partition the fleet.
pub proof fn states_partition_the_fleet(rs: Seq<RunnerMetric>, n: int)
    requires
        0 <= n <= rs.len(),
    ensures
        select(with_liveness(rs, Liveness::Busy), n).len() + select(
            with_liveness(rs, Liveness::Idle),
            n,
        ).len() + select(with_liveness(rs, Liveness::Offline), n).len() == n,
    decreases n,
{
    if n > 0 {
        states_partition_the_fleet(rs, n - 1);
        let a = with_liveness(rs, Liveness::Busy);
        let b = with_liveness(rs, Liveness::Idle);
        let c = with_liveness(rs, Liveness::Offline);
        assert(a(n - 1) || b(n - 1) || c(n - 1));
    }
}

/// A divergent runner is busy or idle: divergence cross-cuts the states.
pub proof fn divergence_cross_cuts(rs: Seq<RunnerMetric>, n: int)
    requires
        0 <= n <= rs.len(),
    ensures
        select(diverging(rs), n).len() <= select(with_liveness(rs, Liveness::Busy), n).len()
            + select(with_liveness(rs, Liveness::Idle), n).len(),
    decreases n,
{
    if n > 0 {
        divergence_cross_cuts(rs, n - 1);
        let a = with_liveness(rs, Liveness::Busy);
        let b = with_liveness(rs, Liveness::Idle);
        let d = diverging(rs);
        if d(n - 1) {
            assert(a(n - 1) || b(n - 1));
        }
    }
}

/// Of an org's runners no more are online to GitHub than it has readings of, and
/// no more have readings than there are.
pub proof fn org_counts_nest(rs: Seq<RunnerMetric>, org: Seq<char>, n: int)
    requires
        0 <= n <= rs.len(),
    ensures
        select(online_in_org(rs, org), n).len() <= select(known_in_org(rs, org), n).len(),
        select(known_in_org(rs, org), n).len() <= select(in_org(rs, org), n).len(),
    decreases n,
{
    if n > 0 {
        org_counts_nest(rs, org, n - 1);
        let a = in_org(rs, org);
        let b = known_in_org(rs, org);
        let c = online_in_org(rs, org);
        assert(c(n - 1) ==> b(n - 1));
        assert(b(n - 1) ==> a(n - 1));
    }
}

fn count_runners<F: Fn(usize) -> bool>(
    rs: &Vec<RunnerMetric>,
    p: F,
    Ghost(sp): Ghost<spec_fn(int) -> bool>,
) -> (r: u32)
    requires
        forall|i: usize| i < rs@.len() ==> #[trigger] call_requires(p, (i,)),
        forall|i: usize, b: bool|
            i < rs@.len() && #[trigger] call_ensures(p, (i,), b) ==> b == sp(i as int),
    ensures
        r == clip32(how_many(rs@, sp)),
{
    let hits = select_rows(rs.len(), p, Ghost(sp));
    assert(crate::store::rows::at(hits@).len() == hits@.len());
    add_clipped(0, hits.len(), Ghost(0))
}

fn count_liveness(rs: &Vec<RunnerMetric>, l: Liveness) -> (r: u32)
    ensures
        r == clip32(how_many(rs@, with_liveness(rs@, l))),
{
    let hit = |i: usize| -> (b: bool)
        requires
            i < rs@.len(),
        ensures
            b == (rs@[i as int].liveness == l),
    {
        rs[i].liveness == l
    };
    count_runners(rs, hit, Ghost(with_liveness(rs@, l)))
}

fn count_divergent(rs: &Vec<RunnerMetric>) -> (r: u32)
    ensures
        r == clip32(how_many(rs@, diverging(rs@))),
{
    let hit = |i: usize| -> (b: bool)
        requires
            i < rs@.len(),
        ensures
            b == (diverges(rs@[i as int].liveness, rs@[i as int].gh) == Some(true)),
    {
        match rs[i].divergent() {
            Some(d) => d,
            None => false,
        }
    };
    count_runners(rs, hit, Ghost(diverging(rs@)))
}

// ---------------------------------------------------------------------------
// Orgs
// ---------------------------------------------------------------------------

/// A sorted list of names with `x` in it, once.
pub open spec fn with_name(s: Seq<Seq<char>>, x: Seq<char>) -> Seq<Seq<char>>
    decreases s.len(),
{
    if s.len() == 0 {
        s.push(x)
    } else if s.last() == x {
        s
    } else if text_le(s.last(), x) {
        s.push(x)
    } else {
        with_name(s.drop_last(), x).push(s.last())
    }
}

/// The orgs of the first `n` runners, in text order, each once.
pub open spec fn org_names(rs: Seq<RunnerMetric>, n: int) -> Seq<Seq<char>>
    decreases n,
{
    if n <= 0 {
        seq![]
    } else {
        with_name(org_names(rs, n - 1), rs[n - 1].org@)
    }
}

/// The counts of one org.
pub open spec fn rollup_of(rs: Seq<RunnerMetric>, org: Seq<char>) -> Rollup {
    Rollup {
        org,
        total: clip32(how_many(rs, in_org(rs, org))),
        github_known: clip32(how_many(rs, known_in_org(rs, org))),
        github_online: clip32(how_many(rs, online_in_org(rs, org))),
    }
}

/// The counts of every org, by name.
pub open spec fn rollups_of(rs: Seq<RunnerMetric>) -> Seq<Rollup> {
    org_names(rs, rs.len() as int).map_values(|org: Seq<char>| rollup_of(rs, org))
}

/// Every runner's org has its rollup, and no other org has one.
pub proof fn every_org_is_rolled_up(rs: Seq<RunnerMetric>, n: int, x: Seq<char>)
    requires
        0 <= n <= rs.len(),
    ensures
        org_names(rs, n).contains(x) <==> exists|k: int| 0 <= k < n && #[trigger] rs[k].org@ == x,
    decreases n,
{
    if n > 0 {
        every_org_is_rolled_up(rs, n - 1, x);
        with_name_adds(org_names(rs, n - 1), rs[n - 1].org@, x);
        if exists|k: int| 0 <= k < n && #[trigger] rs[k].org@ == x {
            let k = choose|k: int| 0 <= k < n && #[trigger] rs[k].org@ == x;
            if k < n - 1 {
                assert(rs[k].org@ == x);
            }
        }
        if org_names(rs, n - 1).contains(x) {
            let k = choose|k: int| 0 <= k < n - 1 && #[trigger] rs[k].org@ == x;
            assert(rs[k].org@ == x);
        }
        if rs[n - 1].org@ == x {
            assert(exists|k: int| 0 <= k < n && #[trigger] rs[k].org@ == x);
        }
    }
}

/// A list of names with one put in holds that name, and what it held before.
pub proof fn with_name_adds(s: Seq<Seq<char>>, x: Seq<char>, y: Seq<char>)
    ensures
        with_name(s, x).contains(y) <==> s.contains(y) || y == x,
    decreases s.len(),
{
    let r = with_name(s, x);
    if s.len() == 0 || (s.last() != x && text_le(s.last(), x)) {
        if s.contains(y) {
            let k = choose|k: int| 0 <= k < s.len() && s[k] == y;
            assert(r[k] == y);
        }
        if y == x {
            assert(r[s.len() as int] == y);
        }
    } else if s.last() == x {
        assert(s[s.len() - 1] == x);
    } else {
        let init = s.drop_last();
        with_name_adds(init, x, y);
        let m = with_name(init, x);
        if r.contains(y) {
            let k = choose|k: int| 0 <= k < r.len() && r[k] == y;
            if k < m.len() {
                assert(m[k] == y);
                if init.contains(y) {
                    let j = choose|j: int| 0 <= j < init.len() && init[j] == y;
                    assert(s[j] == y);
                }
            } else {
                assert(s[s.len() - 1] == y);
            }
        }
        if s.contains(y) || y == x {
            if s.contains(y) {
                let k = choose|k: int| 0 <= k < s.len() && s[k] == y;
                if k < init.len() {
                    assert(init[k] == y);
                }
            }
            if m.contains(y) {
                let j = choose|j: int| 0 <= j < m.len() && m[j] == y;
                assert(r[j] == y);
            } else {
                assert(r[m.len() as int] == y);
            }
        }
    }
}

fn add_name(v: &mut Vec<String>, x: &String)
    ensures
        names(final(v)@) == with_name(names(old(v)@), x@),
{
    let mut p: usize = v.len();
    let ghost s = names(v@);
    assert(s.take(p as int) =~= s);
    // Behind position p stand names that sort after x.
    while p > 0 && v[p - 1] != *x && !text_at_or_before(v[p - 1].as_str(), x.as_str())
        invariant
            p <= v@.len(),
            v@ == old(v)@,
            s == names(v@),
            with_name(s, x@) == with_name(s.take(p as int), x@) + s.skip(p as int),
        decreases p,
    {
        proof {
            let t = s.take(p as int);
            assert(t.last() == v@[p - 1]@);
            assert(t.drop_last() =~= s.take(p - 1));
            assert(with_name(t, x@) + s.skip(p as int) =~= with_name(s.take(p - 1), x@) + s.skip(
                p - 1,
            ));
        }
        p = p - 1;
    }
    if p > 0 && v[p - 1] == *x {
        proof {
            assert(s.take(p as int).last() == x@);
            assert(s.take(p as int) + s.skip(p as int) =~= s);
        }
    } else {
        v.insert(p, x.clone());
        proof {
            let t = s.take(p as int);
            if p > 0 {
                assert(t.last() == s[p - 1]);
            }
            assert(with_name(t, x@) =~= t.push(x@));
            assert(names(v@) =~= t.push(x@) + s.skip(p as int));
        }
    }
}

fn roll_up(rs: &Vec<RunnerMetric>) -> (r: Vec<OrgRollup>)
    ensures
        rollups(r@) == rollups_of(rs@),
{
    let mut orgs: Vec<String> = Vec::new();
    let mut i: usize = 0;
    assert(names(orgs@) =~= seq![]);
    while i < rs.len()
        invariant
            i <= rs@.len(),
            names(orgs@) == org_names(rs@, i as int),
        decreases rs@.len() - i,
    {
        add_name(&mut orgs, &rs[i].org);
        i = i + 1;
    }
    let ghost all = org_names(rs@, rs@.len() as int);
    assert(names(orgs@).len() == orgs@.len());
    let mut out: Vec<OrgRollup> = Vec::new();
    let mut k: usize = 0;
    while k < orgs.len()
        invariant
            k <= orgs@.len(),
            all == names(orgs@),
            rollups(out@) == all.take(k as int).map_values(|o: Seq<char>| rollup_of(rs@, o)),
        decreases orgs@.len() - k,
    {
        let org = &orgs[k];
        let mine = |i: usize| -> (b: bool)
            requires
                i < rs@.len(),
            ensures
                b == (rs@[i as int].org@ == org@),
        {
            rs[i].org == *org
        };
        let total: u32 = count_runners(rs, mine, Ghost(in_org(rs@, org@)));
        let known = |i: usize| -> (b: bool)
            requires
                i < rs@.len(),
            ensures
                b == (rs@[i as int].org@ == org@ && rs@[i as int].gh.online_view() is Some),
        {
            rs[i].org == *org && rs[i].gh.online().is_some()
        };
        let github_known: u32 = count_runners(rs, known, Ghost(known_in_org(rs@, org@)));
        let online = |i: usize| -> (b: bool)
            requires
                i < rs@.len(),
            ensures
                b == (rs@[i as int].org@ == org@ && rs@[i as int].gh.online_view() == Some(true)),
        {
            rs[i].org == *org && match rs[i].gh.online() {
                Some(o) => o,
                None => false,
            }
        };
        let github_online: u32 = count_runners(rs, online, Ghost(online_in_org(rs@, org@)));
        let row = OrgRollup { org: org.clone(), total, github_known, github_online };
        let ghost view = row@;
        let ghost was = out@;
        out.push(row);
        proof {
            assert(view == rollup_of(rs@, all[k as int]));
            assert(rollups(out@) =~= rollups(was).push(view));
            assert(rollups(out@) =~= all.take(k + 1).map_values(|o: Seq<char>| rollup_of(rs@, o)));
        }
        k = k + 1;
    }
    assert(all.take(k as int) =~= all);
    out
}

// ---------------------------------------------------------------------------
// Gathering
// ---------------------------------------------------------------------------

/// Whether a snapshot is what the tables show at `now`.
pub open spec fn gathered(r: Snapshot, db: Db, now: i64, version: Seq<char>, max_age: u64) -> bool {
    &&& r.version@ == version
    &&& r.now == now
    &&& r.max_age == max_age
    &&& r.last_sample_ts == max_ts(
        db.runner_samples@,
        db.runner_samples@.len() as int,
    )
    &&& r.runners@ == metrics_of(db, now, max_age)
    &&& r.counts_agree()
    &&& r.load1 == (match newest_host(db.host_samples@) {
        Some(h) => Some(h.load1),
        None => None,
    })
    &&& r.mem_used == (match newest_host(db.host_samples@) {
        Some(h) => Some(h.mem_used),
        None => None,
    })
    &&& r.mem_total == (match newest_host(db.host_samples@) {
        Some(h) => Some(h.mem_total),
        None => None,
    })
    &&& r.jobs_total == db.jobs@.len()
    &&& r.jobs_running == select(running(db.jobs@), db.jobs@.len() as int).len()
    &&& r.reconcile@ == sorted_healths(db.reconcile_states@)
}

impl Snapshot {
    /// The counts of a snapshot are those of its runners.
    pub open spec fn counts_agree(&self) -> bool {
        &&& self.busy == clip32(
            how_many(self.runners@, with_liveness(self.runners@, Liveness::Busy)),
        )
        &&& self.idle == clip32(
            how_many(self.runners@, with_liveness(self.runners@, Liveness::Idle)),
        )
        &&& self.offline == clip32(
            how_many(self.runners@, with_liveness(self.runners@, Liveness::Offline)),
        )
        &&& self.divergent == clip32(how_many(self.runners@, diverging(self.runners@)))
        &&& rollups(self.orgs@) == rollups_of(self.runners@)
    }

    /// Read the current state of the fleet: the runners of the newest tick, each
    /// with its edges and GitHub's view of it, and the counts over them.
    pub fn gather(db: &Db, now: i64, version: &str, max_age: u64) -> (r: Snapshot)
        ensures
            gathered(r, *db, now, version@, max_age),
    {
        let latest = latest_runners(db);
        let states = runner_states(db);
        let api = latest_api_runners(db, now, max_age);
        let edges = api_runner_states(db);
        let reconcile = api_reconcile_states(db);
        let host = latest_host(db);
        let (jobs_total, jobs_running) = job_counts(db);
        let mut last_sample_ts: Option<i64> = None;
        let ghost tick = newest_tick(db.runner_samples@);
        let mut runners: Vec<RunnerMetric> = Vec::new();
        let mut i: usize = 0;
        while i < latest.len()
            invariant
                i <= latest@.len(),
                latest@ == tick,
                tick == newest_tick(db.runner_samples@),
                states@ == db.runner_states@,
                edges@ == db.api_states@,
                distinct_views(api@),
                forall|k: int|
                    0 <= k < api@.len() ==> #[trigger] api@[k].view == gh_view(
                        db.api_samples@,
                        api@[k].org@,
                        api@[k].agent_id,
                        now,
                        max_age,
                    ),
                forall|org: Seq<char>, id: i64| #[trigger]
                    has_row(api@, org, id) <==> newest_at(
                        db.api_samples@,
                        org,
                        id,
                        db.api_samples@.len() as int,
                    ) >= 0,
                runners@ == tick.take(i as int).map_values(
                    |s: RunnerSample| metric_of(*db, s, now, max_age),
                ),
            decreases latest@.len() - i,
        {
            let s = &latest[i];
            let k: usize = find_state(&states, &s.dir);
            let state_seconds: i64 = if k < states.len() {
                age(now, states[k].since_ts)
            } else {
                0
            };
            let gh = look_up(&api, &s.org, s.agent_id);
            let e: usize = find_edge(&edges, &s.org, s.agent_id);
            let gh_offline_seconds: Option<i64> = if e < edges.len() && !edges[e].online {
                Some(age(now, edges[e].since_ts))
            } else {
                None
            };
            proof {
                assert(gh == gh_view(db.api_samples@, s.org@, s.agent_id, now, max_age));
            }
            runners.push(
                RunnerMetric {
                    agent_id: s.agent_id,
                    name: s.name.clone(),
                    org: s.org.clone(),
                    liveness: s.liveness,
                    cpu_pct: copy_measure(&s.cpu_pct),
                    mem_bytes: s.mem_bytes,
                    mem_current_bytes: s.mem_current_bytes,
                    state_seconds,
                    gh,
                    gh_offline_seconds,
                },
            );
            assert(runners@ =~= tick.take(i + 1).map_values(
                |s: RunnerSample| metric_of(*db, s, now, max_age),
            ));
            i = i + 1;
        }
        assert(tick.take(i as int) =~= tick);
        if latest.len() > 0 {
            last_sample_ts = Some(latest[0].ts);
        }
        proof {
            crate::store::reader::newest_tick_has_its_time(db.runner_samples@);
        }
        let busy: u32 = count_liveness(&runners, Liveness::Busy);
        let idle: u32 = count_liveness(&runners, Liveness::Idle);
        let offline: u32 = count_liveness(&runners, Liveness::Offline);
        let divergent: u32 = count_divergent(&runners);
        let orgs = roll_up(&runners);
        let (load1, mem_used, mem_total) = match &host {
            Some(h) => (Some(h.load1.clone()), Some(h.mem_used), Some(h.mem_total)),
            None => (None, None, None),
        };
        Snapshot {
            version: owned(version),
            now,
            last_sample_ts,
            runners,
            busy,
            idle,
            offline,
            load1,
            mem_used,
            mem_total,
            jobs_total,
            jobs_running,
            divergent,
            orgs,
            reconcile,
            max_age,
        }
    }
}

} // verus!
