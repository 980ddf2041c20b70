//! What GitHub said: the readings of a tick, the online edge they drive, each
//! org's health, and the audit trail.

use vstd::prelude::*;

use crate::models::{ApiErrorKind, ApiOrgOutcome, ApiReconcileState, ApiRunnerRow, ApiRunnerState};
use crate::store::rows::{find_row, first_where, first_where_is_least, first_where_unique};
use crate::store::tables::{
    audits, distinct_orgs, distinct_runners, healths, opt_view, ApiSample, Audit, Db, Health,
    ReconcileSample,
};

verus! {

// ---------------------------------------------------------------------------
// Readings
// ---------------------------------------------------------------------------

/// The sample row of one reading.
pub open spec fn reading(ts: i64, r: ApiRunnerRow) -> ApiSample {
    ApiSample { ts, agent_id: r.agent_id, org: r.org, name: r.name, online: r.online, busy: r.busy }
}

/// The sample rows after the outcomes of a tick.
pub open spec fn readings_after(
    samples: Seq<ApiSample>,
    ts: i64,
    outcomes: Seq<ApiOrgOutcome>,
) -> Seq<ApiSample>
    decreases outcomes.len(),
{
    if outcomes.len() == 0 {
        samples
    } else {
        readings_after(samples, ts, outcomes.drop_last()) + outcomes.last().rows_seq().map_values(
            |r: ApiRunnerRow| reading(ts, r),
        )
    }
}

// ---------------------------------------------------------------------------
// The edge
// ---------------------------------------------------------------------------

/// Where the edge row of a runner stands; the length where there is none.
pub open spec fn runner_at(states: Seq<ApiRunnerState>, org: Seq<char>, id: i64) -> int {
    first_where(|i: int| states[i].org@ == org && states[i].agent_id == id, states.len() as int)
}

/// The edge rows after one reading. `since_ts` moves only where `online` flips.
pub open spec fn edge_seen(
    states: Seq<ApiRunnerState>,
    ts: i64,
    r: ApiRunnerRow,
) -> Seq<ApiRunnerState> {
    let k = runner_at(states, r.org@, r.agent_id);
    if k < states.len() {
        states.update(
            k,
            ApiRunnerState {
                org: states[k].org,
                agent_id: states[k].agent_id,
                online: r.online,
                since_ts: if states[k].online == r.online {
                    states[k].since_ts
                } else {
                    ts
                },
                last_seen_ts: ts,
            },
        )
    } else {
        states.push(
            ApiRunnerState {
                org: r.org,
                agent_id: r.agent_id,
                online: r.online,
                since_ts: ts,
                last_seen_ts: ts,
            },
        )
    }
}

/// The edge rows after the rows of one org.
pub open spec fn edges_seen(
    states: Seq<ApiRunnerState>,
    ts: i64,
    rows: Seq<ApiRunnerRow>,
) -> Seq<ApiRunnerState>
    decreases rows.len(),
{
    if rows.len() == 0 {
        states
    } else {
        edge_seen(edges_seen(states, ts, rows.drop_last()), ts, rows.last())
    }
}

/// The edge rows after the outcomes of a tick.
pub open spec fn edges_after(
    states: Seq<ApiRunnerState>,
    ts: i64,
    outcomes: Seq<ApiOrgOutcome>,
) -> Seq<ApiRunnerState>
    decreases outcomes.len(),
{
    if outcomes.len() == 0 {
        states
    } else {
        edges_seen(edges_after(states, ts, outcomes.drop_last()), ts, outcomes.last().rows_seq())
    }
}

/// The online edge: pinned while the bit holds, moved to the tick where it
/// flips, and seen at the tick either way.
pub proof fn online_edge_moves_only_on_a_flip(
    states: Seq<ApiRunnerState>,
    ts: i64,
    r: ApiRunnerRow,
)
    ensures
        ({
            let k = runner_at(states, r.org@, r.agent_id);
            let after = edge_seen(states, ts, r);
            &&& 0 <= k < after.len()
            &&& after[k].org@ == r.org@
            &&& after[k].agent_id == r.agent_id
            &&& after[k].online == r.online
            &&& after[k].last_seen_ts == ts
            &&& k < states.len() && states[k].online == r.online ==> after[k].since_ts
                == states[k].since_ts
            &&& k < states.len() && states[k].online != r.online ==> after[k].since_ts == ts
            &&& k == states.len() ==> after[k].since_ts == ts
            &&& runner_at(after, r.org@, r.agent_id) == k
        }),
{
    let p = |i: int| states[i].org@ == r.org@ && states[i].agent_id == r.agent_id;
    first_where_is_least(p, states.len() as int);
    let k = runner_at(states, r.org@, r.agent_id);
    let after = edge_seen(states, ts, r);
    let q = |i: int| after[i].org@ == r.org@ && after[i].agent_id == r.agent_id;
    assert forall|i: int| 0 <= i < k implies !#[trigger] q(i) by {
        assert(!p(i));
        assert(after[i] == states[i]);
    }
    if k < states.len() {
        assert(p(k));
    }
    assert(q(k));
    first_where_unique(q, after.len() as int, k);
}

/// Only a successful fetch moves an edge: a tick in which no org was fetched
/// leaves every edge and every reading as it was.
pub proof fn failures_move_no_edge(
    states: Seq<ApiRunnerState>,
    samples: Seq<ApiSample>,
    ts: i64,
    outcomes: Seq<ApiOrgOutcome>,
)
    requires
        forall|i: int| 0 <= i < outcomes.len() ==> !(#[trigger] outcomes[i] is Fetched),
    ensures
        edges_after(states, ts, outcomes) == states,
        readings_after(samples, ts, outcomes) == samples,
    decreases outcomes.len(),
{
    if outcomes.len() > 0 {
        let init = outcomes.drop_last();
        assert forall|i: int| 0 <= i < init.len() implies !(#[trigger] init[i] is Fetched) by {
            assert(init[i] == outcomes[i]);
        }
        failures_move_no_edge(states, samples, ts, init);
        assert(!(outcomes[outcomes.len() - 1] is Fetched));
        assert(outcomes.last().rows_seq() =~= seq![]);
        assert(readings_after(samples, ts, outcomes) =~= samples);
    }
}

/// A reading keeps one edge row per runner.
proof fn edge_seen_keeps_keys(states: Seq<ApiRunnerState>, ts: i64, r: ApiRunnerRow)
    requires
        distinct_runners(states),
    ensures
        distinct_runners(edge_seen(states, ts, r)),
{
    let p = |i: int| states[i].org@ == r.org@ && states[i].agent_id == r.agent_id;
    first_where_is_least(p, states.len() as int);
    let k = runner_at(states, r.org@, r.agent_id);
    let after = edge_seen(states, ts, r);
    assert forall|i: int, j: int| 0 <= i < j < after.len() implies #[trigger] after[i].org@
        != #[trigger] after[j].org@ || after[i].agent_id != after[j].agent_id by {
        if k < states.len() {
            assert(after[i].org == states[i].org && after[i].agent_id == states[i].agent_id);
            assert(after[j].org == states[j].org && after[j].agent_id == states[j].agent_id);
        } else if j == states.len() {
            assert(!p(i));
        }
    }
}

proof fn edges_seen_keeps_keys(states: Seq<ApiRunnerState>, ts: i64, rows: Seq<ApiRunnerRow>)
    requires
        distinct_runners(states),
    ensures
        distinct_runners(edges_seen(states, ts, rows)),
    decreases rows.len(),
{
    if rows.len() > 0 {
        edges_seen_keeps_keys(states, ts, rows.drop_last());
        edge_seen_keeps_keys(edges_seen(states, ts, rows.drop_last()), ts, rows.last());
    }
}

pub(crate) proof fn edges_after_keeps_keys(states: Seq<ApiRunnerState>, ts: i64, outcomes: Seq<ApiOrgOutcome>)
    requires
        distinct_runners(states),
    ensures
        distinct_runners(edges_after(states, ts, outcomes)),
    decreases outcomes.len(),
{
    if outcomes.len() > 0 {
        edges_after_keeps_keys(states, ts, outcomes.drop_last());
        edges_seen_keeps_keys(
            edges_after(states, ts, outcomes.drop_last()),
            ts,
            outcomes.last().rows_seq(),
        );
    }
}

// ---------------------------------------------------------------------------
// Health and audit
// ---------------------------------------------------------------------------

/// The label of a failure, where there was one.
pub open spec fn failure_label(kind: Option<ApiErrorKind>) -> Option<Seq<char>> {
    match kind {
        Some(k) => Some(k.label_text()),
        None => None,
    }
}

/// The HTTP status of a failure, where there was one.
pub open spec fn failure_status(kind: Option<ApiErrorKind>) -> Option<u16> {
    match kind {
        Some(k) => k.status(),
        None => None,
    }
}

/// The health row that an outcome gives by itself.
pub open spec fn health_of(ts: i64, o: ApiOrgOutcome) -> Health {
    Health {
        org: o.org_name()@,
        last_ok_ts: if o is Fetched {
            Some(ts)
        } else {
            None
        },
        last_try_ts: ts,
        ok: o is Fetched,
        http_status: failure_status(o.failure()),
        error_kind: failure_label(o.failure()),
        configured: !(o is Unconfigured),
    }
}

/// The audit row of an outcome.
pub open spec fn audit_of(ts: i64, o: ApiOrgOutcome) -> Audit {
    Audit {
        ts,
        org: o.org_name()@,
        ok: o is Fetched,
        http_status: failure_status(o.failure()),
        error_kind: failure_label(o.failure()),
        runners: o.rows_seq().len() as int,
    }
}

/// Where the health row of `org` stands; the length where there is none.
pub open spec fn org_at(states: Seq<Health>, org: Seq<char>) -> int {
    first_where(|i: int| states[i].org == org, states.len() as int)
}

/// The health rows after one outcome. A failing tick keeps the time of the last
/// success.
pub open spec fn health_seen(states: Seq<Health>, ts: i64, o: ApiOrgOutcome) -> Seq<Health> {
    let row = health_of(ts, o);
    let k = org_at(states, row.org);
    if k < states.len() {
        states.update(
            k,
            Health {
                last_ok_ts: if o is Fetched {
                    Some(ts)
                } else {
                    states[k].last_ok_ts
                },
                ..row
            },
        )
    } else {
        states.push(row)
    }
}

/// The health rows after the outcomes of a tick.
pub open spec fn healths_after(states: Seq<Health>, ts: i64, outcomes: Seq<ApiOrgOutcome>) -> Seq<
    Health,
>
    decreases outcomes.len(),
{
    if outcomes.len() == 0 {
        states
    } else {
        health_seen(healths_after(states, ts, outcomes.drop_last()), ts, outcomes.last())
    }
}

/// A failed or unconfigured org is recorded as such, with its last success kept;
/// a fetched one succeeded at the tick.
pub proof fn failure_keeps_the_last_success(states: Seq<Health>, ts: i64, o: ApiOrgOutcome)
    ensures
        ({
            let k = org_at(states, o.org_name()@);
            let after = health_seen(states, ts, o);
            &&& 0 <= k < after.len()
            &&& after[k].org == o.org_name()@
            &&& after[k].last_try_ts == ts
            &&& after[k].ok == (o is Fetched)
            &&& after[k].configured == !(o is Unconfigured)
            &&& o is Fetched ==> after[k].last_ok_ts == Some(ts) && after[k].error_kind is None
            &&& !(o is Fetched) && k < states.len() ==> after[k].last_ok_ts == states[k].last_ok_ts
            &&& !(o is Fetched) && k == states.len() ==> after[k].last_ok_ts is None
            &&& o is Failed <==> after[k].error_kind is Some
        }),
{
    let p = |i: int| states[i].org == o.org_name()@;
    first_where_is_least(p, states.len() as int);
}

proof fn health_seen_keeps_keys(states: Seq<Health>, ts: i64, o: ApiOrgOutcome)
    requires
        distinct_orgs(states),
    ensures
        distinct_orgs(health_seen(states, ts, o)),
{
    let p = |i: int| states[i].org == o.org_name()@;
    first_where_is_least(p, states.len() as int);
    let k = org_at(states, o.org_name()@);
    let after = health_seen(states, ts, o);
    assert forall|i: int, j: int| 0 <= i < j < after.len() implies #[trigger] after[i].org
        != #[trigger] after[j].org by {
        if k < states.len() {
            assert(p(k));
            assert(after[i].org == states[i].org);
            assert(after[j].org == states[j].org);
        } else if j == states.len() {
            assert(!p(i));
        }
    }
}

proof fn healths_after_keeps_keys(states: Seq<Health>, ts: i64, outcomes: Seq<ApiOrgOutcome>)
    requires
        distinct_orgs(states),
    ensures
        distinct_orgs(healths_after(states, ts, outcomes)),
    decreases outcomes.len(),
{
    if outcomes.len() > 0 {
        healths_after_keeps_keys(states, ts, outcomes.drop_last());
        health_seen_keeps_keys(
            healths_after(states, ts, outcomes.drop_last()),
            ts,
            outcomes.last(),
        );
    }
}

// ---------------------------------------------------------------------------
// Writing
// ---------------------------------------------------------------------------

fn find_runner(states: &Vec<ApiRunnerState>, org: &String, id: i64) -> (k: usize)
    ensures
        k == runner_at(states@, org@, id),
        k <= states@.len(),
{
    let hit = |i: usize| -> (b: bool)
        requires
            i < states@.len(),
        ensures
            b == (states@[i as int].org@ == org@ && states@[i as int].agent_id == id),
    {
        states[i].agent_id == id && states[i].org == *org
    };
    find_row(
        states.len(),
        hit,
        Ghost(|i: int| states@[i].org@ == org@ && states@[i].agent_id == id),
    )
}

fn see_edge(states: &mut Vec<ApiRunnerState>, ts: i64, r: &ApiRunnerRow)
    ensures
        final(states)@ == edge_seen(old(states)@, ts, *r),
{
    let k: usize = find_runner(states, &r.org, r.agent_id);
    if k < states.len() {
        let since: i64 = if states[k].online == r.online {
            states[k].since_ts
        } else {
            ts
        };
        let row = ApiRunnerState {
            org: states[k].org.clone(),
            agent_id: states[k].agent_id,
            online: r.online,
            since_ts: since,
            last_seen_ts: ts,
        };
        states.set(k, row);
    } else {
        states.push(
            ApiRunnerState {
                org: r.org.clone(),
                agent_id: r.agent_id,
                online: r.online,
                since_ts: ts,
                last_seen_ts: ts,
            },
        );
    }
}

/// Write the rows of one org: a sample each, and the edge it drives.
fn write_rows(
    samples: &mut Vec<ApiSample>,
    states: &mut Vec<ApiRunnerState>,
    ts: i64,
    rows: &Vec<ApiRunnerRow>,
)
    ensures
        final(samples)@ == old(samples)@ + rows@.map_values(|r: ApiRunnerRow| reading(ts, r)),
        final(states)@ == edges_seen(old(states)@, ts, rows@),
{
    let ghost all = rows@.map_values(|r: ApiRunnerRow| reading(ts, r));
    let mut i: usize = 0;
    assert(rows@.take(0) =~= seq![]);
    assert(samples@ + all.take(0) =~= samples@);
    while i < rows.len()
        invariant
            i <= rows@.len(),
            all == rows@.map_values(|r: ApiRunnerRow| reading(ts, r)),
            samples@ == old(samples)@ + all.take(i as int),
            states@ == edges_seen(old(states)@, ts, rows@.take(i as int)),
        decreases rows@.len() - i,
    {
        let r = &rows[i];
        samples.push(
            ApiSample {
                ts,
                agent_id: r.agent_id,
                org: r.org.clone(),
                name: r.name.clone(),
                online: r.online,
                busy: r.busy,
            },
        );
        see_edge(states, ts, r);
        proof {
            assert(rows@.take(i + 1).drop_last() =~= rows@.take(i as int));
            assert(rows@.take(i + 1).last() == rows@[i as int]);
            assert(samples@ =~= old(samples)@ + all.take(i + 1));
        }
        i = i + 1;
    }
    assert(rows@.take(i as int) =~= rows@);
    assert(all.take(i as int) =~= all);
}

fn find_org(states: &Vec<ApiReconcileState>, org: &String) -> (k: usize)
    ensures
        k == org_at(healths(states@), org@),
        k <= states@.len(),
{
    let hit = |i: usize| -> (b: bool)
        requires
            i < states@.len(),
        ensures
            b == (healths(states@)[i as int].org == org@),
    {
        states[i].org == *org
    };
    find_row(states.len(), hit, Ghost(|i: int| healths(states@)[i].org == org@))
}

/// The failure of an outcome.
fn failure_of(o: &ApiOrgOutcome) -> (r: Option<ApiErrorKind>)
    ensures
        r == o.failure(),
{
    match o {
        ApiOrgOutcome::Failed { kind, .. } => Some(*kind),
        ApiOrgOutcome::Fetched { .. } | ApiOrgOutcome::Unconfigured { .. } => None,
    }
}

fn label_of(kind: &Option<ApiErrorKind>) -> (r: Option<String>)
    ensures
        opt_view(r) == failure_label(*kind),
{
    match kind {
        Some(k) => Some(k.label()),
        None => None,
    }
}

fn status_of(kind: &Option<ApiErrorKind>) -> (r: Option<u16>)
    ensures
        r == failure_status(*kind),
{
    match kind {
        Some(k) => k.http_status(),
        None => None,
    }
}

fn see_health(states: &mut Vec<ApiReconcileState>, ts: i64, o: &ApiOrgOutcome)
    ensures
        healths(final(states)@) == health_seen(healths(old(states)@), ts, *o),
{
    let kind = failure_of(o);
    let ok = matches!(o, ApiOrgOutcome::Fetched { .. });
    let configured = !matches!(o, ApiOrgOutcome::Unconfigured { .. });
    let org = o.org_owned();
    let k: usize = find_org(states, &org);
    let last_ok: Option<i64> = if ok {
        Some(ts)
    } else if k < states.len() {
        states[k].last_ok_ts
    } else {
        None
    };
    let row = ApiReconcileState {
        org,
        last_ok_ts: last_ok,
        last_try_ts: ts,
        ok,
        http_status: status_of(&kind),
        error_kind: label_of(&kind),
        configured,
    };
    let ghost view = row@;
    if k < states.len() {
        states.set(k, row);
        assert(healths(states@) =~= healths(old(states)@).update(k as int, view));
    } else {
        states.push(row);
        assert(healths(states@) =~= healths(old(states)@).push(view));
    }
}

fn push_audit(samples: &mut Vec<ReconcileSample>, ts: i64, o: &ApiOrgOutcome)
    ensures
        audits(final(samples)@) == audits(old(samples)@).push(audit_of(ts, *o)),
{
    let kind = failure_of(o);
    let (ok, runners): (bool, u64) = match o {
        ApiOrgOutcome::Fetched { rows, .. } => (true, rows.len() as u64),
        ApiOrgOutcome::Failed { .. } | ApiOrgOutcome::Unconfigured { .. } => (false, 0),
    };
    let row = ReconcileSample {
        ts,
        org: o.org_owned(),
        ok,
        http_status: status_of(&kind),
        error_kind: label_of(&kind),
        runners,
    };
    let ghost view = row@;
    samples.push(row);
    assert(audits(samples@) =~= audits(old(samples)@).push(view));
}

/// Whether a round of asking GitHub was recorded, and nothing else.
pub open spec fn api_written(before: Db, after: Db, ts: i64, outcomes: Seq<ApiOrgOutcome>) -> bool {
    &&& after.api_samples@ == readings_after(before.api_samples@, ts, outcomes)
    &&& after.api_states@ == edges_after(before.api_states@, ts, outcomes)
    &&& healths(after.reconcile_states@) == healths_after(
            healths(before.reconcile_states@),
            ts,
            outcomes,
        )
    &&& audits(after.reconcile_samples@) == audits(before.reconcile_samples@)
            + outcomes.map_values(|o: ApiOrgOutcome| audit_of(ts, o))
    &&& after.runner_samples == before.runner_samples
    &&& after.host_samples == before.host_samples
    &&& after.queue_samples == before.queue_samples
    &&& after.runner_states == before.runner_states
    &&& after.jobs == before.jobs
    &&& after.offsets == before.offsets
    &&& before.wf() ==> after.wf()
}

/// Record one tick of asking GitHub, all orgs at one time: the readings, the
/// online edges they drive, each org's health, and the audit trail.
pub fn write_api_runners(db: &mut Db, ts: i64, outcomes: &[ApiOrgOutcome])
    ensures
        api_written(*old(db), *final(db), ts, outcomes@),
{
    let ghost trail = outcomes@.map_values(|o: ApiOrgOutcome| audit_of(ts, o));
    let mut i: usize = 0;
    assert(outcomes@.take(0) =~= seq![]);
    assert(audits(db.reconcile_samples@) + trail.take(0) =~= audits(db.reconcile_samples@));
    while i < outcomes.len()
        invariant
            i <= outcomes@.len(),
            trail == outcomes@.map_values(|o: ApiOrgOutcome| audit_of(ts, o)),
            db.api_samples@ == readings_after(
                old(db).api_samples@,
                ts,
                outcomes@.take(i as int),
            ),
            db.api_states@ == edges_after(old(db).api_states@, ts, outcomes@.take(i as int)),
            healths(db.reconcile_states@) == healths_after(
                healths(old(db).reconcile_states@),
                ts,
                outcomes@.take(i as int),
            ),
            audits(db.reconcile_samples@) == audits(old(db).reconcile_samples@) + trail.take(
                i as int,
            ),
            db.runner_samples == old(db).runner_samples,
            db.host_samples == old(db).host_samples,
            db.queue_samples == old(db).queue_samples,
            db.runner_states == old(db).runner_states,
            db.jobs == old(db).jobs,
            db.offsets == old(db).offsets,
        decreases outcomes@.len() - i,
    {
        let o = &outcomes[i];
        let ghost samples_before = db.api_samples@;
        let ghost states_before = db.api_states@;
        match o {
            ApiOrgOutcome::Fetched { rows, .. } => {
                write_rows(&mut db.api_samples, &mut db.api_states, ts, rows);
            },
            ApiOrgOutcome::Failed { .. } | ApiOrgOutcome::Unconfigured { .. } => {},
        }
        see_health(&mut db.reconcile_states, ts, o);
        push_audit(&mut db.reconcile_samples, ts, o);
        proof {
            let now = outcomes@.take(i + 1);
            assert(now.drop_last() =~= outcomes@.take(i as int));
            assert(now.last() == outcomes@[i as int]);
            if !(*o is Fetched) {
                assert(o.rows_seq() =~= seq![]);
                assert(samples_before + o.rows_seq().map_values(|r: ApiRunnerRow| reading(ts, r))
                    =~= samples_before);
            }
            assert(trail.take(i + 1) =~= trail.take(i as int).push(audit_of(ts, *o)));
            assert(audits(db.reconcile_samples@) =~= audits(old(db).reconcile_samples@)
                + trail.take(i + 1));
        }
        i = i + 1;
    }
    proof {
        assert(outcomes@.take(i as int) =~= outcomes@);
        assert(trail.take(i as int) =~= trail);
        if old(db).wf() {
            edges_after_keeps_keys(old(db).api_states@, ts, outcomes@);
            healths_after_keeps_keys(healths(old(db).reconcile_states@), ts, outcomes@);
        }
    }
}

/// Every org of a tick leaves an audit row, whatever came of it: a tick in which
/// every org fails leaves a trace.
pub proof fn every_outcome_is_audited(ts: i64, outcomes: Seq<ApiOrgOutcome>, i: int)
    requires
        0 <= i < outcomes.len(),
    ensures
        ({
            let row = outcomes.map_values(|o: ApiOrgOutcome| audit_of(ts, o))[i];
            &&& row.ts == ts
            &&& row.org == outcomes[i].org_name()@
            &&& row.ok == (outcomes[i] is Fetched)
            &&& outcomes[i] is Failed <==> row.error_kind is Some
        }),
{
}

} // verus!
