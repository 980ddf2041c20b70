//! What the collector makes of what it is told, value by value.

use vstd::prelude::*;

use crate::collectors::cpu::known;
use crate::collectors::runners::RunnerProbe;
use crate::github::{ApiRunner, RunJob};
use crate::models::{
    ApiErrorKind, ApiOrgOutcome, ApiRunnerRow, JobConclusion, PendingConclusion, RunnerInfo,
    RunnerSample,
};
use crate::path::components;
use crate::serve::github::{
    all_resolved, came_of, conclusion_of, group_key, grouped, has_group, in_run, key_lt, named,
    orgs_of, resolved, run_of, RunGroup,
};
use crate::serve::jobs::{of_log, read_to, TailOffset};
use crate::serve::local::{records, remembered};
use crate::serve::{took, Sample};
use crate::store::rows::{first_where_is_least, first_where_unique};
use crate::store::tables::Db;
use crate::text::{lists, names, text_le, text_le_total};

verus! {

// ---------------------------------------------------------------------------
// Conclusions
// ---------------------------------------------------------------------------

/// The job of a run's answer that tells of a job by its name: the first of that
/// name; and the only one whatever its name.
pub open spec fn tells_of(api: Seq<RunJob>, name: Seq<char>, k: int) -> bool {
    &&& 0 <= k < api.len()
    &&& api.len() > 1 ==> {
        &&& api[k].name@ == name
        &&& forall|i: int| 0 <= i < k ==> (#[trigger] api[i]).name@ != name
    }
}

/// A conclusion resolves what was open, with a job of the run's answer.
pub open spec fn resolves(c: JobConclusion, p: PendingConclusion, j: RunJob) -> bool {
    &&& c.run_id == p.run_id
    &&& c.run_attempt == p.run_attempt
    &&& c.job@ == p.job@
    &&& c.runner_name@ == p.runner_name@
    &&& j.conclusion matches Some(text) && c.conclusion@ == text@
}

proof fn the_conclusion_is_told(api: Seq<RunJob>, name: Seq<char>) -> (k: int)
    ensures
        conclusion_of(api, name) matches Some(c) ==> tells_of(api, name, k) && api[k].conclusion
            == Some(c),
        forall|m: int| #[trigger]
            tells_of(api, name, m) ==> conclusion_of(api, name) == api[m].conclusion,
{
    let p = named(api, name);
    let n = api.len() as int;
    first_where_is_least(p, n);
    let k = crate::store::rows::first_where(p, n);
    if api.len() == 1 {
        assert forall|m: int| #[trigger] tells_of(api, name, m) implies conclusion_of(api, name)
            == api[m].conclusion by {}
        0
    } else {
        assert forall|m: int| #[trigger] tells_of(api, name, m) implies conclusion_of(api, name)
            == api[m].conclusion by {
            assert(p(m));
            assert forall|i: int| 0 <= i < m implies !#[trigger] p(i) by {
                assert(api[i].name@ != name);
            }
            first_where_unique(p, n, m);
        }
        if k < n {
            assert(p(k));
            assert forall|i: int| 0 <= i < k implies (#[trigger] api[i]).name@ != name by {
                assert(!p(i));
            }
        }
        k
    }
}

/// Every open conclusion is resolved that the run's answer tells of: by the first
/// job of the name, wherever it stands, with its conclusion.
pub proof fn every_answered_job_is_resolved(
    pending: Seq<PendingConclusion>,
    api: Seq<RunJob>,
    i: int,
    k: int,
) -> (m: int)
    requires
        0 <= i < pending.len(),
        tells_of(api, pending[i].job@, k),
        api[k].conclusion is Some,
    ensures
        0 <= m < resolved(pending, api).len(),
        resolves(resolved(pending, api)[m], pending[i], api[k]),
    decreases pending.len(),
{
    let init = pending.drop_last();
    let last = pending.last();
    let rest = resolved(init, api);
    if i < pending.len() - 1 {
        assert(init[i] == pending[i]);
        let m = every_answered_job_is_resolved(init, api, i, k);
        assert(resolved(pending, api)[m] == rest[m]);
        m
    } else {
        the_conclusion_is_told(api, last.job@);
        rest.len() as int
    }
}

/// Every conclusion that is reported resolves an open one with the job that tells of
/// it, in the order of what was open, and each once. Gives, for each conclusion, the
/// open one and the job.
pub proof fn resolved_jobs_were_answered(
    pending: Seq<PendingConclusion>,
    api: Seq<RunJob>,
) -> (w: Seq<(int, int)>)
    ensures
        w.len() == resolved(pending, api).len(),
        forall|m: int|
            0 <= m < w.len() ==> {
                &&& 0 <= (#[trigger] w[m]).0 < pending.len()
                &&& tells_of(api, pending[w[m].0].job@, w[m].1)
                &&& resolves(resolved(pending, api)[m], pending[w[m].0], api[w[m].1])
            },
        forall|a: int, b: int|
            0 <= a < b < w.len() ==> (#[trigger] w[a]).0 < (#[trigger] w[b]).0,
    decreases pending.len(),
{
    if pending.len() == 0 {
        Seq::empty()
    } else {
        let init = pending.drop_last();
        let last = pending.last();
        let v = resolved_jobs_were_answered(init, api);
        let k = the_conclusion_is_told(api, last.job@);
        let all = resolved(pending, api);
        let rest = resolved(init, api);
        let w = if conclusion_of(api, last.job@) is Some {
            v.push((pending.len() - 1, k))
        } else {
            v
        };
        assert forall|m: int| 0 <= m < w.len() implies {
            &&& 0 <= (#[trigger] w[m]).0 < pending.len()
            &&& tells_of(api, pending[w[m].0].job@, w[m].1)
            &&& resolves(all[m], pending[w[m].0], api[w[m].1])
        } by {
            if m < v.len() {
                assert(w[m] == v[m]);
                assert(init[v[m].0] == pending[v[m].0]);
                assert(all[m] == rest[m]);
            }
        }
        assert forall|a: int, b: int| 0 <= a < b < w.len() implies (#[trigger] w[a]).0 < (
        #[trigger] w[b]).0 by {
            if b == v.len() {
                assert(w[a] == v[a]);
            } else {
                assert(w[a] == v[a] && w[b] == v[b]);
            }
        }
        w
    }
}

/// One of the conclusions resolves what was open.
pub open spec fn is_resolved(
    r: Seq<JobConclusion>,
    p: PendingConclusion,
    j: RunJob,
) -> bool {
    exists|m: int| 0 <= m < r.len() && resolves(#[trigger] r[m], p, j)
}

/// A conclusion comes from the answer on one of the first `n` runs.
pub open spec fn was_answered(
    groups: Seq<RunGroup>,
    answers: Seq<Option<Vec<RunJob>>>,
    n: int,
    c: JobConclusion,
) -> bool {
    exists|g: int, i: int, k: int|
        0 <= g < n && 0 <= i < groups[g].jobs@.len() && answers[g] is Some && #[trigger] tells_of(
            answers[g]->0@,
            groups[g].jobs@[i].job@,
            k,
        ) && resolves(c, groups[g].jobs@[i], answers[g]->0@[k])
}

/// A cycle resolves every open conclusion that the answer on its run tells of, and
/// reports no other. A run without an answer resolves nothing.
pub proof fn a_cycle_resolves_what_was_answered(
    groups: Seq<RunGroup>,
    answers: Seq<Option<Vec<RunJob>>>,
    n: int,
)
    requires
        0 <= n <= answers.len() <= groups.len(),
    ensures
        forall|g: int, i: int, k: int|
            0 <= g < n && 0 <= i < groups[g].jobs@.len() && answers[g] is Some
                && #[trigger] tells_of(answers[g]->0@, groups[g].jobs@[i].job@, k)
                && answers[g]->0@[k].conclusion is Some ==> is_resolved(
                all_resolved(groups, answers, n),
                groups[g].jobs@[i],
                answers[g]->0@[k],
            ),
        forall|m: int|
            0 <= m < all_resolved(groups, answers, n).len() ==> was_answered(
                groups,
                answers,
                n,
                #[trigger] all_resolved(groups, answers, n)[m],
            ),
    decreases n,
{
    if n > 0 {
        a_cycle_resolves_what_was_answered(groups, answers, n - 1);
        let head = all_resolved(groups, answers, n - 1);
        let all = all_resolved(groups, answers, n);
        let jobs = groups[n - 1].jobs@;
        assert forall|g: int, i: int, k: int|
            0 <= g < n && 0 <= i < groups[g].jobs@.len() && answers[g] is Some
                && #[trigger] tells_of(answers[g]->0@, groups[g].jobs@[i].job@, k)
                && answers[g]->0@[k].conclusion is Some implies is_resolved(
            all,
            groups[g].jobs@[i],
            answers[g]->0@[k],
        ) by {
            if g < n - 1 {
                assert(is_resolved(head, groups[g].jobs@[i], answers[g]->0@[k]));
                let m = choose|m: int|
                    0 <= m < head.len() && resolves(
                        #[trigger] head[m],
                        groups[g].jobs@[i],
                        answers[g]->0@[k],
                    );
                assert(all[m] == head[m]);
            } else {
                let m = every_answered_job_is_resolved(jobs, answers[g]->0@, i, k);
                assert(all[head.len() + m] == resolved(jobs, answers[g]->0@)[m]);
            }
        }
        assert forall|m: int| 0 <= m < all.len() implies was_answered(
            groups,
            answers,
            n,
            #[trigger] all[m],
        ) by {
            if m < head.len() {
                assert(all[m] == head[m]);
                assert(was_answered(groups, answers, n - 1, head[m]));
                let (g, i, k) = choose|g: int, i: int, k: int|
                    0 <= g < n - 1 && 0 <= i < groups[g].jobs@.len() && answers[g] is Some
                        && #[trigger] tells_of(answers[g]->0@, groups[g].jobs@[i].job@, k)
                        && resolves(head[m], groups[g].jobs@[i], answers[g]->0@[k]);
                assert(tells_of(answers[g]->0@, groups[g].jobs@[i].job@, k));
            } else {
                let api = answers[n - 1]->0@;
                let w = resolved_jobs_were_answered(jobs, api);
                let q = w[m - head.len()];
                assert(tells_of(answers[n - 1]->0@, groups[n - 1].jobs@[q.0].job@, q.1));
            }
        }
    }
}

/// What is open is of the run that a group is of.
pub open spec fn is_of_group(p: PendingConclusion, g: RunGroup) -> bool {
    p.org@ == g.org@ && p.repo@ == g.repo@ && p.run_id == g.run_id
}

/// One of the groups is of what is open, and holds it.
pub open spec fn is_grouped(groups: Seq<RunGroup>, p: PendingConclusion) -> bool {
    exists|g: int|
        0 <= g < groups.len() && is_of_group(p, #[trigger] groups[g]) && groups[g].jobs@.contains(p)
}

/// Grouping by run leaves nothing out and adds nothing: each open conclusion stands
/// in the group of its run; a group holds open conclusions of its run alone; and no
/// two groups are of one run. The groups are in the order of their orgs,
/// repositories and runs.
pub proof fn grouping_keeps_what_is_open(groups: Seq<RunGroup>, pending: Seq<PendingConclusion>)
    requires
        grouped(groups, pending),
    ensures
        forall|i: int| 0 <= i < pending.len() ==> is_grouped(groups, #[trigger] pending[i]),
        forall|g: int, k: int|
            0 <= g < groups.len() && 0 <= k < groups[g].jobs@.len() ==> pending.contains(
                #[trigger] groups[g].jobs@[k],
            ) && is_of_group(groups[g].jobs@[k], groups[g]),
        forall|a: int, b: int|
            0 <= a < b < groups.len() ==> {
                &&& text_le((#[trigger] groups[a]).org@, (#[trigger] groups[b]).org@)
                &&& groups[a].org@ == groups[b].org@ ==> text_le(groups[a].repo@, groups[b].repo@)
                &&& groups[a].org@ == groups[b].org@ && groups[a].repo@ == groups[b].repo@
                    ==> groups[a].run_id < groups[b].run_id
            },
{
    broadcast use vstd::seq_lib::group_filter_ensures;

    assert forall|i: int| 0 <= i < pending.len() implies is_grouped(groups, #[trigger] pending[i]) by {
        assert(has_group(groups, run_of(pending[i])));
        let g = choose|g: int|
            0 <= g < groups.len() && group_key(#[trigger] groups[g]) == run_of(pending[i]);
        let p = in_run(group_key(groups[g]));
        assert(p(pending[i]));
        assert(groups[g].jobs@ == pending.filter(p));
        assert(pending.filter(p).contains(pending[i]));
        assert(is_of_group(pending[i], groups[g]));
    }
    assert forall|g: int, k: int|
        0 <= g < groups.len() && 0 <= k < groups[g].jobs@.len() implies pending.contains(
        #[trigger] groups[g].jobs@[k],
    ) && is_of_group(groups[g].jobs@[k], groups[g]) by {
        let p = in_run(group_key(groups[g]));
        assert(groups[g].jobs@ == pending.filter(p));
        assert(pending.filter(p).contains(groups[g].jobs@[k]));
        assert(p(groups[g].jobs@[k]));
        pending.lemma_filter_contains_rev(p, groups[g].jobs@[k]);
    }
    assert forall|a: int, b: int| 0 <= a < b < groups.len() implies {
        &&& text_le((#[trigger] groups[a]).org@, (#[trigger] groups[b]).org@)
        &&& groups[a].org@ == groups[b].org@ ==> text_le(groups[a].repo@, groups[b].repo@)
        &&& groups[a].org@ == groups[b].org@ && groups[a].repo@ == groups[b].repo@
            ==> groups[a].run_id < groups[b].run_id
    } by {
        assert(key_lt(group_key(groups[a]), group_key(groups[b])));
        text_le_total(groups[a].org@, groups[a].org@);
        text_le_total(groups[a].repo@, groups[a].repo@);
    }
}

// ---------------------------------------------------------------------------
// What GitHub answered
// ---------------------------------------------------------------------------

/// A fetched row carries what GitHub listed of a runner: online where its status
/// says so, and not otherwise.
pub open spec fn carries_runner(row: ApiRunnerRow, org: Seq<char>, r: ApiRunner) -> bool {
    &&& row.agent_id == r.id
    &&& row.org@ == org
    &&& row.name@ == r.name@
    &&& row.online <==> r.status@ == "online"@
    &&& row.busy == r.busy
}

/// What comes of asking about an org: without a token, that it is not configured; a
/// list of runners gives a row for each, in its order; a failure gives its kind. The
/// org is the one that was asked about.
pub proof fn an_answer_is_carried(
    o: ApiOrgOutcome,
    org: Seq<char>,
    has_token: bool,
    answer: Result<Vec<ApiRunner>, ApiErrorKind>,
)
    requires
        came_of(o, org, has_token, answer),
    ensures
        match o {
            ApiOrgOutcome::Unconfigured { org: name } => name@ == org && !has_token,
            ApiOrgOutcome::Failed { org: name, kind } => name@ == org && has_token && answer == Err::<
                Vec<ApiRunner>,
                ApiErrorKind,
            >(kind),
            ApiOrgOutcome::Fetched { org: name, rows } => {
                &&& name@ == org && has_token
                &&& answer matches Ok(runners)
                &&& rows@.len() == runners@.len()
                &&& forall|i: int|
                    0 <= i < rows@.len() ==> carries_runner(#[trigger] rows@[i], org, runners@[i])
            },
        },
{
}

/// One of the runners is of the org.
pub open spec fn some_runner_of(found: Seq<RunnerInfo>, org: Seq<char>) -> bool {
    exists|i: int| 0 <= i < found.len() && (#[trigger] found[i]).org@ == org
}

/// The orgs of the runners found are those that the runners name, each once.
pub proof fn the_orgs_are_the_runners(r: Seq<String>, found: Seq<RunnerInfo>)
    requires
        lists(names(r), orgs_of(found).to_set()),
    ensures
        forall|i: int| 0 <= i < found.len() ==> names(r).contains((#[trigger] found[i]).org@),
        forall|k: int|
            0 <= k < r.len() ==> some_runner_of(found, (#[trigger] r[k])@),
        forall|a: int, b: int| 0 <= a < b < r.len() ==> (#[trigger] r[a])@ != (#[trigger] r[b])@,
{
    let orgs = orgs_of(found);
    assert forall|i: int| 0 <= i < found.len() implies names(r).contains((#[trigger] found[i]).org@) by {
        assert(orgs[i] == found[i].org@);
        assert(orgs.to_set().contains(orgs[i]));
    }
    assert forall|k: int| 0 <= k < r.len() implies some_runner_of(found, (#[trigger] r[k])@) by {
        assert(names(r)[k] == r[k]@);
        assert(names(r).contains(r[k]@));
        assert(orgs.to_set().contains(r[k]@));
        let i = choose|i: int| 0 <= i < orgs.len() && orgs[i] == r[k]@;
        assert(found[i].org@ == r[k]@);
    }
    assert forall|a: int, b: int| 0 <= a < b < r.len() implies (#[trigger] r[a])@ != (
    #[trigger] r[b])@ by {
        assert(names(r)[a] != names(r)[b]);
    }
}

// ---------------------------------------------------------------------------
// Samples
// ---------------------------------------------------------------------------

/// A sample carries what its probe found, at the time of the round: which runner it
/// is of, how alive it was, and what it used. The use of the processor is open, and
/// no run is claimed.
pub proof fn a_sample_carries_its_probe(s: RunnerSample, p: RunnerProbe, now: i64)
    requires
        records(s, p, now),
    ensures
        s.ts == now,
        s.agent_id == p.info.agent_id,
        s.dir@ == p.info.dir@ && s.name@ == p.info.name@ && s.org@ == p.info.org@,
        s.liveness == p.liveness,
        s.mem_bytes == p.mem_bytes,
        s.mem_current_bytes == p.mem_current_bytes,
        s.uptime_s == p.uptime_s,
        s.cpu_pct is None && s.current_run_id is None,
{
}

/// Each kind of sample is written to the tables it is for: the samples of a round,
/// one audit row for each org that was asked about, the jobs of the events and how
/// far their log was read; a conclusion adds no row.
pub proof fn a_sample_reaches_its_tables(before: Db, after: Db, sample: Sample)
    requires
        took(before, after, sample),
    ensures
        match sample {
            Sample::Local { runners, host } => {
                &&& after.runner_samples@ == before.runner_samples@ + runners@
                &&& after.host_samples@ == before.host_samples@.push(host)
                &&& crate::store::writer::local_written(before, after, runners@, host)
            },
            Sample::Api { ts, outcomes } => {
                &&& after.reconcile_samples@.len() == before.reconcile_samples@.len()
                    + outcomes@.len()
                &&& crate::store::writer::github::api_written(before, after, ts, outcomes@)
            },
            Sample::Hook { stream, events, offset } => {
                &&& exists|k: int|
                    0 <= k < after.offsets@.len() && (#[trigger] after.offsets@[k]).stream@
                        == stream@ && after.offsets@[k].offset == offset as i64
                &&& crate::store::writer::jobs::hooks_applied(
                    before,
                    after,
                    stream@,
                    events@,
                    offset,
                )
            },
            Sample::JobConclusions { updates } => {
                &&& after.jobs@.len() == before.jobs@.len()
                &&& crate::store::writer::jobs::conclusions_applied(before, after, updates@)
            },
        },
{
    match sample {
        Sample::Local { .. } => {},
        Sample::Api { ts, outcomes } => {
            crate::store::writer::laws::a_round_is_audited(before, after, ts, outcomes@);
        },
        Sample::Hook { stream, events, offset } => {
            let rows = crate::store::tables::offset_rows(before.offsets@);
            crate::store::writer::jobs::offsets_are_independent(rows, stream@, offset as i64);
            let late = crate::store::tables::offset_rows(after.offsets@);
            let k = crate::store::writer::jobs::stream_at(rows, stream@);
            assert(late[k] == (after.offsets@[k].stream@, after.offsets@[k].offset));
        },
        Sample::JobConclusions { .. } => {
            assert(crate::store::tables::job_rows(after.jobs@).len()
                == crate::store::tables::job_rows(before.jobs@).len());
        },
    }
}

/// A log is read on from where its first row says; one without a row from its start.
pub proof fn a_log_is_read_on(rows: Seq<TailOffset>, stream: Seq<char>)
    ensures
        forall|k: int|
            0 <= k < rows.len() && (#[trigger] rows[k]).stream@ == stream && (forall|i: int|
                0 <= i < k ==> (#[trigger] rows[i]).stream@ != stream) ==> read_to(rows, stream)
                == rows[k].offset,
        (forall|i: int| 0 <= i < rows.len() ==> (#[trigger] rows[i]).stream@ != stream)
            ==> read_to(rows, stream) == 0,
{
    let p = of_log(rows, stream);
    let n = rows.len() as int;
    first_where_is_least(p, n);
    assert forall|k: int|
        0 <= k < rows.len() && (#[trigger] rows[k]).stream@ == stream && (forall|i: int|
            0 <= i < k ==> (#[trigger] rows[i]).stream@ != stream) implies read_to(rows, stream)
        == rows[k].offset by {
        assert(p(k));
        assert forall|i: int| 0 <= i < k implies !#[trigger] p(i) by {
            assert(rows[i].stream@ != stream);
        }
        first_where_unique(p, n, k);
    }
}

/// After a round, what is known of a runner's use of the processor is what its last
/// probe in the round read, and when; nothing, where that read nothing.
pub proof fn a_round_is_remembered(
    m: Map<Seq<Seq<char>>, (u64, u64)>,
    probes: Seq<RunnerProbe>,
    n: int,
    at: u64,
    i: int,
)
    requires
        0 <= i < n <= probes.len(),
        forall|k: int|
            i < k < n ==> components((#[trigger] probes[k]).info.dir@) != components(
                probes[i].info.dir@,
            ),
    ensures
        known(remembered(m, probes, n, at), components(probes[i].info.dir@)) == (
        match probes[i].cpu_usage_usec {
            Some(u) => Some((u, at)),
            None => None,
        }),
    decreases n,
{
    if i < n - 1 {
        a_round_is_remembered(m, probes, n - 1, at, i);
        assert(components(probes[n - 1].info.dir@) != components(probes[i].info.dir@));
    }
}

} // verus!
