//! The reconciler: what GitHub says of each org, and how well it could be asked.

use vstd::prelude::*;
use vstd::string::*;

use crate::config::{token_for, Config};
use crate::github::{ApiRunner, RunJob};
use crate::models::{
    copy_text, ApiErrorKind, ApiOrgOutcome, ApiRunnerRow, JobConclusion, PendingConclusion,
    RunnerInfo,
};
use crate::store::rows::{find_row, first_where};
use crate::text::{
    lists, names, owned, same, sorted_set, text_at_or_before, text_le, text_le_antisymmetric,
    text_le_total, text_le_transitive,
};

verus! {

/// How many open conclusions one cycle resolves at most.
pub const JOB_RECONCILE_LIMIT: usize = 200;

/// Seconds between two cycles: never less than ten.
pub fn api_wait(api_secs: u64) -> (r: u64)
    ensures
        r == if api_secs < 10 {
            10
        } else {
            api_secs
        },
{
    if api_secs < 10 {
        10
    } else {
        api_secs
    }
}

// ---------------------------------------------------------------------------
// Orgs
// ---------------------------------------------------------------------------

/// The orgs of runners.
pub open spec fn orgs_of(infos: Seq<RunnerInfo>) -> Seq<Seq<char>> {
    infos.map_values(|i: RunnerInfo| i.org@)
}

/// The orgs to ask about, sorted, each once: those configured, or, where none is,
/// those of the runners found.
pub fn orgs_to_ask(configured: &[String], found: &[RunnerInfo]) -> (r: Vec<String>)
    ensures
        lists(
            names(r@),
            if configured@.len() > 0 {
                names(configured@).to_set()
            } else {
                orgs_of(found@).to_set()
            },
        ),
{
    if configured.len() > 0 {
        return sorted_set(configured);
    }
    orgs_found(found)
}

/// The orgs of the runners found, sorted, each once.
pub fn orgs_found(found: &[RunnerInfo]) -> (r: Vec<String>)
    ensures
        lists(names(r@), orgs_of(found@).to_set()),
{
    let mut orgs: Vec<String> = Vec::new();
    let mut i: usize = 0;
    while i < found.len()
        invariant
            i <= found@.len(),
            orgs@.len() == i,
            forall|k: int| 0 <= k < i ==> (#[trigger] orgs@[k])@ == found@[k].org@,
        decreases found@.len() - i,
    {
        orgs.push(owned(found[i].org.as_str()));
        i = i + 1;
    }
    assert(names(orgs@) =~= orgs_of(found@));
    sorted_set(orgs.as_slice())
}

/// What GitHub says of a runner, as a row.
pub open spec fn row_says(row: ApiRunnerRow, org: Seq<char>, r: ApiRunner) -> bool {
    &&& row.agent_id == r.id
    &&& row.org@ == org
    &&& row.name == r.name
    &&& row.online == (r.status@ == "online"@)
    &&& row.busy == r.busy
}

/// Whether rows are what GitHub listed for an org.
pub open spec fn rows_say(rows: Seq<ApiRunnerRow>, org: Seq<char>, runners: Seq<ApiRunner>) -> bool {
    &&& rows.len() == runners.len()
    &&& forall|i: int| 0 <= i < rows.len() ==> row_says(#[trigger] rows[i], org, runners[i])
}

/// Whether an outcome is what came of asking about an org. An org without a token
/// is not configured, whatever else; one that could not be asked has failed, which
/// is not the same as having no runners.
pub open spec fn came_of(
    o: ApiOrgOutcome,
    org: Seq<char>,
    has_token: bool,
    answer: Result<Vec<ApiRunner>, ApiErrorKind>,
) -> bool {
    if !has_token {
        o matches ApiOrgOutcome::Unconfigured { org: name } && name@ == org
    } else {
        match answer {
            Ok(runners) => o matches ApiOrgOutcome::Fetched { org: name, rows } && name@ == org
                && rows_say(rows@, org, runners@),
            Err(kind) => o matches ApiOrgOutcome::Failed { org: name, kind: k } && name@ == org
                && k == kind,
        }
    }
}

/// What comes of asking about one org.
pub fn org_outcome(
    org: &str,
    has_token: bool,
    answer: &Result<Vec<ApiRunner>, ApiErrorKind>,
) -> (r: ApiOrgOutcome)
    ensures
        came_of(r, org@, has_token, *answer),
{
    if !has_token {
        return ApiOrgOutcome::Unconfigured { org: owned(org) };
    }
    match answer {
        Ok(runners) => {
            let mut rows: Vec<ApiRunnerRow> = Vec::new();
            let mut i: usize = 0;
            while i < runners.len()
                invariant
                    i <= runners@.len(),
                    rows@.len() == i,
                    forall|k: int|
                        0 <= k < i ==> row_says(#[trigger] rows@[k], org@, runners@[k]),
                decreases runners@.len() - i,
            {
                let r = &runners[i];
                rows.push(
                    ApiRunnerRow {
                        agent_id: r.id,
                        org: owned(org),
                        name: r.name.clone(),
                        online: same(r.status.as_str(), "online"),
                        busy: r.busy,
                    },
                );
                i = i + 1;
            }
            ApiOrgOutcome::Fetched { org: owned(org), rows }
        },
        Err(kind) => ApiOrgOutcome::Failed { org: owned(org), kind: *kind },
    }
}

/// What came of a cycle: one outcome for each org that was reached, in order.
/// `answers` holds what GitHub answered on the orgs up to where the cycle was
/// stopped; the answer for an org without a token does not count. A failure stays
/// with its org.
pub fn gather_api(
    cfg: &Config,
    variable: Option<&str>,
    orgs: &[String],
    answers: &[Result<Vec<ApiRunner>, ApiErrorKind>],
) -> (r: Vec<ApiOrgOutcome>)
    requires
        answers@.len() <= orgs@.len(),
    ensures
        r@.len() == answers@.len(),
        forall|i: int|
            0 <= i < r@.len() ==> came_of(
                #[trigger] r@[i],
                orgs@[i]@,
                token_for(cfg.github, variable, orgs@[i]@) is Some,
                answers@[i],
            ),
{
    let mut out: Vec<ApiOrgOutcome> = Vec::new();
    let mut i: usize = 0;
    while i < answers.len()
        invariant
            i <= answers@.len() <= orgs@.len(),
            out@.len() == i,
            forall|k: int|
                0 <= k < i ==> came_of(
                    #[trigger] out@[k],
                    orgs@[k]@,
                    token_for(cfg.github, variable, orgs@[k]@) is Some,
                    answers@[k],
                ),
        decreases answers@.len() - i,
    {
        let has_token = cfg.github_token_for(variable, orgs[i].as_str()).is_some();
        out.push(org_outcome(orgs[i].as_str(), has_token, &answers[i]));
        i = i + 1;
    }
    out
}

/// Not knowing is told apart from knowing there is nothing: an org that could not
/// be asked, and one without a token, never look like one without runners.
pub proof fn failures_are_not_empty_answers(
    o: ApiOrgOutcome,
    org: Seq<char>,
    has_token: bool,
    answer: Result<Vec<ApiRunner>, ApiErrorKind>,
)
    requires
        came_of(o, org, has_token, answer),
    ensures
        o is Fetched <==> has_token && answer is Ok,
        o is Failed <==> has_token && answer is Err,
        o is Unconfigured <==> !has_token,
{
}

// ---------------------------------------------------------------------------
// Conclusions
// ---------------------------------------------------------------------------

/// The open conclusions of one workflow run.
#[derive(Debug)]
pub struct RunGroup {
    pub org: String,
    pub repo: String,
    pub run_id: i64,
    pub jobs: Vec<PendingConclusion>,
}

/// Strictly before, in text order.
pub open spec fn text_lt(a: Seq<char>, b: Seq<char>) -> bool {
    text_le(a, b) && a != b
}

/// What names a workflow run.
pub struct RunKey {
    pub org: Seq<char>,
    pub repo: Seq<char>,
    pub run_id: i64,
}

/// The order of workflow runs: by org, repository and number.
pub open spec fn key_lt(a: RunKey, b: RunKey) -> bool {
    text_lt(a.org, b.org) || a.org == b.org && (text_lt(a.repo, b.repo) || a.repo == b.repo
        && a.run_id < b.run_id)
}

/// The run of an open conclusion.
pub open spec fn run_of(p: PendingConclusion) -> RunKey {
    RunKey { org: p.org@, repo: p.repo@, run_id: p.run_id }
}

/// The run of a group.
pub open spec fn group_key(g: RunGroup) -> RunKey {
    RunKey { org: g.org@, repo: g.repo@, run_id: g.run_id }
}

/// Belonging to a run.
pub open spec fn in_run(key: RunKey) -> spec_fn(PendingConclusion) -> bool {
    |p: PendingConclusion| run_of(p) == key
}

/// Some group is of this run.
pub open spec fn has_group(groups: Seq<RunGroup>, key: RunKey) -> bool {
    exists|g: int| 0 <= g < groups.len() && group_key(#[trigger] groups[g]) == key
}

/// Whether open conclusions are grouped by their runs: the runs in order, each
/// once, with its conclusions in the order in which they came.
pub open spec fn grouped(groups: Seq<RunGroup>, pending: Seq<PendingConclusion>) -> bool {
    &&& forall|a: int, b: int|
        0 <= a < b < groups.len() ==> key_lt(
            group_key(#[trigger] groups[a]),
            group_key(#[trigger] groups[b]),
        )
    &&& forall|g: int|
        0 <= g < groups.len() ==> (#[trigger] groups[g]).jobs@ == pending.filter(
            in_run(group_key(groups[g])),
        ) && groups[g].jobs@.len() > 0
    &&& forall|i: int| 0 <= i < pending.len() ==> has_group(groups, run_of(#[trigger] pending[i]))
}

proof fn text_lt_facts(a: Seq<char>, b: Seq<char>, c: Seq<char>)
    ensures
        text_lt(a, b) || a == b || text_lt(b, a),
        !(text_lt(a, b) && text_lt(b, a)),
        text_lt(a, b) && text_lt(b, c) ==> text_lt(a, c),
{
    text_le_total(a, b);
    if text_le(a, b) && text_le(b, a) {
        text_le_antisymmetric(a, b);
    }
    if text_lt(a, b) && text_lt(b, c) {
        text_le_transitive(a, b, c);
        if a == c {
            text_le_antisymmetric(a, b);
        }
    }
}

proof fn key_order(a: RunKey, b: RunKey, c: RunKey)
    ensures
        key_lt(a, b) || a == b || key_lt(b, a),
        !(key_lt(a, b) && key_lt(b, a)),
        key_lt(a, b) ==> a != b,
        key_lt(a, b) && key_lt(b, c) ==> key_lt(a, c),
{
    text_lt_facts(a.org, b.org, c.org);
    text_lt_facts(a.repo, b.repo, c.repo);
    text_lt_facts(b.org, c.org, a.org);
    text_lt_facts(b.repo, c.repo, a.repo);
}

fn text_before(a: &str, b: &str) -> (r: bool)
    ensures
        r == text_lt(a@, b@),
{
    text_at_or_before(a, b) && !same(a, b)
}

fn group_before(g: &RunGroup, p: &PendingConclusion) -> (r: bool)
    ensures
        r == key_lt(group_key(*g), run_of(*p)),
{
    if text_before(g.org.as_str(), p.org.as_str()) {
        return true;
    }
    if !same(g.org.as_str(), p.org.as_str()) {
        return false;
    }
    if text_before(g.repo.as_str(), p.repo.as_str()) {
        return true;
    }
    same(g.repo.as_str(), p.repo.as_str()) && g.run_id < p.run_id
}

fn same_run(g: &RunGroup, p: &PendingConclusion) -> (r: bool)
    ensures
        r == (group_key(*g) == run_of(*p)),
{
    same(g.org.as_str(), p.org.as_str()) && same(g.repo.as_str(), p.repo.as_str()) && g.run_id
        == p.run_id
}

proof fn filter_more(s: Seq<PendingConclusion>, i: int, key: RunKey)
    requires
        0 <= i < s.len(),
    ensures
        s.take(i + 1).filter(in_run(key)) == if run_of(s[i]) == key {
            s.take(i).filter(in_run(key)).push(s[i])
        } else {
            s.take(i).filter(in_run(key))
        },
{
    reveal(Seq::filter);
    assert(s.take(i + 1).drop_last() =~= s.take(i));
    assert(s.take(i + 1).last() == s[i]);
}

proof fn filter_of_none(s: Seq<PendingConclusion>, key: RunKey)
    requires
        forall|i: int| 0 <= i < s.len() ==> run_of(#[trigger] s[i]) != key,
    ensures
        s.filter(in_run(key)) == Seq::<PendingConclusion>::empty(),
    decreases s.len(),
{
    reveal(Seq::filter);
    if s.len() > 0 {
        assert forall|i: int| 0 <= i < s.drop_last().len() implies run_of(
            #[trigger] s.drop_last()[i],
        ) != key by {
            assert(run_of(s[i]) != key);
        }
        filter_of_none(s.drop_last(), key);
        assert(run_of(s[s.len() - 1]) != key);
    }
    assert(s.filter(in_run(key)) =~= Seq::<PendingConclusion>::empty());
}

/// A group more: it stands in its place, and the others are as they were.
proof fn new_group(
    was: Seq<RunGroup>,
    now: Seq<RunGroup>,
    pending: Seq<PendingConclusion>,
    i: int,
    p: int,
)
    requires
        0 <= i < pending.len(),
        grouped(was, pending.take(i)),
        0 <= p <= was.len(),
        forall|k: int| 0 <= k < p ==> key_lt(group_key(#[trigger] was[k]), run_of(pending[i])),
        p < was.len() ==> !key_lt(group_key(was[p]), run_of(pending[i])),
        p < was.len() ==> group_key(was[p]) != run_of(pending[i]),
        now.len() == was.len() + 1,
        forall|k: int| 0 <= k < p ==> #[trigger] now[k] == was[k],
        forall|k: int| p < k < now.len() ==> #[trigger] now[k] == was[k - 1],
        group_key(now[p]) == run_of(pending[i]),
        now[p].jobs@ == seq![pending[i]],
    ensures
        grouped(now, pending.take(i + 1)),
{
    let key = run_of(pending[i]);
    let before = pending.take(i);
    let after = pending.take(i + 1);
    assert forall|k: int| 0 <= k < was.len() implies (if k < p {
        key_lt(group_key(#[trigger] was[k]), key)
    } else {
        key_lt(key, group_key(was[k]))
    }) by {
        if k >= p {
            key_order(group_key(was[p]), key, key);
            if k > p {
                assert(key_lt(group_key(was[p]), group_key(was[k])));
                key_order(key, group_key(was[p]), group_key(was[k]));
            }
        }
    }
    assert forall|a: int, b: int| 0 <= a < b < now.len() implies key_lt(
        group_key(#[trigger] now[a]),
        group_key(#[trigger] now[b]),
    ) by {
        let wa = if a < p {
            a
        } else {
            a - 1
        };
        let wb = if b < p {
            b
        } else {
            b - 1
        };
        if a != p && b != p {
            assert(key_lt(group_key(was[wa]), group_key(was[wb])));
        } else if a == p {
            assert(key_lt(key, group_key(was[wb])));
        } else {
            assert(key_lt(group_key(was[wa]), key));
        }
    }
    assert forall|k: int| 0 <= k < before.len() implies run_of(#[trigger] before[k]) != key by {
        assert(has_group(was, run_of(before[k])));
        let g = choose|g: int| 0 <= g < was.len() && group_key(#[trigger] was[g]) == run_of(before[k]);
        if g < p {
            assert(key_lt(group_key(was[g]), key));
        } else {
            assert(key_lt(key, group_key(was[g])));
        }
        key_order(group_key(was[g]), key, key);
        key_order(key, group_key(was[g]), key);
    }
    filter_of_none(before, key);
    assert forall|g: int| 0 <= g < now.len() implies (#[trigger] now[g]).jobs@ == after.filter(
        in_run(group_key(now[g])),
    ) && now[g].jobs@.len() > 0 by {
        filter_more(pending, i, group_key(now[g]));
        if g == p {
            assert(now[p].jobs@ =~= Seq::<PendingConclusion>::empty().push(pending[i]));
        } else {
            let w = if g < p {
                g
            } else {
                g - 1
            };
            assert(now[g] == was[w]);
            assert(was[w].jobs@ == before.filter(in_run(group_key(was[w]))));
            key_order(group_key(was[w]), key, key);
            key_order(key, group_key(was[w]), key);
        }
    }
    assert forall|g: int| 0 <= g < was.len() implies has_group(now, group_key(#[trigger] was[g])) by {
        if g < p {
            assert(now[g] == was[g]);
        } else {
            assert(now[g + 1] == was[g]);
        }
    }
    covered(was, now, pending, i, p);
}

proof fn covered(
    was: Seq<RunGroup>,
    now: Seq<RunGroup>,
    pending: Seq<PendingConclusion>,
    i: int,
    p: int,
)
    requires
        0 <= i < pending.len(),
        0 <= p < now.len(),
        group_key(now[p]) == run_of(pending[i]),
        forall|k: int|
            0 <= k < pending.take(i).len() ==> has_group(was, run_of(#[trigger] pending.take(i)[k])),
        forall|g: int|
            0 <= g < was.len() ==> has_group(now, group_key(#[trigger] was[g])),
    ensures
        forall|k: int|
            0 <= k < pending.take(i + 1).len() ==> has_group(
                now,
                run_of(#[trigger] pending.take(i + 1)[k]),
            ),
{
    let after = pending.take(i + 1);
    assert forall|k: int| 0 <= k < after.len() implies has_group(now, run_of(#[trigger] after[k])) by {
        if k == i {
            assert(group_key(now[p]) == run_of(after[k]));
        } else {
            assert(pending.take(i)[k] == after[k]);
            assert(has_group(was, run_of(pending.take(i)[k])));
            let g = choose|g: int|
                0 <= g < was.len() && group_key(#[trigger] was[g]) == run_of(after[k]);
            assert(has_group(now, group_key(was[g])));
        }
    }
}

/// A conclusion more in a group that is there.
proof fn longer_group(
    was: Seq<RunGroup>,
    now: Seq<RunGroup>,
    pending: Seq<PendingConclusion>,
    i: int,
    p: int,
)
    requires
        0 <= i < pending.len(),
        grouped(was, pending.take(i)),
        0 <= p < was.len(),
        group_key(was[p]) == run_of(pending[i]),
        now.len() == was.len(),
        forall|k: int| 0 <= k < was.len() && k != p ==> #[trigger] now[k] == was[k],
        group_key(now[p]) == group_key(was[p]),
        now[p].jobs@ == was[p].jobs@.push(pending[i]),
    ensures
        grouped(now, pending.take(i + 1)),
{
    let key = run_of(pending[i]);
    assert forall|k: int| 0 <= k < now.len() implies group_key(#[trigger] now[k]) == group_key(
        was[k],
    ) by {}
    assert forall|a: int, b: int| 0 <= a < b < now.len() implies key_lt(
        group_key(#[trigger] now[a]),
        group_key(#[trigger] now[b]),
    ) by {
        assert(key_lt(group_key(was[a]), group_key(was[b])));
    }
    assert forall|g: int| 0 <= g < now.len() implies (#[trigger] now[g]).jobs@ == pending.take(
        i + 1,
    ).filter(in_run(group_key(now[g]))) && now[g].jobs@.len() > 0 by {
        filter_more(pending, i, group_key(now[g]));
        assert(was[g].jobs@ == pending.take(i).filter(in_run(group_key(was[g]))));
        if g < p {
            assert(key_lt(group_key(was[g]), group_key(was[p])));
            key_order(group_key(was[g]), group_key(was[p]), key);
        } else if g > p {
            assert(key_lt(group_key(was[p]), group_key(was[g])));
            key_order(group_key(was[p]), group_key(was[g]), key);
        }
    }
    assert forall|g: int| 0 <= g < was.len() implies has_group(now, group_key(#[trigger] was[g])) by {
        assert(group_key(now[g]) == group_key(was[g]));
    }
    covered(was, now, pending, i, p);
}

/// Group open conclusions by their workflow runs: one call answers for a whole run.
pub fn group_by_run(pending: &[PendingConclusion]) -> (r: Vec<RunGroup>)
    ensures
        grouped(r@, pending@),
{
    let mut out: Vec<RunGroup> = Vec::new();
    let mut i: usize = 0;
    proof {
        reveal(Seq::filter);
    }
    while i < pending.len()
        invariant
            i <= pending@.len(),
            grouped(out@, pending@.take(i as int)),
        decreases pending@.len() - i,
    {
        let ghost was = out@;
        let mut p: usize = 0;
        while p < out.len() && group_before(&out[p], &pending[i])
            invariant
                p <= out@.len(),
                i < pending@.len(),
                out@ == was,
                forall|k: int|
                    0 <= k < p ==> key_lt(group_key(#[trigger] was[k]), run_of(pending@[i as int])),
            ensures
                p <= out@.len(),
                out@ == was,
                forall|k: int|
                    0 <= k < p ==> key_lt(group_key(#[trigger] was[k]), run_of(pending@[i as int])),
                p < out@.len() ==> !key_lt(group_key(was[p as int]), run_of(pending@[i as int])),
            decreases out@.len() - p,
        {
            p = p + 1;
        }
        if p < out.len() && same_run(&out[p], &pending[i]) {
            let mut g = out.remove(p);
            g.jobs.push(pending[i].clone());
            out.insert(p, g);
            proof {
                assert forall|k: int| 0 <= k < was.len() && k != p implies #[trigger] out@[k]
                    == was[k] by {}
                longer_group(was, out@, pending@, i as int, p as int);
            }
        } else {
            let mut jobs: Vec<PendingConclusion> = Vec::new();
            jobs.push(pending[i].clone());
            assert(jobs@ =~= seq![pending@[i as int]]);
            out.insert(
                p,
                RunGroup {
                    org: owned(pending[i].org.as_str()),
                    repo: owned(pending[i].repo.as_str()),
                    run_id: pending[i].run_id,
                    jobs,
                },
            );
            proof {
                new_group(was, out@, pending@, i as int, p as int);
            }
        }
        i = i + 1;
    }
    assert(pending@.take(i as int) =~= pending@);
    out
}

/// The jobs of a name.
pub open spec fn named(api: Seq<RunJob>, name: Seq<char>) -> spec_fn(int) -> bool {
    |i: int| api[i].name@ == name
}

/// The conclusion of a job: a run's only job's whatever its name, else that of the
/// first job of the name. None while it is running.
pub open spec fn conclusion_of(api: Seq<RunJob>, job: Seq<char>) -> Option<String> {
    if api.len() == 1 {
        api[0].conclusion
    } else {
        let k = first_where(named(api, job), api.len() as int);
        if k < api.len() {
            api[k].conclusion
        } else {
            None
        }
    }
}

/// An open conclusion, resolved.
pub open spec fn resolution(p: PendingConclusion, conclusion: String) -> JobConclusion {
    JobConclusion {
        run_id: p.run_id,
        run_attempt: p.run_attempt,
        job: p.job,
        runner_name: p.runner_name,
        conclusion,
    }
}

/// The open conclusions that a run's jobs resolve.
pub open spec fn resolved(pending: Seq<PendingConclusion>, api: Seq<RunJob>) -> Seq<JobConclusion>
    decreases pending.len(),
{
    if pending.len() == 0 {
        seq![]
    } else {
        let rest = resolved(pending.drop_last(), api);
        match conclusion_of(api, pending.last().job@) {
            Some(c) => rest.push(resolution(pending.last(), c)),
            None => rest,
        }
    }
}

fn find_conclusion(api: &[RunJob], job: &str) -> (r: Option<String>)
    ensures
        r == conclusion_of(api@, job@),
{
    if api.len() == 1 {
        return copy_text(&api[0].conclusion);
    }
    let hit = |i: usize| -> (b: bool)
        requires
            i < api@.len(),
        ensures
            b == (api@[i as int].name@ == job@),
    {
        same(api[i].name.as_str(), job)
    };
    let k = find_row(api.len(), hit, Ghost(named(api@, job@)));
    if k < api.len() {
        copy_text(&api[k].conclusion)
    } else {
        None
    }
}

/// Match open conclusions to a run's jobs. A run with a single job is matched
/// whatever the name; a job that is still running is left for later.
pub fn match_conclusions(pending: &[PendingConclusion], api_jobs: &[RunJob]) -> (r: Vec<
    JobConclusion,
>)
    ensures
        r@ == resolved(pending@, api_jobs@),
{
    let mut out: Vec<JobConclusion> = Vec::new();
    let mut i: usize = 0;
    assert(pending@.take(0) =~= seq![]);
    while i < pending.len()
        invariant
            i <= pending@.len(),
            out@ == resolved(pending@.take(i as int), api_jobs@),
        decreases pending@.len() - i,
    {
        assert(pending@.take(i + 1).drop_last() =~= pending@.take(i as int));
        assert(pending@.take(i + 1).last() == pending@[i as int]);
        let p = &pending[i];
        match find_conclusion(api_jobs, p.job.as_str()) {
            Some(conclusion) => {
                out.push(
                    JobConclusion {
                        run_id: p.run_id,
                        run_attempt: p.run_attempt,
                        job: p.job.clone(),
                        runner_name: p.runner_name.clone(),
                        conclusion,
                    },
                );
            },
            None => {},
        }
        i = i + 1;
    }
    assert(pending@.take(i as int) =~= pending@);
    out
}

/// What the first `n` runs resolve. A run that could not be asked resolves nothing.
pub open spec fn all_resolved(
    groups: Seq<RunGroup>,
    answers: Seq<Option<Vec<RunJob>>>,
    n: int,
) -> Seq<JobConclusion>
    decreases n,
{
    if n <= 0 {
        seq![]
    } else {
        all_resolved(groups, answers, n - 1) + match answers[n - 1] {
            Some(jobs) => resolved(groups[n - 1].jobs@, jobs@),
            None => seq![],
        }
    }
}

/// Resolve the open conclusions of runs. `answers` holds the jobs of each run up to
/// where the cycle was stopped: `None` for a run whose org has no token, or that
/// could not be asked.
pub fn reconcile_job_conclusions(groups: &[RunGroup], answers: &[Option<Vec<RunJob>>]) -> (r: Vec<
    JobConclusion,
>)
    requires
        answers@.len() <= groups@.len(),
    ensures
        r@ == all_resolved(groups@, answers@, answers@.len() as int),
{
    let mut out: Vec<JobConclusion> = Vec::new();
    let mut i: usize = 0;
    while i < answers.len()
        invariant
            i <= answers@.len() <= groups@.len(),
            out@ == all_resolved(groups@, answers@, i as int),
        decreases answers@.len() - i,
    {
        match &answers[i] {
            Some(jobs) => {
                let mut more = match_conclusions(groups[i].jobs.as_slice(), jobs.as_slice());
                let ghost was = out@;
                let ghost add = more@;
                out.append(&mut more);
                assert(out@ =~= was + add);
            },
            None => {
                assert(out@ =~= out@ + Seq::<JobConclusion>::empty());
            },
        }
        i = i + 1;
    }
    out
}

/// Whether a conclusion is one that GitHub gave for a job whose conclusion was open.
pub open spec fn is_given(
    c: JobConclusion,
    pending: Seq<PendingConclusion>,
    api: Seq<RunJob>,
) -> bool {
    exists|i: int|
        0 <= i < pending.len() && conclusion_of(api, (#[trigger] pending[i]).job@) is Some && c
            == resolution(pending[i], conclusion_of(api, pending[i].job@)->0)
}

/// Every conclusion that is reported is one that GitHub gave, for a job whose
/// conclusion was open: nothing is made up, and a running job is left alone.
pub proof fn conclusions_are_githubs(pending: Seq<PendingConclusion>, api: Seq<RunJob>)
    ensures
        resolved(pending, api).len() <= pending.len(),
        forall|k: int|
            0 <= k < resolved(pending, api).len() ==> is_given(
                #[trigger] resolved(pending, api)[k],
                pending,
                api,
            ),
    decreases pending.len(),
{
    if pending.len() > 0 {
        let init = pending.drop_last();
        conclusions_are_githubs(init, api);
        let r = resolved(pending, api);
        let rest = resolved(init, api);
        assert forall|k: int| 0 <= k < r.len() implies is_given(#[trigger] r[k], pending, api) by {
            if k < rest.len() {
                assert(r[k] == rest[k]);
                assert(is_given(rest[k], init, api));
                let i = choose|i: int|
                    0 <= i < init.len() && conclusion_of(api, (#[trigger] init[i]).job@) is Some
                        && rest[k] == resolution(init[i], conclusion_of(api, init[i].job@)->0);
                assert(pending[i] == init[i]);
            } else {
                assert(conclusion_of(api, pending[pending.len() - 1].job@) is Some);
            }
        }
    }
}

} // verus!
