//! What a scrape shows of a snapshot, line by line, and what a snapshot shows of the
//! tables, value by value.

use vstd::prelude::*;

use crate::metrics::exposition::{
    error_line, escaped, family_text, fleet_text, health_line, health_lines, last_ok_line,
    last_sample_text, load_text, memory_text, org_line, org_lines, orgs_text, runner_line,
    runner_lines, runners_text, Family,
};
use crate::metrics::{
    diverging, gathered, in_org, known_in_org, online_in_org, org_names, rollup_of, rollups,
    rollups_of, with_liveness, OrgRollup, RunnerMetric, Snapshot,
};
use crate::models::{ApiReconcileState, GhView, Liveness, RunnerSample};
use crate::store::reader::laws::{
    a_view_shows_the_last_reading, last_reading, reports, running_jobs_have_not_ended,
    the_healths_are_sorted, the_newest_host_is_newest, the_newest_tick_is_whole, views_reading,
};
use crate::store::reader::{newest_tick, newest_tick_has_its_time};
use crate::store::rows::{first_where_is_least, selected_are_counted};
use crate::store::tables::Db;
use crate::store::writer::dir_at;
use crate::store::writer::github::runner_at;
use crate::text::dec;

verus! {

// ---------------------------------------------------------------------------
// Lines
// ---------------------------------------------------------------------------

/// `line` is a whole line of `text`, from position `k`.
pub open spec fn line_at(text: Seq<char>, line: Seq<char>, k: int) -> bool {
    &&& 0 <= k && k + line.len() < text.len()
    &&& text.subrange(k, k + line.len()) == line
    &&& text[k + line.len()] == '\n'
    &&& k == 0 || text[k - 1] == '\n'
}

/// `line` is a whole line of `text`.
#[verifier::opaque]
pub open spec fn has_line(text: Seq<char>, line: Seq<char>) -> bool {
    exists|k: int| #[trigger] line_at(text, line, k)
}

/// A text that ends no line in its middle.
pub open spec fn ends_lines(text: Seq<char>) -> bool {
    text.len() == 0 || text.last() == '\n'
}

pub(crate) proof fn lines_stay(a: Seq<char>, b: Seq<char>)
    ensures
        forall|line: Seq<char>| #[trigger] has_line(a, line) ==> has_line(a + b, line),
{
    reveal(has_line);
    assert forall|line: Seq<char>| #[trigger] has_line(a, line) implies has_line(a + b, line) by {
        let k = choose|k: int| #[trigger] line_at(a, line, k);
        assert((a + b).subrange(k, k + line.len()) =~= line);
        assert(line_at(a + b, line, k));
    }
}

proof fn lines_join(a: Seq<char>, b: Seq<char>)
    requires
        ends_lines(a),
    ensures
        forall|line: Seq<char>| #[trigger] has_line(b, line) ==> has_line(a + b, line),
        ends_lines(b) ==> ends_lines(a + b),
{
    reveal(has_line);
    assert forall|line: Seq<char>| #[trigger] has_line(b, line) implies has_line(a + b, line) by {
        let k = choose|k: int| #[trigger] line_at(b, line, k);
        assert((a + b).subrange(a.len() + k, a.len() + k + line.len()) =~= line) by {
            assert forall|i: int| 0 <= i < line.len() implies (a + b).subrange(
                a.len() + k,
                a.len() + k + line.len(),
            )[i] == line[i] by {
                assert(b.subrange(k, k + line.len())[i] == line[i]);
            }
        }
        assert(line_at(a + b, line, a.len() + k));
    }
    if b.len() == 0 {
        assert(a + b =~= a);
    }
}

/// What stands behind a line feed, up to the next, is a line.
pub(crate) proof fn line_between(p: Seq<char>, d: Seq<char>, j: int, v: Seq<char>, e: Seq<char>)
    requires
        0 <= j <= d.len(),
        j > 0 ==> d[j - 1] == '\n',
        j == 0 ==> ends_lines(p),
        e.len() > 0 && e[0] == '\n',
    ensures
        has_line(p + d + v + e, d.skip(j) + v),
{
    reveal(has_line);
    let t = p + d + v + e;
    let line = d.skip(j) + v;
    let k = p.len() + j;
    assert(t.subrange(k, k + line.len()) =~= line);
    assert(line_at(t, line, k));
}

proof fn line_first(line: Seq<char>, e: Seq<char>)
    requires
        e.len() > 0 && e[0] == '\n',
    ensures
        has_line(line + e, line),
{
    reveal(has_line);
    let t = line + e;
    assert(t.subrange(0, line.len() as int) =~= line);
    assert(line_at(t, line, 0));
}

// ---------------------------------------------------------------------------
// One line per runner
// ---------------------------------------------------------------------------

/// The name under which a family is exposed.
pub open spec fn exposed_name(f: Family) -> Seq<char> {
    match f {
        Family::Up => "ghr_runner_up"@,
        Family::Busy => "ghr_runner_busy"@,
        Family::CpuPercent => "ghr_runner_cpu_percent"@,
        Family::MemBytes => "ghr_runner_mem_bytes"@,
        Family::MemCurrentBytes => "ghr_runner_mem_current_bytes"@,
        Family::StateSeconds => "ghr_runner_state_seconds"@,
        Family::GithubOnline => "ghr_runner_github_online"@,
        Family::GithubBusy => "ghr_runner_github_busy"@,
        Family::GithubSampleAge => "ghr_runner_github_sample_age_seconds"@,
        Family::GithubOfflineSeconds => "ghr_runner_github_offline_seconds"@,
        Family::Divergent => "ghr_runner_divergent"@,
    }
}

/// The value that a family is to show of a runner, if any. A runner is up unless it
/// is offline, and busy only while it runs a job. Of GitHub's view the bits are
/// shown while they are fresh, and the age as long as there was a reading. A runner
/// diverges where it is up and a fresh reading calls it offline; where it is up and
/// no reading is fresh, nobody knows.
pub open spec fn exposed_value(f: Family, r: RunnerMetric) -> Option<Seq<char>> {
    match f {
        Family::Up => match r.liveness {
            Liveness::Idle | Liveness::Busy => Some("1"@),
            Liveness::Offline => Some("0"@),
        },
        Family::Busy => match r.liveness {
            Liveness::Busy => Some("1"@),
            Liveness::Idle | Liveness::Offline => Some("0"@),
        },
        Family::CpuPercent => if r.cpu_pct is Some {
            Some(r.cpu_pct->0.text@)
        } else {
            None
        },
        Family::MemBytes => if r.mem_bytes is Some {
            Some(dec(r.mem_bytes->0 as int))
        } else {
            None
        },
        Family::MemCurrentBytes => if r.mem_current_bytes is Some {
            Some(dec(r.mem_current_bytes->0 as int))
        } else {
            None
        },
        Family::StateSeconds => Some(dec(r.state_seconds as int)),
        Family::GithubOnline => match r.gh {
            GhView::Fresh { state, .. } => if state.online {
                Some("1"@)
            } else {
                Some("0"@)
            },
            GhView::Stale { .. } | GhView::Unknown => None,
        },
        Family::GithubBusy => match r.gh {
            GhView::Fresh { state, .. } => if state.busy {
                Some("1"@)
            } else {
                Some("0"@)
            },
            GhView::Stale { .. } | GhView::Unknown => None,
        },
        Family::GithubSampleAge => match r.gh {
            GhView::Fresh { age_s, .. } => Some(dec(age_s as int)),
            GhView::Stale { age_s } => Some(dec(age_s as int)),
            GhView::Unknown => None,
        },
        Family::GithubOfflineSeconds => if r.gh_offline_seconds is Some {
            Some(dec(r.gh_offline_seconds->0 as int))
        } else {
            match r.gh {
                GhView::Fresh { state, .. } => if state.online {
                    Some(dec(0))
                } else {
                    None
                },
                GhView::Stale { .. } | GhView::Unknown => None,
            }
        },
        Family::Divergent => match r.liveness {
            Liveness::Offline => Some("0"@),
            Liveness::Idle | Liveness::Busy => match r.gh {
                GhView::Fresh { state, .. } => if state.online {
                    Some("0"@)
                } else {
                    Some("1"@)
                },
                GhView::Stale { .. } | GhView::Unknown => None,
            },
        },
    }
}

/// The labels of a runner's line: its id, its name and its org; and its state where
/// the family tells how long it lasts.
pub open spec fn exposed_labels(f: Family, r: RunnerMetric) -> Seq<char> {
    let who = "agent_id=\""@ + dec(r.agent_id as int) + "\",name=\""@ + escaped(r.name@)
        + "\",org=\""@ + escaped(r.org@) + "\""@;
    match (f, r.liveness) {
        (Family::StateSeconds, Liveness::Idle) => who + (",state=\""@ + "idle"@ + "\""@),
        (Family::StateSeconds, Liveness::Busy) => who + (",state=\""@ + "busy"@ + "\""@),
        (Family::StateSeconds, Liveness::Offline) => who + (",state=\""@ + "offline"@ + "\""@),
        _ => who,
    }
}

/// A runner's line in a family.
pub open spec fn exposed_line(f: Family, r: RunnerMetric, v: Seq<char>) -> Seq<char> {
    exposed_name(f) + "{"@ + exposed_labels(f, r) + "} "@ + v
}

proof fn a_runners_line(f: Family, r: RunnerMetric)
    ensures
        exposed_value(f, r) is None ==> runner_line(f, r) == Seq::<char>::empty(),
        exposed_value(f, r) matches Some(v) ==> {
            &&& runner_line(f, r) == exposed_line(f, r, v) + "\n"@
            &&& has_line(runner_line(f, r), exposed_line(f, r, v))
        },
        ends_lines(runner_line(f, r)),
{
    reveal_strlit("");
    reveal_strlit("\n");
    assert(""@ =~= Seq::<char>::empty());
    assert(exposed_name(f) == f.name());
    assert(exposed_value(f, r) == f.value(r));
    let who = r.label_set();
    assert(who + ""@ =~= who);
    assert(f !is StateSeconds ==> f.name() + "{"@ + who + ""@ == f.name() + "{"@ + who) by {
        assert(f.name() + "{"@ + who + ""@ =~= f.name() + "{"@ + who);
    }
    if f is StateSeconds {
        assert(exposed_labels(f, r) == who + f.extra(r));
        assert(f.name() + "{"@ + who + f.extra(r) =~= f.name() + "{"@ + (who + f.extra(r)));
    } else {
        assert(exposed_labels(f, r) == who);
    }
    if let Some(v) = exposed_value(f, r) {
        line_first(exposed_line(f, r, v), "\n"@);
    }
}

/// What a family shows of a runner: its line, or nothing.
pub open spec fn exposed(f: Family, r: RunnerMetric) -> Seq<char> {
    if exposed_value(f, r) is Some {
        exposed_line(f, r, exposed_value(f, r)->0) + "\n"@
    } else {
        Seq::<char>::empty()
    }
}

/// What a family shows of its runners is what it shows of each, one behind the
/// other: a runner without a value has no line. Gives where each begins and ends.
pub proof fn a_family_shows_each_runner_once(f: Family, rs: Seq<RunnerMetric>, n: int) -> (w: Seq<
    (int, int),
>)
    requires
        0 <= n <= rs.len(),
    ensures
        w.len() == n,
        n == 0 ==> runner_lines(f, rs, n).len() == 0,
        n > 0 ==> w[0].0 == 0 && w[n - 1].1 == runner_lines(f, rs, n).len(),
        forall|i: int, j: int| 0 <= i < n && j == i + 1 && j < n ==> (#[trigger] w[i]).1 == (
        #[trigger] w[j]).0,
        forall|i: int|
            0 <= i < n ==> 0 <= (#[trigger] w[i]).0 <= w[i].1 <= runner_lines(f, rs, n).len()
                && runner_lines(f, rs, n).subrange(w[i].0, w[i].1) == exposed(f, rs[i]),
    decreases n,
{
    reveal_strlit("");
    if n > 0 {
        let v = a_family_shows_each_runner_once(f, rs, n - 1);
        let a = runner_lines(f, rs, n - 1);
        let b = runner_line(f, rs[n - 1]);
        let t = runner_lines(f, rs, n);
        a_runners_line(f, rs[n - 1]);
        let w = v.push((a.len() as int, t.len() as int));
        assert forall|i: int| 0 <= i < n implies 0 <= (#[trigger] w[i]).0 <= w[i].1 <= t.len()
            && t.subrange(w[i].0, w[i].1) == exposed(f, rs[i]) by {
            if i < n - 1 {
                assert(w[i] == v[i]);
                assert(t.subrange(v[i].0, v[i].1) =~= a.subrange(v[i].0, v[i].1));
            } else {
                assert(t.subrange(w[i].0, w[i].1) =~= b);
            }
        }
        assert forall|i: int, j: int| 0 <= i < n && j == i + 1 && j < n implies (#[trigger] w[i]).1
            == (#[trigger] w[j]).0 by {
            assert(w[i] == v[i]);
            if j < n - 1 {
                assert(w[j] == v[j]);
            }
        }
        w
    } else {
        assert(runner_lines(f, rs, n) =~= Seq::<char>::empty());
        Seq::empty()
    }
}

proof fn runners_lines(f: Family, rs: Seq<RunnerMetric>, n: int)
    requires
        0 <= n <= rs.len(),
    ensures
        ends_lines(runner_lines(f, rs, n)),
        forall|i: int|
            0 <= i < n && exposed_value(f, #[trigger] rs[i]) is Some ==> has_line(
                runner_lines(f, rs, n),
                exposed_line(f, rs[i], exposed_value(f, rs[i])->0),
            ),
    decreases n,
{
    reveal_strlit("");
    if n > 0 {
        runners_lines(f, rs, n - 1);
        let a = runner_lines(f, rs, n - 1);
        let b = runner_line(f, rs[n - 1]);
        a_runners_line(f, rs[n - 1]);
        lines_stay(a, b);
        lines_join(a, b);
    } else {
        assert(runner_lines(f, rs, n) =~= Seq::<char>::empty());
    }
}

proof fn a_familys_text(f: Family, rs: Seq<RunnerMetric>)
    ensures
        ends_lines(family_text(f, rs)),
        forall|i: int|
            0 <= i < rs.len() && exposed_value(f, #[trigger] rs[i]) is Some ==> has_line(
                family_text(f, rs),
                exposed_line(f, rs[i], exposed_value(f, rs[i])->0),
            ),
{
    reveal_strlit(" gauge\n");
    let head = "# TYPE "@ + f.name() + " gauge\n"@;
    runners_lines(f, rs, rs.len() as int);
    lines_join(head, runner_lines(f, rs, rs.len() as int));
}

/// The text of the family, in the order in which they are exposed.
pub open spec fn families() -> Seq<Family> {
    seq![
        Family::Up,
        Family::Busy,
        Family::CpuPercent,
        Family::MemBytes,
        Family::MemCurrentBytes,
        Family::StateSeconds,
        Family::GithubOnline,
        Family::GithubBusy,
        Family::GithubSampleAge,
        Family::GithubOfflineSeconds,
        Family::Divergent,
    ]
}

spec fn texts_of(rs: Seq<RunnerMetric>, n: int) -> Seq<char>
    decreases n,
{
    if n <= 1 {
        family_text(families()[0], rs)
    } else {
        texts_of(rs, n - 1) + family_text(families()[n - 1], rs)
    }
}

proof fn families_lines(rs: Seq<RunnerMetric>, n: int)
    requires
        1 <= n <= families().len(),
    ensures
        ends_lines(texts_of(rs, n)),
        forall|j: int, i: int|
            0 <= j < n && 0 <= i < rs.len() && exposed_value(
                #[trigger] families()[j],
                #[trigger] rs[i],
            ) is Some ==> has_line(
                texts_of(rs, n),
                exposed_line(families()[j], rs[i], exposed_value(families()[j], rs[i])->0),
            ),
    decreases n,
{
    a_familys_text(families()[n - 1], rs);
    if n > 1 {
        families_lines(rs, n - 1);
        lines_stay(texts_of(rs, n - 1), family_text(families()[n - 1], rs));
        lines_join(texts_of(rs, n - 1), family_text(families()[n - 1], rs));
    }
}

proof fn runners_are_told(s: Snapshot, f: Family, i: int)
    requires
        0 <= i < s.runners@.len(),
        exposed_value(f, s.runners@[i]) is Some,
    ensures
        ends_lines(runners_text(s)),
        has_line(
            runners_text(s),
            exposed_line(f, s.runners@[i], exposed_value(f, s.runners@[i])->0),
        ),
{
    let rs = s.runners@;
    let n = families().len() as int;
    reveal_with_fuel(texts_of, 12);
    assert(runners_text(s) == texts_of(rs, n));
    families_lines(rs, n);
    let j = match f {
        Family::Up => 0int,
        Family::Busy => 1,
        Family::CpuPercent => 2,
        Family::MemBytes => 3,
        Family::MemCurrentBytes => 4,
        Family::StateSeconds => 5,
        Family::GithubOnline => 6,
        Family::GithubBusy => 7,
        Family::GithubSampleAge => 8,
        Family::GithubOfflineSeconds => 9,
        Family::Divergent => 10,
    };
    assert(families()[j] == f);
}

// ---------------------------------------------------------------------------
// The fleet
// ---------------------------------------------------------------------------

/// What a scrape says of the fleet as a whole.
pub open spec fn tells_fleet(text: Seq<char>, s: Snapshot) -> bool {
    &&& has_line(text, "ghr_fleet_runners "@ + dec(s.runners@.len() as int))
    &&& has_line(text, "ghr_fleet_by_state{state=\"busy\"} "@ + dec(s.busy as int))
    &&& has_line(text, "ghr_fleet_by_state{state=\"idle\"} "@ + dec(s.idle as int))
    &&& has_line(text, "ghr_fleet_by_state{state=\"offline\"} "@ + dec(s.offline as int))
    &&& has_line(text, "ghr_fleet_by_state{state=\"divergent\"} "@ + dec(s.divergent as int))
    &&& has_line(text, "ghr_jobs_total "@ + dec(s.jobs_total as int))
    &&& has_line(text, "ghr_jobs_running "@ + dec(s.jobs_running as int))
    &&& s.last_sample_ts matches Some(t) ==> has_line(
        text,
        "ghr_last_sample_timestamp_seconds "@ + dec(t as int),
    )
    &&& s.load1 matches Some(l) ==> has_line(text, "ghr_host_load1 "@ + l.text@)
    &&& s.mem_used is Some && s.mem_total is Some ==> {
        &&& has_line(text, "ghr_host_mem_bytes{kind=\"used\"} "@ + dec(s.mem_used->0 as int))
        &&& has_line(text, "ghr_host_mem_bytes{kind=\"total\"} "@ + dec(s.mem_total->0 as int))
    }
}

proof fn last_sample_lines(s: Snapshot)
    ensures
        ends_lines(last_sample_text(s)),
        s.last_sample_ts matches Some(t) ==> has_line(
            last_sample_text(s),
            "ghr_last_sample_timestamp_seconds "@ + dec(t as int),
        ),
{
    reveal_strlit("");
    reveal_strlit("\n");
    if let Some(t) = s.last_sample_ts {
        reveal_strlit("# TYPE ghr_last_sample_timestamp_seconds gauge\nghr_last_sample_timestamp_seconds ");
        reveal_strlit("ghr_last_sample_timestamp_seconds ");
        let d = "# TYPE ghr_last_sample_timestamp_seconds gauge\nghr_last_sample_timestamp_seconds "@;
        assert(d.skip(47) =~= "ghr_last_sample_timestamp_seconds "@);
        line_between(seq![], d, 47, dec(t as int), "\n"@);
        assert(seq![] + d + dec(t as int) + "\n"@ =~= d + dec(t as int) + "\n"@);
    }
}

proof fn load_lines(s: Snapshot)
    ensures
        ends_lines(load_text(s)),
        s.load1 matches Some(l) ==> has_line(load_text(s), "ghr_host_load1 "@ + l.text@),
{
    reveal_strlit("");
    reveal_strlit("\n");
    if let Some(l) = s.load1 {
        reveal_strlit("# TYPE ghr_host_load1 gauge\nghr_host_load1 ");
        reveal_strlit("ghr_host_load1 ");
        let d = "# TYPE ghr_host_load1 gauge\nghr_host_load1 "@;
        assert(d.skip(28) =~= "ghr_host_load1 "@);
        line_between(seq![], d, 28, l.text@, "\n"@);
        assert(seq![] + d + l.text@ + "\n"@ =~= d + l.text@ + "\n"@);
    }
}

proof fn memory_lines(s: Snapshot)
    ensures
        ends_lines(memory_text(s)),
        s.mem_used is Some && s.mem_total is Some ==> {
            &&& has_line(
                memory_text(s),
                "ghr_host_mem_bytes{kind=\"used\"} "@ + dec(s.mem_used->0 as int),
            )
            &&& has_line(
                memory_text(s),
                "ghr_host_mem_bytes{kind=\"total\"} "@ + dec(s.mem_total->0 as int),
            )
        },
{
    reveal_strlit("");
    reveal_strlit("\n");
    if s.mem_used is Some && s.mem_total is Some {
        let u = dec(s.mem_used->0 as int);
        let t = dec(s.mem_total->0 as int);
        reveal_strlit("# TYPE ghr_host_mem_bytes gauge\nghr_host_mem_bytes{kind=\"used\"} ");
        reveal_strlit("ghr_host_mem_bytes{kind=\"used\"} ");
        reveal_strlit("\nghr_host_mem_bytes{kind=\"total\"} ");
        reveal_strlit("ghr_host_mem_bytes{kind=\"total\"} ");
        let d = "# TYPE ghr_host_mem_bytes gauge\nghr_host_mem_bytes{kind=\"used\"} "@;
        let e = "\nghr_host_mem_bytes{kind=\"total\"} "@;
        assert(d.skip(32) =~= "ghr_host_mem_bytes{kind=\"used\"} "@);
        assert(e.skip(1) =~= "ghr_host_mem_bytes{kind=\"total\"} "@);
        line_between(seq![], d, 32, u, e);
        assert(seq![] + d + u + e =~= d + u + e);
        lines_stay(d + u + e, t);
        lines_stay(d + u + e + t, "\n"@);
        line_between(d + u, e, 1, t, "\n"@);
    }
}

proof fn state_lines(s: Snapshot, t0: Seq<char>) -> (t: Seq<char>)
    requires
        ends_lines(t0),
    ensures
        t == t0
            + "# TYPE ghr_fleet_runners gauge\nghr_fleet_runners "@ + dec(s.runners@.len() as int)
            + "\n# TYPE ghr_fleet_by_state gauge\nghr_fleet_by_state{state=\"busy\"} "@ + dec(s.busy as int)
            + "\nghr_fleet_by_state{state=\"idle\"} "@ + dec(s.idle as int)
            + "\nghr_fleet_by_state{state=\"offline\"} "@ + dec(s.offline as int)
            + "\nghr_fleet_by_state{state=\"divergent\"} "@ + dec(s.divergent as int) + "\n"@,
        ends_lines(t),
        has_line(t, "ghr_fleet_runners "@ + dec(s.runners@.len() as int)),
        has_line(t, "ghr_fleet_by_state{state=\"busy\"} "@ + dec(s.busy as int)),
        has_line(t, "ghr_fleet_by_state{state=\"idle\"} "@ + dec(s.idle as int)),
        has_line(t, "ghr_fleet_by_state{state=\"offline\"} "@ + dec(s.offline as int)),
        has_line(t, "ghr_fleet_by_state{state=\"divergent\"} "@ + dec(s.divergent as int)),
{
    reveal_strlit("\n");
    reveal_strlit("# TYPE ghr_fleet_runners gauge\nghr_fleet_runners ");
    reveal_strlit("ghr_fleet_runners ");
    reveal_strlit("\n# TYPE ghr_fleet_by_state gauge\nghr_fleet_by_state{state=\"busy\"} ");
    reveal_strlit("ghr_fleet_by_state{state=\"busy\"} ");
    reveal_strlit("\nghr_fleet_by_state{state=\"idle\"} ");
    reveal_strlit("ghr_fleet_by_state{state=\"idle\"} ");
    reveal_strlit("\nghr_fleet_by_state{state=\"offline\"} ");
    reveal_strlit("ghr_fleet_by_state{state=\"offline\"} ");
    reveal_strlit("\nghr_fleet_by_state{state=\"divergent\"} ");
    reveal_strlit("ghr_fleet_by_state{state=\"divergent\"} ");
    let d1 = "# TYPE ghr_fleet_runners gauge\nghr_fleet_runners "@;
    let v1 = dec(s.runners@.len() as int);
    let d2 = "\n# TYPE ghr_fleet_by_state gauge\nghr_fleet_by_state{state=\"busy\"} "@;
    let v2 = dec(s.busy as int);
    let d3 = "\nghr_fleet_by_state{state=\"idle\"} "@;
    let v3 = dec(s.idle as int);
    let d4 = "\nghr_fleet_by_state{state=\"offline\"} "@;
    let v4 = dec(s.offline as int);
    let d5 = "\nghr_fleet_by_state{state=\"divergent\"} "@;
    let v5 = dec(s.divergent as int);
    assert(d1.skip(31) =~= "ghr_fleet_runners "@);
    assert(d2.skip(33) =~= "ghr_fleet_by_state{state=\"busy\"} "@);
    assert(d3.skip(1) =~= "ghr_fleet_by_state{state=\"idle\"} "@);
    assert(d4.skip(1) =~= "ghr_fleet_by_state{state=\"offline\"} "@);
    assert(d5.skip(1) =~= "ghr_fleet_by_state{state=\"divergent\"} "@);
    let t1 = t0 + d1 + v1;
    line_between(t0, d1, 31, v1, d2);
    lines_stay(t1, d2);
    let t2 = t1 + d2 + v2;
    line_between(t1, d2, 33, v2, d3);
    lines_stay(t1 + d2, v2);
    lines_stay(t2, d3);
    let t3 = t2 + d3 + v3;
    line_between(t2, d3, 1, v3, d4);
    lines_stay(t2 + d3, v3);
    lines_stay(t3, d4);
    let t4 = t3 + d4 + v4;
    line_between(t3, d4, 1, v4, d5);
    lines_stay(t3 + d4, v4);
    lines_stay(t4, d5);
    let t5 = t4 + d5 + v5;
    line_between(t4, d5, 1, v5, "\n"@);
    lines_stay(t4 + d5, v5);
    lines_stay(t5, "\n"@);
    t5 + "\n"@
}

proof fn fleet_lines(s: Snapshot)
    ensures
        ends_lines(fleet_text(s)),
        tells_fleet(fleet_text(s), s),
{
    reveal_strlit("\n");
    reveal_strlit("\"} 1\n");
    let t0 = "# HELP ghr_build_info Build metadata.\n# TYPE ghr_build_info gauge\nghr_build_info{version=\""@ + escaped(s.version@) + "\"} 1\n"@;
    let a = state_lines(s, t0);
    last_sample_lines(s);
    load_lines(s);
    memory_lines(s);
    let b = a + last_sample_text(s);
    let c = b + load_text(s);
    let t = c + memory_text(s);
    lines_stay(a, last_sample_text(s));
    lines_join(a, last_sample_text(s));
    lines_stay(b, load_text(s));
    lines_join(b, load_text(s));
    lines_stay(c, memory_text(s));
    lines_join(c, memory_text(s));
    reveal_strlit("# TYPE ghr_jobs_total gauge\nghr_jobs_total ");
    reveal_strlit("ghr_jobs_total ");
    reveal_strlit("\n# TYPE ghr_jobs_running gauge\nghr_jobs_running ");
    reveal_strlit("ghr_jobs_running ");
    let d1 = "# TYPE ghr_jobs_total gauge\nghr_jobs_total "@;
    let v1 = dec(s.jobs_total as int);
    let d2 = "\n# TYPE ghr_jobs_running gauge\nghr_jobs_running "@;
    let v2 = dec(s.jobs_running as int);
    assert(d1.skip(28) =~= "ghr_jobs_total "@);
    assert(d2.skip(31) =~= "ghr_jobs_running "@);
    line_between(t, d1, 28, v1, d2);
    line_between(t + d1 + v1, d2, 31, v2, "\n"@);
    lines_stay(t, d1);
    lines_stay(t + d1, v1);
    lines_stay(t + d1 + v1, d2);
    lines_stay(t + d1 + v1 + d2, v2);
    lines_stay(t + d1 + v1 + d2 + v2, "\n"@);
    assert(fleet_text(s) == t + d1 + v1 + d2 + v2 + "\n"@);
}

// ---------------------------------------------------------------------------
// The orgs
// ---------------------------------------------------------------------------

/// What a scrape says of an org's runners.
pub open spec fn tells_org(text: Seq<char>, o: OrgRollup) -> bool {
    &&& has_line(
        text,
        "ghr_org_runners{org=\""@ + escaped(o.org@) + "\",state=\"total\"} "@ + dec(
            o.total as int,
        ),
    )
    &&& has_line(
        text,
        "ghr_org_runners{org=\""@ + escaped(o.org@) + "\",state=\"github_online\"} "@ + dec(
            o.github_online as int,
        ),
    )
}

/// What a scrape says of how an org could be asked.
pub open spec fn tells_health(text: Seq<char>, c: ApiReconcileState) -> bool {
    let org = escaped(c.org@);
    &&& has_line(
        text,
        "ghr_api_reconcile_ok{org=\""@ + org + "\"} "@ + (if c.ok {
            "1"@
        } else {
            "0"@
        }),
    )
    &&& has_line(
        text,
        "ghr_api_org_configured{org=\""@ + org + "\"} "@ + (if c.configured {
            "1"@
        } else {
            "0"@
        }),
    )
    &&& c.last_ok_ts matches Some(t) ==> has_line(
        text,
        "ghr_api_reconcile_timestamp_seconds{org=\""@ + org + "\"} "@ + dec(t as int),
    )
    &&& c.error_kind matches Some(kind) ==> has_line(
        text,
        "ghr_api_reconcile_errors_total{org=\""@ + org + "\",kind=\""@ + escaped(kind@)
            + "\"} 1"@,
    )
}

proof fn org_is_told(o: OrgRollup)
    ensures
        ends_lines(org_line(o)),
        tells_org(org_line(o), o),
{
    reveal_strlit("\n");
    reveal_strlit("ghr_org_runners{org=\"");
    reveal_strlit("\nghr_org_runners{org=\"");
    let org = escaped(o.org@);
    let first = "ghr_org_runners{org=\""@ + org + "\",state=\"total\"} "@ + dec(o.total as int);
    let d = "\nghr_org_runners{org=\""@;
    let b = "\",state=\"github_online\"} "@;
    let n = dec(o.github_online as int);
    assert(d.skip(1) =~= "ghr_org_runners{org=\""@);
    line_first(first, d);
    lines_stay(first + d, org);
    lines_stay(first + d + org, b);
    lines_stay(first + d + org + b, n);
    lines_stay(first + d + org + b + n, "\n"@);
    line_between(first, d, 1, org + b + n, "\n"@);
    assert(first + d + (org + b + n) + "\n"@ =~= first + d + org + b + n + "\n"@);
    assert(d.skip(1) + (org + b + n) =~= "ghr_org_runners{org=\""@ + org + b + n);
}

proof fn orgs_are_told(os: Seq<OrgRollup>, n: int)
    requires
        0 <= n <= os.len(),
    ensures
        ends_lines(org_lines(os, n)),
        forall|i: int| 0 <= i < n ==> tells_org(org_lines(os, n), #[trigger] os[i]),
    decreases n,
{
    reveal_strlit("");
    if n > 0 {
        orgs_are_told(os, n - 1);
        org_is_told(os[n - 1]);
        lines_stay(org_lines(os, n - 1), org_line(os[n - 1]));
        lines_join(org_lines(os, n - 1), org_line(os[n - 1]));
    }
}

proof fn last_ok_is_told(c: ApiReconcileState)
    ensures
        ends_lines(last_ok_line(c)),
        c.last_ok_ts matches Some(t) ==> has_line(
            last_ok_line(c),
            "ghr_api_reconcile_timestamp_seconds{org=\""@ + escaped(c.org@) + "\"} "@ + dec(
                t as int,
            ),
        ),
{
    reveal_strlit("");
    reveal_strlit("\n");
    if let Some(t) = c.last_ok_ts {
        line_first(
            "ghr_api_reconcile_timestamp_seconds{org=\""@ + escaped(c.org@) + "\"} "@ + dec(
                t as int,
            ),
            "\n"@,
        );
    }
}

proof fn error_is_told(c: ApiReconcileState)
    ensures
        ends_lines(error_line(c)),
        c.error_kind matches Some(kind) ==> has_line(
            error_line(c),
            "ghr_api_reconcile_errors_total{org=\""@ + escaped(c.org@) + "\",kind=\""@ + escaped(
                kind@,
            ) + "\"} 1"@,
        ),
{
    reveal_strlit("");
    reveal_strlit("\n");
    reveal_strlit("\"} 1");
    reveal_strlit("\"} 1\n");
    if let Some(kind) = c.error_kind {
        let head = "ghr_api_reconcile_errors_total{org=\""@ + escaped(c.org@) + "\",kind=\""@
            + escaped(kind@);
        line_first(head + "\"} 1"@, "\n"@);
        assert("\"} 1\n"@ =~= "\"} 1"@ + "\n"@);
        assert(head + "\"} 1"@ + "\n"@ =~= head + "\"} 1\n"@);
    }
}

proof fn health_is_told(c: ApiReconcileState)
    ensures
        ends_lines(health_line(c)),
        tells_health(health_line(c), c),
{
    reveal_strlit("\n");
    reveal_strlit("ghr_api_org_configured{org=\"");
    reveal_strlit("\nghr_api_org_configured{org=\"");
    let org = escaped(c.org@);
    let ok = if c.ok {
        "1"@
    } else {
        "0"@
    };
    let set = if c.configured {
        "1"@
    } else {
        "0"@
    };
    let first = "ghr_api_reconcile_ok{org=\""@ + org + "\"} "@ + ok;
    let d = "\nghr_api_org_configured{org=\""@;
    let b = "\"} "@;
    assert(d.skip(1) =~= "ghr_api_org_configured{org=\""@);
    line_first(first, d);
    lines_stay(first + d, org);
    lines_stay(first + d + org, b);
    lines_stay(first + d + org + b, set);
    lines_stay(first + d + org + b + set, "\n"@);
    line_between(first, d, 1, org + b + set, "\n"@);
    let two = first + d + org + b + set + "\n"@;
    assert(first + d + (org + b + set) + "\n"@ =~= two);
    assert(d.skip(1) + (org + b + set) =~= "ghr_api_org_configured{org=\""@ + org + b + set);
    last_ok_is_told(c);
    error_is_told(c);
    lines_stay(two, last_ok_line(c));
    lines_join(two, last_ok_line(c));
    lines_stay(two + last_ok_line(c), error_line(c));
    lines_join(two + last_ok_line(c), error_line(c));
}

proof fn healths_are_told(cs: Seq<ApiReconcileState>, n: int)
    requires
        0 <= n <= cs.len(),
    ensures
        ends_lines(health_lines(cs, n)),
        forall|i: int| 0 <= i < n ==> tells_health(health_lines(cs, n), #[trigger] cs[i]),
    decreases n,
{
    reveal_strlit("");
    if n > 0 {
        healths_are_told(cs, n - 1);
        health_is_told(cs[n - 1]);
        lines_stay(health_lines(cs, n - 1), health_line(cs[n - 1]));
        lines_join(health_lines(cs, n - 1), health_line(cs[n - 1]));
    }
}

proof fn orgs_text_tells(s: Snapshot)
    ensures
        forall|i: int| 0 <= i < s.orgs@.len() ==> tells_org(orgs_text(s), #[trigger] s.orgs@[i]),
        forall|i: int|
            0 <= i < s.reconcile@.len() ==> tells_health(orgs_text(s), #[trigger] s.reconcile@[i]),
        has_line(orgs_text(s), "ghr_api_max_age_seconds "@ + dec(s.max_age as int)),
{
    reveal_strlit("# TYPE ghr_org_runners gauge\n");
    reveal_strlit("# TYPE ghr_api_max_age_seconds gauge\nghr_api_max_age_seconds ");
    reveal_strlit("ghr_api_max_age_seconds ");
    reveal_strlit(
        "\n# TYPE ghr_api_reconcile_ok gauge\n# TYPE ghr_api_org_configured gauge\n# TYPE ghr_api_reconcile_timestamp_seconds gauge\n# TYPE ghr_api_reconcile_errors_total counter\n",
    );
    let a = "# TYPE ghr_org_runners gauge\n"@;
    let os = org_lines(s.orgs@, s.orgs@.len() as int);
    let d = "# TYPE ghr_api_max_age_seconds gauge\nghr_api_max_age_seconds "@;
    let v = dec(s.max_age as int);
    let e = "\n# TYPE ghr_api_reconcile_ok gauge\n# TYPE ghr_api_org_configured gauge\n# TYPE ghr_api_reconcile_timestamp_seconds gauge\n# TYPE ghr_api_reconcile_errors_total counter\n"@;
    let hs = health_lines(s.reconcile@, s.reconcile@.len() as int);
    orgs_are_told(s.orgs@, s.orgs@.len() as int);
    healths_are_told(s.reconcile@, s.reconcile@.len() as int);
    lines_join(a, os);
    let t = a + os;
    lines_stay(t, d);
    lines_stay(t + d, v);
    lines_stay(t + d + v, e);
    let u = t + d + v + e;
    assert(d.skip(37) =~= "ghr_api_max_age_seconds "@);
    line_between(t, d, 37, v, e);
    assert(u.last() == e.last());
    lines_stay(u, hs);
    lines_join(u, hs);
}

/// A scrape tells of the fleet, of every org and of how each org could be asked.
pub proof fn a_scrape_tells_of_the_fleet(s: Snapshot)
    ensures
        tells_fleet(s.exposition(), s),
        forall|i: int|
            0 <= i < s.orgs@.len() ==> tells_org(s.exposition(), #[trigger] s.orgs@[i]),
        forall|i: int|
            0 <= i < s.reconcile@.len() ==> tells_health(
                s.exposition(),
                #[trigger] s.reconcile@[i],
            ),
        has_line(s.exposition(), "ghr_api_max_age_seconds "@ + dec(s.max_age as int)),
{
    let a = fleet_text(s);
    let b = runners_text(s);
    let c = orgs_text(s);
    fleet_lines(s);
    orgs_text_tells(s);
    families_end(s);
    lines_stay(a, b);
    lines_join(a, b);
    lines_stay(a + b, c);
    lines_join(a + b, c);
}

proof fn families_end(s: Snapshot)
    ensures
        ends_lines(runners_text(s)),
{
    let n = families().len() as int;
    reveal_with_fuel(texts_of, 12);
    assert(runners_text(s) == texts_of(s.runners@, n));
    families_lines(s.runners@, n);
}

/// Every runner has a line in each family that has a value of it, with the runner's
/// labels and that value: up is 1 for an idle or a busy runner and 0 for one that is
/// offline, and so on for each family.
pub proof fn every_runner_has_its_lines(s: Snapshot, f: Family, i: int)
    requires
        0 <= i < s.runners@.len(),
        exposed_value(f, s.runners@[i]) is Some,
    ensures
        has_line(
            s.exposition(),
            exposed_line(f, s.runners@[i], exposed_value(f, s.runners@[i])->0),
        ),
{
    let a = fleet_text(s);
    let b = runners_text(s);
    let c = orgs_text(s);
    fleet_lines(s);
    runners_are_told(s, f, i);
    lines_join(a, b);
    lines_stay(a + b, c);
}

/// As many runners are shown up as the snapshot counts busy and idle, as many busy
/// as it counts busy, and as many diverging as it counts divergent. An idle runner
/// is up, and not busy.
pub proof fn the_lines_agree_with_the_counts(s: Snapshot)
    requires
        s.counts_agree(),
        s.runners@.len() <= u32::MAX,
    ensures
        Set::new(
            |i: int|
                0 <= i < s.runners@.len() && exposed_value(Family::Up, s.runners@[i]) == Some("1"@),
        ).len() == s.busy + s.idle,
        Set::new(
            |i: int|
                0 <= i < s.runners@.len() && exposed_value(Family::Busy, s.runners@[i]) == Some(
                    "1"@,
                ),
        ).len() == s.busy,
        Set::new(
            |i: int|
                0 <= i < s.runners@.len() && exposed_value(Family::Divergent, s.runners@[i])
                    == Some("1"@),
        ).len() == s.divergent,
        forall|i: int|
            0 <= i < s.runners@.len() && (#[trigger] s.runners@[i]).liveness is Idle
                ==> exposed_value(Family::Up, s.runners@[i]) == Some("1"@) && exposed_value(
                Family::Busy,
                s.runners@[i],
            ) == Some("0"@),
{
    reveal_strlit("1");
    reveal_strlit("0");
    assert("1"@[0] != "0"@[0]);
    let rs = s.runners@;
    let n = rs.len() as int;
    the_counts_are_the_runners(s);
    let busy = Set::new(|i: int| 0 <= i < rs.len() && rs[i].liveness is Busy);
    let idle = Set::new(|i: int| 0 <= i < rs.len() && rs[i].liveness is Idle);
    let off = Set::new(|i: int| 0 <= i < rs.len() && opposed(rs[i]));
    let up = Set::new(
        |i: int| 0 <= i < rs.len() && exposed_value(Family::Up, rs[i]) == Some("1"@),
    );
    vstd::set_lib::lemma_set_disjoint_lens(busy, idle);
    assert(busy.disjoint(idle));
    assert(up =~= busy + idle);
    assert(Set::new(
        |i: int| 0 <= i < rs.len() && exposed_value(Family::Busy, rs[i]) == Some("1"@),
    ) =~= busy);
    assert(Set::new(
        |i: int| 0 <= i < rs.len() && exposed_value(Family::Divergent, rs[i]) == Some("1"@),
    ) =~= off);
}

/// A runner that is up here while a fresh reading calls it offline.
pub open spec fn opposed(r: RunnerMetric) -> bool {
    r.liveness !is Offline && (r.gh matches GhView::Fresh { state, .. } && !state.online)
}

/// The counts of a snapshot are those of its runners: how many are busy, idle and
/// offline, and how many are up here while a fresh reading calls them offline.
pub proof fn the_counts_are_the_runners(s: Snapshot)
    requires
        s.counts_agree(),
    ensures
        ({
            let rs = s.runners@;
            let busy = Set::new(|i: int| 0 <= i < rs.len() && rs[i].liveness is Busy);
            let idle = Set::new(|i: int| 0 <= i < rs.len() && rs[i].liveness is Idle);
            let offline = Set::new(|i: int| 0 <= i < rs.len() && rs[i].liveness is Offline);
            let off = Set::new(|i: int| 0 <= i < rs.len() && opposed(rs[i]));
            &&& busy.finite() && idle.finite() && offline.finite() && off.finite()
            &&& reports(s.busy, busy.len())
            &&& reports(s.idle, idle.len())
            &&& reports(s.offline, offline.len())
            &&& reports(s.divergent, off.len())
            &&& rs.len() <= u32::MAX ==> s.busy == busy.len() && s.idle == idle.len() && s.offline
                == offline.len() && s.divergent == off.len()
        }),
{
    let rs = s.runners@;
    let n = rs.len() as int;
    let busy = Set::new(|i: int| 0 <= i < rs.len() && rs[i].liveness is Busy);
    let idle = Set::new(|i: int| 0 <= i < rs.len() && rs[i].liveness is Idle);
    let offline = Set::new(|i: int| 0 <= i < rs.len() && rs[i].liveness is Offline);
    let off = Set::new(|i: int| 0 <= i < rs.len() && opposed(rs[i]));
    let b = with_liveness(rs, Liveness::Busy);
    let d = with_liveness(rs, Liveness::Idle);
    let o = with_liveness(rs, Liveness::Offline);
    let v = diverging(rs);
    selected_are_counted(b, n);
    selected_are_counted(d, n);
    selected_are_counted(o, n);
    selected_are_counted(v, n);
    assert(Set::new(|i: int| 0 <= i < n && b(i)) =~= busy);
    assert(Set::new(|i: int| 0 <= i < n && d(i)) =~= idle);
    assert(Set::new(|i: int| 0 <= i < n && o(i)) =~= offline);
    assert(Set::new(|i: int| 0 <= i < n && v(i)) =~= off);
    crate::metrics::totals::selected_within(b, n);
    crate::metrics::totals::selected_within(d, n);
    crate::metrics::totals::selected_within(o, n);
    crate::metrics::totals::selected_within(v, n);
}

/// The counts of an org are those of its runners: how many there are, of how many a
/// reading is fresh, and how many of these it calls online.
pub open spec fn counts_org(o: OrgRollup, rs: Seq<RunnerMetric>) -> bool {
    let all = Set::new(|i: int| 0 <= i < rs.len() && rs[i].org@ == o.org@);
    let known = Set::new(|i: int| 0 <= i < rs.len() && rs[i].org@ == o.org@ && rs[i].gh is Fresh);
    let online = Set::new(
        |i: int|
            0 <= i < rs.len() && rs[i].org@ == o.org@ && (rs[i].gh matches GhView::Fresh {
                state,
                ..
            } && state.online),
    );
    &&& reports(o.total, all.len())
    &&& reports(o.github_known, known.len())
    &&& reports(o.github_online, online.len())
}

/// One of the counts is of the org.
pub open spec fn has_counts(os: Seq<OrgRollup>, org: Seq<char>) -> bool {
    exists|k: int| 0 <= k < os.len() && (#[trigger] os[k]).org@ == org
}

/// A snapshot counts each org that a runner is of, and each by its runners.
pub proof fn the_orgs_are_counted(s: Snapshot)
    requires
        s.counts_agree(),
    ensures
        forall|k: int| 0 <= k < s.orgs@.len() ==> counts_org(#[trigger] s.orgs@[k], s.runners@),
        forall|i: int|
            0 <= i < s.runners@.len() ==> has_counts(s.orgs@, (#[trigger] s.runners@[i]).org@),
{
    let rs = s.runners@;
    let n = rs.len() as int;
    let orgs = org_names(rs, n);
    assert(rollups(s.orgs@).len() == s.orgs@.len());
    assert forall|k: int| 0 <= k < s.orgs@.len() implies counts_org(#[trigger] s.orgs@[k], rs) by {
        let o = s.orgs@[k];
        assert(o@ == rollups(s.orgs@)[k]);
        assert(rollups_of(rs)[k] == rollup_of(rs, orgs[k]));
        let org = orgs[k];
        assert(o.org@ == org);
        let a = in_org(rs, org);
        let b = known_in_org(rs, org);
        let c = online_in_org(rs, org);
        selected_are_counted(a, n);
        selected_are_counted(b, n);
        selected_are_counted(c, n);
        assert(Set::new(|i: int| 0 <= i < n && a(i)) =~= Set::new(
            |i: int| 0 <= i < rs.len() && rs[i].org@ == o.org@,
        ));
        assert(Set::new(|i: int| 0 <= i < n && b(i)) =~= Set::new(
            |i: int| 0 <= i < rs.len() && rs[i].org@ == o.org@ && rs[i].gh is Fresh,
        ));
        assert(Set::new(|i: int| 0 <= i < n && c(i)) =~= Set::new(
            |i: int|
                0 <= i < rs.len() && rs[i].org@ == o.org@ && (rs[i].gh matches GhView::Fresh {
                    state,
                    ..
                } && state.online),
        ));
    }
    assert forall|i: int| 0 <= i < rs.len() implies has_counts(s.orgs@, (#[trigger] rs[i]).org@) by {
        crate::metrics::every_org_is_rolled_up(rs, n, rs[i].org@);
        let k = choose|k: int| 0 <= k < orgs.len() && orgs[k] == rs[i].org@;
        assert(rollups_of(rs)[k].org == rs[i].org@);
        assert(s.orgs@[k]@ == rollups(s.orgs@)[k]);
        assert(s.orgs@[k].org@ == rs[i].org@);
    }
}

// ---------------------------------------------------------------------------
// Gathering
// ---------------------------------------------------------------------------

/// How long something has lasted: never less than no time, and as much as fits.
pub open spec fn lasted(now: i64, since: i64) -> int {
    if now <= since {
        0
    } else if now - since > i64::MAX {
        i64::MAX as int
    } else {
        now - since
    }
}

/// A runner's row shows its sample, how long it has been in its state by its edge,
/// GitHub's last reading of it, and how long GitHub has called it offline.
pub open spec fn shows_runner(m: RunnerMetric, r: RunnerSample, db: Db, now: i64, max_age: u64) -> bool {
    let states = db.runner_states@;
    let edges = db.api_states@;
    let api = db.api_samples@;
    &&& m.agent_id == r.agent_id && m.name@ == r.name@ && m.org@ == r.org@
    &&& m.liveness == r.liveness
    &&& m.cpu_pct == r.cpu_pct
    &&& m.mem_bytes == r.mem_bytes
    &&& m.mem_current_bytes == r.mem_current_bytes
    &&& forall|i: int|
        0 <= i < states.len() && (#[trigger] states[i]).dir@ == r.dir@ && (forall|j: int|
            0 <= j < i ==> (#[trigger] states[j]).dir@ != r.dir@) ==> m.state_seconds == lasted(
            now,
            states[i].since_ts,
        )
    &&& (forall|i: int| 0 <= i < states.len() ==> (#[trigger] states[i]).dir@ != r.dir@)
        ==> m.state_seconds == 0
    &&& forall|j: int| #[trigger]
        last_reading(api, r.org@, r.agent_id, j) ==> views_reading(m.gh, api[j], now, max_age)
    &&& m.gh is Unknown <==> forall|k: int|
        0 <= k < api.len() ==> !((#[trigger] api[k]).org@ == r.org@ && api[k].agent_id
            == r.agent_id)
    &&& forall|i: int|
        0 <= i < edges.len() && (#[trigger] edges[i]).org@ == r.org@ && edges[i].agent_id
            == r.agent_id && (forall|j: int|
            0 <= j < i ==> !((#[trigger] edges[j]).org@ == r.org@ && edges[j].agent_id
                == r.agent_id)) ==> (if edges[i].online {
            m.gh_offline_seconds is None
        } else {
            m.gh_offline_seconds matches Some(t) && t == lasted(now, edges[i].since_ts)
        })
    &&& (forall|i: int|
        0 <= i < edges.len() ==> !((#[trigger] edges[i]).org@ == r.org@ && edges[i].agent_id
            == r.agent_id)) ==> m.gh_offline_seconds is None
}

proof fn a_metric_shows_its_sample(db: Db, r: RunnerSample, now: i64, max_age: u64)
    ensures
        shows_runner(crate::metrics::metric_of(db, r, now, max_age), r, db, now, max_age),
{
    let m = crate::metrics::metric_of(db, r, now, max_age);
    let states = db.runner_states@;
    let edges = db.api_states@;
    let api = db.api_samples@;
    let p = |i: int| states[i].dir@ == r.dir@;
    let q = |i: int| edges[i].org@ == r.org@ && edges[i].agent_id == r.agent_id;
    first_where_is_least(p, states.len() as int);
    first_where_is_least(q, edges.len() as int);
    let a = dir_at(states, r.dir@);
    let b = runner_at(edges, r.org@, r.agent_id);
    if a < states.len() {
        assert(p(a));
        assert(states[a].dir@ == r.dir@);
    }
    if b < edges.len() {
        assert(q(b));
        assert(edges[b].org@ == r.org@);
    }
    assert forall|i: int|
        0 <= i < states.len() && (#[trigger] states[i]).dir@ == r.dir@ && (forall|j: int|
            0 <= j < i ==> (#[trigger] states[j]).dir@ != r.dir@) implies m.state_seconds == lasted(
        now,
        states[i].since_ts,
    ) by {
        if i < a {
            assert(!p(i));
        } else if a < i {
            assert(states[a].dir@ != r.dir@);
        }
    }
    assert forall|i: int|
        0 <= i < edges.len() && (#[trigger] edges[i]).org@ == r.org@ && edges[i].agent_id
            == r.agent_id && (forall|j: int|
            0 <= j < i ==> !((#[trigger] edges[j]).org@ == r.org@ && edges[j].agent_id
                == r.agent_id)) implies (if edges[i].online {
        m.gh_offline_seconds is None
    } else {
        m.gh_offline_seconds matches Some(t) && t == lasted(now, edges[i].since_ts)
    }) by {
        if i < b {
            assert(!q(i));
        } else if b < i {
            assert(!(edges[b].org@ == r.org@ && edges[b].agent_id == r.agent_id));
        }
    }
    let j = a_view_shows_the_last_reading(api, r.org@, r.agent_id, now, max_age);
    assert forall|k: int| #[trigger] last_reading(api, r.org@, r.agent_id, k) implies views_reading(
        m.gh,
        api[k],
        now,
        max_age,
    ) by {
        assert(api[k].org@ == r.org@ && api[k].agent_id == r.agent_id);
        assert(m.gh !is Unknown);
        assert(api[j].org@ == r.org@);
        assert(k == j);
    }
}

/// A snapshot shows the tables: a row for each sample of the newest tick, in their
/// order, when that tick was, the newest host sample, how many jobs there are and
/// how many have not ended, and every org's health. Gives the samples' positions.
pub proof fn a_snapshot_shows_the_tables(
    r: Snapshot,
    db: Db,
    now: i64,
    version: Seq<char>,
    max_age: u64,
) -> (w: Seq<int>)
    requires
        gathered(r, db, now, version, max_age),
    ensures
        r.now == now && r.version@ == version && r.max_age == max_age,
        w.len() == r.runners@.len(),
        forall|k: int|
            0 <= k < w.len() ==> 0 <= #[trigger] w[k] < db.runner_samples@.len() && shows_runner(
                r.runners@[k],
                db.runner_samples@[w[k]],
                db,
                now,
                max_age,
            ) && r.last_sample_ts == Some(db.runner_samples@[w[k]].ts),
        forall|a: int, b: int| 0 <= a < b < w.len() ==> #[trigger] w[a] < #[trigger] w[b],
        forall|i: int|
            0 <= i < db.runner_samples@.len() ==> (#[trigger] w.contains(i) <==> forall|j: int|
                0 <= j < db.runner_samples@.len() ==> (#[trigger] db.runner_samples@[j]).ts
                    <= db.runner_samples@[i].ts),
        r.last_sample_ts is None <==> db.runner_samples@.len() == 0,
        db.host_samples@.len() == 0 ==> r.load1 is None && r.mem_used is None && r.mem_total is None,
        forall|j: int|
            0 <= j < db.host_samples@.len() && (forall|i: int|
                0 <= i < db.host_samples@.len() ==> (#[trigger] db.host_samples@[i]).ts
                    < db.host_samples@[j].ts || db.host_samples@[i].ts == db.host_samples@[j].ts && i
                    <= j) ==> {
                &&& r.load1 == Some((#[trigger] db.host_samples@[j]).load1)
                &&& r.mem_used == Some(db.host_samples@[j].mem_used)
                &&& r.mem_total == Some(db.host_samples@[j].mem_total)
            },
        r.jobs_total == db.jobs@.len(),
        r.jobs_running == Set::new(
            |i: int| 0 <= i < db.jobs@.len() && db.jobs@[i].completed_at is None,
        ).len(),
        r.reconcile@.len() == db.reconcile_states@.len(),
        forall|i: int|
            0 <= i < db.reconcile_states@.len() ==> r.reconcile@.contains(
                #[trigger] db.reconcile_states@[i],
            ),
{
    let rows = db.runner_samples@;
    let w = the_newest_tick_is_whole(rows);
    newest_tick_has_its_time(rows);
    running_jobs_have_not_ended(db.jobs@);
    let h = the_newest_host_is_newest(db.host_samples@);
    let v = the_healths_are_sorted(db.reconcile_states@);
    assert forall|k: int| 0 <= k < w.len() implies 0 <= #[trigger] w[k] < rows.len() && shows_runner(
        r.runners@[k],
        rows[w[k]],
        db,
        now,
        max_age,
    ) && r.last_sample_ts == Some(rows[w[k]].ts) by {
        a_metric_shows_its_sample(db, rows[w[k]], now, max_age);
        assert(newest_tick(rows)[k] == rows[w[k]]);
    }
    assert forall|j: int|
        0 <= j < db.host_samples@.len() && (forall|i: int|
            0 <= i < db.host_samples@.len() ==> (#[trigger] db.host_samples@[i]).ts
                < db.host_samples@[j].ts || db.host_samples@[i].ts == db.host_samples@[j].ts && i
                <= j) implies {
        &&& r.load1 == Some((#[trigger] db.host_samples@[j]).load1)
        &&& r.mem_used == Some(db.host_samples@[j].mem_used)
        &&& r.mem_total == Some(db.host_samples@[j].mem_total)
    } by {
        assert(db.host_samples@[h].ts <= db.host_samples@[j].ts);
        assert(db.host_samples@[j].ts <= db.host_samples@[h].ts);
        assert(h == j);
    }
    assert forall|i: int| 0 <= i < db.reconcile_states@.len() implies r.reconcile@.contains(
        #[trigger] db.reconcile_states@[i],
    ) by {
        assert(v.contains(i));
        let k = choose|k: int| 0 <= k < v.len() && v[k] == i;
        assert(r.reconcile@[k] == db.reconcile_states@[i]);
    }
    if rows.len() > 0 {
        crate::store::reader::max_ts_is_greatest(rows, rows.len() as int);
    }
    w
}

} // verus!
