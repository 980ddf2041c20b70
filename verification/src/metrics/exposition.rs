//! The snapshot as the Prometheus text exposition, for a scrape.

use vstd::prelude::*;
use vstd::string::*;

use crate::metrics::{OrgRollup, RunnerMetric, Snapshot};
use crate::models::{diverges, ApiReconcileState, Liveness};
use crate::text::{chars_of, dec, dec_i64, dec_u64, dec_usize, owned};

verus! {

// ---------------------------------------------------------------------------
// Escaping
// ---------------------------------------------------------------------------

/// One character of a label value, escaped.
pub open spec fn esc_char(c: char) -> Seq<char> {
    if c == '\\' {
        seq!['\\', '\\']
    } else if c == '"' {
        seq!['\\', '"']
    } else if c == '\n' {
        seq!['\\', 'n']
    } else {
        seq![c]
    }
}

/// A label value with backslash, quote and line feed escaped.
pub open spec fn escaped(s: Seq<char>) -> Seq<char>
    decreases s.len(),
{
    if s.len() == 0 {
        seq![]
    } else {
        escaped(s.drop_last()) + esc_char(s.last())
    }
}

/// Escape a Prometheus label value.
pub fn esc(s: &str) -> (r: String)
    ensures
        r@ == escaped(s@),
{
    let chars = chars_of(s);
    let mut out = String::new();
    let mut i: usize = 0;
    assert(s@.take(0) =~= seq![]);
    while i < chars.len()
        invariant
            i <= chars@.len(),
            chars@ == s@,
            out@ == escaped(s@.take(i as int)),
        decreases chars@.len() - i,
    {
        let c = chars[i];
        assert(s@.take(i + 1).drop_last() =~= s@.take(i as int));
        let ghost was = out@;
        if c == '\\' {
            out.push('\\');
            out.push('\\');
            assert(out@ =~= was + esc_char(c));
        } else if c == '"' {
            out.push('\\');
            out.push('"');
            assert(out@ =~= was + esc_char(c));
        } else if c == '\n' {
            out.push('\\');
            out.push('n');
            assert(out@ =~= was + esc_char(c));
        } else {
            out.push(c);
            assert(out@ =~= was + esc_char(c));
        }
        i = i + 1;
    }
    assert(s@.take(i as int) =~= s@);
    out
}

/// What an escaped value stands for: the escapes undone from the left.
pub open spec fn unescaped(s: Seq<char>) -> Seq<char>
    decreases s.len(),
{
    if s.len() == 0 {
        seq![]
    } else if s[0] == '\\' && s.len() > 1 {
        seq![
            if s[1] == 'n' {
                '\n'
            } else {
                s[1]
            },
        ] + unescaped(s.skip(2))
    } else {
        seq![s[0]] + unescaped(s.skip(1))
    }
}

/// Where the label value that starts `s` ends: at the first quote that is not
/// escaped, else at the end of `s`.
pub open spec fn value_end(s: Seq<char>) -> int
    decreases s.len(),
{
    if s.len() == 0 || s[0] == '"' {
        0
    } else if s[0] == '\\' && s.len() > 1 {
        2 + value_end(s.skip(2))
    } else {
        1 + value_end(s.skip(1))
    }
}

/// No quote stands unescaped in an escaped value, nor does the value take the
/// quote behind it for its own: it ends where it was ended, whatever follows.
pub proof fn escaped_values_end_at_their_quote(s: Seq<char>, rest: Seq<char>)
    ensures
        value_end(escaped(s)) == escaped(s).len(),
        value_end(escaped(s) + seq!['"'] + rest) == escaped(s).len(),
{
    let none: Seq<char> = seq![];
    value_end_behind(s, none);
    assert(escaped(s) + none =~= escaped(s));
    value_end_behind(s, seq!['"'] + rest);
    assert(escaped(s) + seq!['"'] + rest =~= escaped(s) + (seq!['"'] + rest));
}

proof fn value_end_behind(s: Seq<char>, rest: Seq<char>)
    ensures
        value_end(escaped(s) + rest) == escaped(s).len() + value_end(rest),
    decreases s.len(),
{
    if s.len() == 0 {
        assert(escaped(s) + rest =~= rest);
    } else {
        let init = s.drop_last();
        let t = esc_char(s.last());
        let u = t + rest;
        assert(escaped(s) + rest =~= escaped(init) + u);
        value_end_behind(init, u);
        if t.len() == 2 {
            assert(u[0] == '\\');
            assert(u.skip(2) =~= rest);
        } else {
            assert(u[0] == s.last());
            assert(u.skip(1) =~= rest);
        }
    }
}

/// An escaped value holds no line feed, so it cannot end the line it stands in;
/// and undoing the escapes gives the value back.
pub proof fn escaping_is_lossless(s: Seq<char>)
    ensures
        !escaped(s).contains('\n'),
        unescaped(escaped(s)) == s,
    decreases s.len(),
{
    if s.len() > 0 {
        let init = s.drop_last();
        escaping_is_lossless(init);
        let e = escaped(init);
        let t = esc_char(s.last());
        assert forall|k: int| 0 <= k < (e + t).len() implies (e + t)[k] != '\n' by {
            if k < e.len() {
                assert(e.contains(e[k]));
            }
        }
        unescaped_of_escaped_prefix(init, t);
        assert(unescaped(t) =~= seq![s.last()]) by {
            reveal_with_fuel(unescaped, 3);
            assert(t.skip(1).len() == 0 || t.len() == 2);
            assert(t.len() == 2 ==> t.skip(2) =~= seq![]);
        }
        assert(s =~= init + seq![s.last()]);
    } else {
        assert(escaped(s) =~= seq![]);
    }
}

proof fn unescaped_of_escaped_prefix(s: Seq<char>, rest: Seq<char>)
    ensures
        unescaped(escaped(s) + rest) == s + unescaped(rest),
    decreases s.len(),
{
    if s.len() == 0 {
        assert(escaped(s) + rest =~= rest);
        assert(s + unescaped(rest) =~= unescaped(rest));
    } else {
        let init = s.drop_last();
        let t = esc_char(s.last());
        assert(escaped(s) + rest =~= escaped(init) + (t + rest));
        unescaped_of_escaped_prefix(init, t + rest);
        assert(unescaped(t + rest) == seq![s.last()] + unescaped(rest)) by {
            let u = t + rest;
            if t.len() == 2 {
                assert(u[0] == '\\');
                assert(u.skip(2) =~= rest);
            } else {
                assert(u.skip(1) =~= rest);
            }
        }
        assert(s + unescaped(rest) =~= init + (seq![s.last()] + unescaped(rest)));
    }
}

// ---------------------------------------------------------------------------
// Families with one sample per runner
// ---------------------------------------------------------------------------

/// The families that carry one sample per runner.
#[derive(Debug, Clone, Copy, PartialEq, Eq, Structural)]
pub enum Family {
    Up,
    Busy,
    CpuPercent,
    MemBytes,
    MemCurrentBytes,
    StateSeconds,
    GithubOnline,
    GithubBusy,
    GithubSampleAge,
    GithubOfflineSeconds,
    Divergent,
}

/// 1 for true, 0 for false.
pub open spec fn bit(b: bool) -> Seq<char> {
    if b {
        "1"@
    } else {
        "0"@
    }
}

/// An optional bit.
pub open spec fn opt_bit(b: Option<bool>) -> Option<Seq<char>> {
    match b {
        Some(v) => Some(bit(v)),
        None => None,
    }
}

/// An optional number.
pub open spec fn opt_dec_u(n: Option<u64>) -> Option<Seq<char>> {
    match n {
        Some(v) => Some(dec(v as int)),
        None => None,
    }
}

/// An optional signed number.
pub open spec fn opt_dec_i(n: Option<i64>) -> Option<Seq<char>> {
    match n {
        Some(v) => Some(dec(v as int)),
        None => None,
    }
}

/// How long a runner has been offline to GitHub, as it is exported: by its edge;
/// 0 where there is none and a fresh reading calls it online; else not at all.
pub open spec fn offline_seconds(r: RunnerMetric) -> Option<i64> {
    match r.gh_offline_seconds {
        Some(v) => Some(v),
        None => if r.gh.online_view() == Some(true) {
            Some(0)
        } else {
            None
        },
    }
}

impl Family {
    /// The metric's name.
    pub open spec fn name(self) -> Seq<char> {
        match self {
            Family::Up => "ghr_runner_up"@,
            Family::Busy => "ghr_runner_busy"@,
            Family::CpuPercent => "ghr_runner_cpu_percent"@,
            Family::MemBytes => "ghr_runner_mem_bytes"@,
            Family::MemCurrentBytes => "ghr_runner_mem_current_bytes"@,
            Family::StateSeconds => "ghr_runner_state_seconds"@,
            Family::GithubOnline => "ghr_runner_github_online"@,
            Family::GithubBusy => "ghr_runner_github_busy"@,
            Family::GithubSampleAge => "ghr_runner_github_sample_age_seconds"@,
            Family::GithubOfflineSeconds => "ghr_runner_github_offline_seconds"@,
            Family::Divergent => "ghr_runner_divergent"@,
        }
    }

    /// A runner's value; none where the family has no sample of it.
    pub open spec fn value(self, r: RunnerMetric) -> Option<Seq<char>> {
        match self {
            Family::Up => Some(bit(r.liveness != Liveness::Offline)),
            Family::Busy => Some(bit(r.liveness == Liveness::Busy)),
            Family::CpuPercent => match r.cpu_pct {
                Some(m) => Some(m.text@),
                None => None,
            },
            Family::MemBytes => opt_dec_u(r.mem_bytes),
            Family::MemCurrentBytes => opt_dec_u(r.mem_current_bytes),
            Family::StateSeconds => Some(dec(r.state_seconds as int)),
            Family::GithubOnline => opt_bit(r.gh.online_view()),
            Family::GithubBusy => opt_bit(r.gh.busy_view()),
            Family::GithubSampleAge => opt_dec_i(r.gh.age_view()),
            Family::GithubOfflineSeconds => opt_dec_i(offline_seconds(r)),
            Family::Divergent => opt_bit(diverges(r.liveness, r.gh)),
        }
    }

    /// Labels beyond the common ones.
    pub open spec fn extra(self, r: RunnerMetric) -> Seq<char> {
        match self {
            Family::StateSeconds => ",state=\""@ + r.liveness.word() + "\""@,
            _ => ""@,
        }
    }

    fn metric_name(self) -> (s: &'static str)
        ensures
            s@ == self.name(),
    {
        match self {
            Family::Up => "ghr_runner_up",
            Family::Busy => "ghr_runner_busy",
            Family::CpuPercent => "ghr_runner_cpu_percent",
            Family::MemBytes => "ghr_runner_mem_bytes",
            Family::MemCurrentBytes => "ghr_runner_mem_current_bytes",
            Family::StateSeconds => "ghr_runner_state_seconds",
            Family::GithubOnline => "ghr_runner_github_online",
            Family::GithubBusy => "ghr_runner_github_busy",
            Family::GithubSampleAge => "ghr_runner_github_sample_age_seconds",
            Family::GithubOfflineSeconds => "ghr_runner_github_offline_seconds",
            Family::Divergent => "ghr_runner_divergent",
        }
    }

    fn sample_value(self, r: &RunnerMetric) -> (v: Option<String>)
        ensures
            v is Some == (self.value(*r) is Some),
            v matches Some(s) ==> self.value(*r) == Some(s@),
    {
        match self {
            Family::Up => Some(owned(bit_str(r.liveness != Liveness::Offline))),
            Family::Busy => Some(owned(bit_str(r.liveness == Liveness::Busy))),
            Family::CpuPercent => match &r.cpu_pct {
                Some(m) => Some(owned(m.text.as_str())),
                None => None,
            },
            Family::MemBytes => match r.mem_bytes {
                Some(m) => Some(dec_u64(m)),
                None => None,
            },
            Family::MemCurrentBytes => match r.mem_current_bytes {
                Some(m) => Some(dec_u64(m)),
                None => None,
            },
            Family::StateSeconds => Some(dec_i64(r.state_seconds)),
            Family::GithubOnline => match r.gh.online() {
                Some(b) => Some(owned(bit_str(b))),
                None => None,
            },
            Family::GithubBusy => match r.gh.busy() {
                Some(b) => Some(owned(bit_str(b))),
                None => None,
            },
            Family::GithubSampleAge => match r.gh.age_s() {
                Some(a) => Some(dec_i64(a)),
                None => None,
            },
            Family::GithubOfflineSeconds => match r.gh_offline_seconds {
                Some(v) => Some(dec_i64(v)),
                None => match r.gh.online() {
                    Some(true) => Some(dec_i64(0)),
                    _ => None,
                },
            },
            Family::Divergent => match r.divergent() {
                Some(d) => Some(owned(bit_str(d))),
                None => None,
            },
        }
    }

    fn extra_labels(self, r: &RunnerMetric) -> (s: String)
        ensures
            s@ == self.extra(*r),
    {
        match self {
            Family::StateSeconds => {
                let mut s = owned(",state=\"");
                s.append(r.liveness.as_str());
                s.append("\"");
                s
            },
            _ => owned(""),
        }
    }
}

fn bit_str(b: bool) -> (s: &'static str)
    ensures
        s@ == bit(b),
{
    if b {
        "1"
    } else {
        "0"
    }
}

impl RunnerMetric {
    /// The common labels, escaped.
    pub open spec fn label_set(&self) -> Seq<char> {
        "agent_id=\""@ + dec(self.agent_id as int) + "\",name=\""@ + escaped(self.name@) + "\",org=\""@
            + escaped(self.org@) + "\""@
    }

    /// The common `agent_id`, `name` and `org` labels, escaped.
    pub fn labels(&self) -> (s: String)
        ensures
            s@ == self.label_set(),
    {
        let mut s = owned("agent_id=\"");
        s.append(dec_i64(self.agent_id).as_str());
        s.append("\",name=\"");
        s.append(esc(self.name.as_str()).as_str());
        s.append("\",org=\"");
        s.append(esc(self.org.as_str()).as_str());
        s.append("\"");
        s
    }
}

/// A runner's line in a family: empty where the family has no sample of it.
pub open spec fn runner_line(f: Family, r: RunnerMetric) -> Seq<char> {
    match f.value(r) {
        Some(v) => f.name() + "{"@ + r.label_set() + f.extra(r) + "} "@ + v + "\n"@,
        None => ""@,
    }
}

/// The lines of the first `n` runners in a family.
pub open spec fn runner_lines(f: Family, rs: Seq<RunnerMetric>, n: int) -> Seq<char>
    decreases n,
{
    if n <= 0 {
        ""@
    } else {
        runner_lines(f, rs, n - 1) + runner_line(f, rs[n - 1])
    }
}

/// A family: its type line, and its samples.
pub open spec fn family_text(f: Family, rs: Seq<RunnerMetric>) -> Seq<char> {
    "# TYPE "@ + f.name() + " gauge\n"@ + runner_lines(f, rs, rs.len() as int)
}

fn line_of(f: Family, r: &RunnerMetric) -> (s: String)
    ensures
        s@ == runner_line(f, *r),
{
    match f.sample_value(r) {
        Some(v) => {
            let mut s = owned(f.metric_name());
            s.append("{");
            s.append(r.labels().as_str());
            s.append(f.extra_labels(r).as_str());
            s.append("} ");
            s.append(v.as_str());
            s.append("\n");
            s
        },
        None => owned(""),
    }
}

fn family(f: Family, rs: &Vec<RunnerMetric>) -> (s: String)
    ensures
        s@ == family_text(f, rs@),
{
    let mut lines = owned("");
    let mut i: usize = 0;
    while i < rs.len()
        invariant
            i <= rs@.len(),
            lines@ == runner_lines(f, rs@, i as int),
        decreases rs@.len() - i,
    {
        lines.append(line_of(f, &rs[i]).as_str());
        i = i + 1;
    }
    let mut s = owned("# TYPE ");
    s.append(f.metric_name());
    s.append(" gauge\n");
    s.append(lines.as_str());
    s
}

// ---------------------------------------------------------------------------
// The fleet, the orgs and the reconcile
// ---------------------------------------------------------------------------

/// The lines of an org.
pub open spec fn org_line(o: OrgRollup) -> Seq<char> {
    "ghr_org_runners{org=\""@ + escaped(o.org@) + "\",state=\"total\"} "@ + dec(o.total as int)
        + "\nghr_org_runners{org=\""@ + escaped(o.org@) + "\",state=\"github_online\"} "@ + dec(
        o.github_online as int,
    ) + "\n"@
}

/// The lines of the first `n` orgs.
pub open spec fn org_lines(os: Seq<OrgRollup>, n: int) -> Seq<char>
    decreases n,
{
    if n <= 0 {
        ""@
    } else {
        org_lines(os, n - 1) + org_line(os[n - 1])
    }
}

/// When an org last succeeded, if it ever did.
pub open spec fn last_ok_line(c: ApiReconcileState) -> Seq<char> {
    match c.last_ok_ts {
        Some(ts) => "ghr_api_reconcile_timestamp_seconds{org=\""@ + escaped(c.org@) + "\"} "@ + dec(
            ts as int,
        ) + "\n"@,
        None => ""@,
    }
}

/// An org's last failure, if it has one.
pub open spec fn error_line(c: ApiReconcileState) -> Seq<char> {
    match c.error_kind {
        Some(kind) => "ghr_api_reconcile_errors_total{org=\""@ + escaped(c.org@) + "\",kind=\""@
            + escaped(kind@) + "\"} 1\n"@,
        None => ""@,
    }
}

/// The lines of an org's reconcile.
pub open spec fn health_line(c: ApiReconcileState) -> Seq<char> {
    "ghr_api_reconcile_ok{org=\""@ + escaped(c.org@) + "\"} "@ + bit(c.ok)
        + "\nghr_api_org_configured{org=\""@ + escaped(c.org@) + "\"} "@ + bit(c.configured) + "\n"@
        + last_ok_line(c) + error_line(c)
}

/// The lines of the first `n` orgs' reconciles.
pub open spec fn health_lines(cs: Seq<ApiReconcileState>, n: int) -> Seq<char>
    decreases n,
{
    if n <= 0 {
        ""@
    } else {
        health_lines(cs, n - 1) + health_line(cs[n - 1])
    }
}

/// When the fleet was last sampled, if it ever was.
pub open spec fn last_sample_text(s: Snapshot) -> Seq<char> {
    match s.last_sample_ts {
        Some(ts) => "# TYPE ghr_last_sample_timestamp_seconds gauge\nghr_last_sample_timestamp_seconds "@
            + dec(ts as int) + "\n"@,
        None => ""@,
    }
}

/// The host's load, if it is known.
pub open spec fn load_text(s: Snapshot) -> Seq<char> {
    match s.load1 {
        Some(v) => "# TYPE ghr_host_load1 gauge\nghr_host_load1 "@ + v.text@ + "\n"@,
        None => ""@,
    }
}

/// The host's memory, if it is known.
pub open spec fn memory_text(s: Snapshot) -> Seq<char> {
    match (s.mem_used, s.mem_total) {
        (Some(u), Some(t)) => "# TYPE ghr_host_mem_bytes gauge\nghr_host_mem_bytes{kind=\"used\"} "@
            + dec(u as int) + "\nghr_host_mem_bytes{kind=\"total\"} "@ + dec(t as int) + "\n"@,
        _ => ""@,
    }
}

/// The fleet's families.
pub open spec fn fleet_text(s: Snapshot) -> Seq<char> {
    "# HELP ghr_build_info Build metadata.\n# TYPE ghr_build_info gauge\nghr_build_info{version=\""@
        + escaped(s.version@) + "\"} 1\n"@
        + "# TYPE ghr_fleet_runners gauge\nghr_fleet_runners "@ + dec(s.runners@.len() as int)
        + "\n# TYPE ghr_fleet_by_state gauge\nghr_fleet_by_state{state=\"busy\"} "@ + dec(
        s.busy as int,
    ) + "\nghr_fleet_by_state{state=\"idle\"} "@ + dec(s.idle as int)
        + "\nghr_fleet_by_state{state=\"offline\"} "@ + dec(s.offline as int)
        + "\nghr_fleet_by_state{state=\"divergent\"} "@ + dec(s.divergent as int) + "\n"@
        + last_sample_text(s) + load_text(s) + memory_text(s)
        + "# TYPE ghr_jobs_total gauge\nghr_jobs_total "@ + dec(s.jobs_total as int)
        + "\n# TYPE ghr_jobs_running gauge\nghr_jobs_running "@ + dec(s.jobs_running as int) + "\n"@
}

/// The families of the runners.
pub open spec fn runners_text(s: Snapshot) -> Seq<char> {
    family_text(Family::Up, s.runners@) + family_text(Family::Busy, s.runners@) + family_text(
        Family::CpuPercent,
        s.runners@,
    ) + family_text(Family::MemBytes, s.runners@) + family_text(Family::MemCurrentBytes, s.runners@)
        + family_text(Family::StateSeconds, s.runners@) + family_text(
        Family::GithubOnline,
        s.runners@,
    ) + family_text(Family::GithubBusy, s.runners@) + family_text(
        Family::GithubSampleAge,
        s.runners@,
    ) + family_text(Family::GithubOfflineSeconds, s.runners@) + family_text(
        Family::Divergent,
        s.runners@,
    )
}

/// The families of the orgs and of asking GitHub.
pub open spec fn orgs_text(s: Snapshot) -> Seq<char> {
    "# TYPE ghr_org_runners gauge\n"@ + org_lines(s.orgs@, s.orgs@.len() as int)
        + "# TYPE ghr_api_max_age_seconds gauge\nghr_api_max_age_seconds "@ + dec(s.max_age as int)
        + "\n# TYPE ghr_api_reconcile_ok gauge\n# TYPE ghr_api_org_configured gauge\n# TYPE ghr_api_reconcile_timestamp_seconds gauge\n# TYPE ghr_api_reconcile_errors_total counter\n"@
        + health_lines(s.reconcile@, s.reconcile@.len() as int)
}

fn org_text(o: &OrgRollup) -> (r: String)
    ensures
        r@ == org_line(*o),
{
    let name = esc(o.org.as_str());
    let mut s = owned("ghr_org_runners{org=\"");
    s.append(name.as_str());
    s.append("\",state=\"total\"} ");
    s.append(dec_u64(o.total as u64).as_str());
    s.append("\nghr_org_runners{org=\"");
    s.append(name.as_str());
    s.append("\",state=\"github_online\"} ");
    s.append(dec_u64(o.github_online as u64).as_str());
    s.append("\n");
    s
}

fn health_text(c: &ApiReconcileState) -> (r: String)
    ensures
        r@ == health_line(*c),
{
    let name = esc(c.org.as_str());
    let last_ok = match c.last_ok_ts {
        Some(ts) => {
            let mut s = owned("ghr_api_reconcile_timestamp_seconds{org=\"");
            s.append(name.as_str());
            s.append("\"} ");
            s.append(dec_i64(ts).as_str());
            s.append("\n");
            s
        },
        None => owned(""),
    };
    let error = match &c.error_kind {
        Some(kind) => {
            let mut s = owned("ghr_api_reconcile_errors_total{org=\"");
            s.append(name.as_str());
            s.append("\",kind=\"");
            s.append(esc(kind.as_str()).as_str());
            s.append("\"} 1\n");
            s
        },
        None => owned(""),
    };
    let mut s = owned("ghr_api_reconcile_ok{org=\"");
    s.append(name.as_str());
    s.append("\"} ");
    s.append(bit_str(c.ok));
    s.append("\nghr_api_org_configured{org=\"");
    s.append(name.as_str());
    s.append("\"} ");
    s.append(bit_str(c.configured));
    s.append("\n");
    s.append(last_ok.as_str());
    s.append(error.as_str());
    s
}

impl Snapshot {
    /// The Prometheus text exposition of a snapshot.
    pub open spec fn exposition(&self) -> Seq<char> {
        fleet_text(*self) + runners_text(*self) + orgs_text(*self)
    }

    fn fleet_exposition(&self) -> (r: String)
        ensures
            r@ == fleet_text(*self),
    {
        let last_sample = match self.last_sample_ts {
            Some(ts) => {
                let mut s = owned(
                    "# TYPE ghr_last_sample_timestamp_seconds gauge\nghr_last_sample_timestamp_seconds ",
                );
                s.append(dec_i64(ts).as_str());
                s.append("\n");
                s
            },
            None => owned(""),
        };
        let load = match &self.load1 {
            Some(v) => {
                let mut s = owned("# TYPE ghr_host_load1 gauge\nghr_host_load1 ");
                s.append(v.text.as_str());
                s.append("\n");
                s
            },
            None => owned(""),
        };
        let memory = match (self.mem_used, self.mem_total) {
            (Some(u), Some(t)) => {
                let mut s = owned(
                    "# TYPE ghr_host_mem_bytes gauge\nghr_host_mem_bytes{kind=\"used\"} ",
                );
                s.append(dec_u64(u).as_str());
                s.append("\nghr_host_mem_bytes{kind=\"total\"} ");
                s.append(dec_u64(t).as_str());
                s.append("\n");
                s
            },
            _ => owned(""),
        };
        let mut s = owned(
            "# HELP ghr_build_info Build metadata.\n# TYPE ghr_build_info gauge\nghr_build_info{version=\"",
        );
        s.append(esc(self.version.as_str()).as_str());
        s.append("\"} 1\n");
        s.append("# TYPE ghr_fleet_runners gauge\nghr_fleet_runners ");
        s.append(dec_usize(self.runners.len()).as_str());
        s.append("\n# TYPE ghr_fleet_by_state gauge\nghr_fleet_by_state{state=\"busy\"} ");
        s.append(dec_u64(self.busy as u64).as_str());
        s.append("\nghr_fleet_by_state{state=\"idle\"} ");
        s.append(dec_u64(self.idle as u64).as_str());
        s.append("\nghr_fleet_by_state{state=\"offline\"} ");
        s.append(dec_u64(self.offline as u64).as_str());
        s.append("\nghr_fleet_by_state{state=\"divergent\"} ");
        s.append(dec_u64(self.divergent as u64).as_str());
        s.append("\n");
        s.append(last_sample.as_str());
        s.append(load.as_str());
        s.append(memory.as_str());
        s.append("# TYPE ghr_jobs_total gauge\nghr_jobs_total ");
        s.append(dec_u64(self.jobs_total).as_str());
        s.append("\n# TYPE ghr_jobs_running gauge\nghr_jobs_running ");
        s.append(dec_u64(self.jobs_running).as_str());
        s.append("\n");
        s
    }

    fn runners_exposition(&self) -> (r: String)
        ensures
            r@ == runners_text(*self),
    {
        let mut s = family(Family::Up, &self.runners);
        s.append(family(Family::Busy, &self.runners).as_str());
        s.append(family(Family::CpuPercent, &self.runners).as_str());
        s.append(family(Family::MemBytes, &self.runners).as_str());
        s.append(family(Family::MemCurrentBytes, &self.runners).as_str());
        s.append(family(Family::StateSeconds, &self.runners).as_str());
        s.append(family(Family::GithubOnline, &self.runners).as_str());
        s.append(family(Family::GithubBusy, &self.runners).as_str());
        s.append(family(Family::GithubSampleAge, &self.runners).as_str());
        s.append(family(Family::GithubOfflineSeconds, &self.runners).as_str());
        s.append(family(Family::Divergent, &self.runners).as_str());
        s
    }

    fn orgs_exposition(&self) -> (r: String)
        ensures
            r@ == orgs_text(*self),
    {
        let mut orgs = owned("");
        let mut i: usize = 0;
        while i < self.orgs.len()
            invariant
                i <= self.orgs@.len(),
                orgs@ == org_lines(self.orgs@, i as int),
            decreases self.orgs@.len() - i,
        {
            orgs.append(org_text(&self.orgs[i]).as_str());
            i = i + 1;
        }
        let mut health = owned("");
        let mut k: usize = 0;
        while k < self.reconcile.len()
            invariant
                k <= self.reconcile@.len(),
                health@ == health_lines(self.reconcile@, k as int),
            decreases self.reconcile@.len() - k,
        {
            health.append(health_text(&self.reconcile[k]).as_str());
            k = k + 1;
        }
        let mut s = owned("# TYPE ghr_org_runners gauge\n");
        s.append(orgs.as_str());
        s.append("# TYPE ghr_api_max_age_seconds gauge\nghr_api_max_age_seconds ");
        s.append(dec_u64(self.max_age).as_str());
        s.append(
            "\n# TYPE ghr_api_reconcile_ok gauge\n# TYPE ghr_api_org_configured gauge\n# TYPE ghr_api_reconcile_timestamp_seconds gauge\n# TYPE ghr_api_reconcile_errors_total counter\n",
        );
        s.append(health.as_str());
        s
    }

    /// Render the Prometheus text exposition.
    pub fn to_prometheus(&self) -> (r: String)
        ensures
            r@ == self.exposition(),
    {
        let mut s = self.fleet_exposition();
        s.append(self.runners_exposition().as_str());
        s.append(self.orgs_exposition().as_str());
        s
    }
}

} // verus!
