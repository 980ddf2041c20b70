//! The snapshot as a flat JSON array, for a push: one record of the fleet and one
//! per runner.

use vstd::prelude::*;

use crate::json::{
    json_bool, json_i64, json_list, json_model, json_models, json_null, json_object, json_str,
    json_text, json_to_string, json_u64, no_entries, object_entries, object_new, object_put, Json,
};
use crate::metrics::status::fleet_verdict;
use crate::metrics::{OrgRollup, RunnerMetric, Snapshot};
use crate::models::{diverges, Liveness, Measure, Verdict};
use crate::text::owned;

verus! {

/// An optional number.
pub open spec fn opt_u64(n: Option<u64>) -> Json {
    match n {
        Some(v) => Json::Int(v as int),
        None => Json::Null,
    }
}

/// An optional signed number.
pub open spec fn opt_i64(n: Option<i64>) -> Json {
    match n {
        Some(v) => Json::Int(v as int),
        None => Json::Null,
    }
}

/// An optional truth value.
pub open spec fn opt_flag(b: Option<bool>) -> Json {
    match b {
        Some(v) => Json::Bool(v),
        None => Json::Null,
    }
}

/// An optional measurement.
pub open spec fn opt_measure(m: Option<Measure>) -> Json {
    match m {
        Some(v) => json_model(v.json),
        None => Json::Null,
    }
}

/// 1 for true, 0 for false.
pub open spec fn bit_json(b: bool) -> Json {
    Json::Int(
        if b {
            1
        } else {
            0
        },
    )
}

fn value_u64(n: Option<u64>) -> (r: serde_json::Value)
    ensures
        json_model(r) == opt_u64(n),
{
    match n {
        Some(v) => json_u64(v),
        None => json_null(),
    }
}

fn value_i64(n: Option<i64>) -> (r: serde_json::Value)
    ensures
        json_model(r) == opt_i64(n),
{
    match n {
        Some(v) => json_i64(v),
        None => json_null(),
    }
}

fn value_flag(b: Option<bool>) -> (r: serde_json::Value)
    ensures
        json_model(r) == opt_flag(b),
{
    match b {
        Some(v) => json_bool(v),
        None => json_null(),
    }
}

fn value_measure(m: &Option<Measure>) -> (r: serde_json::Value)
    ensures
        json_model(r) == opt_measure(*m),
{
    match m {
        Some(v) => v.json.clone(),
        None => json_null(),
    }
}

fn value_bit(b: bool) -> (r: serde_json::Value)
    ensures
        json_model(r) == bit_json(b),
{
    if b {
        json_u64(1)
    } else {
        json_u64(0)
    }
}

fn put(m: &mut serde_json::Map<String, serde_json::Value>, key: &str, value: serde_json::Value)
    ensures
        object_entries(*final(m)) == object_entries(*old(m)).insert(key@, json_model(value)),
{
    object_put(m, owned(key), value);
}

/// The record of an org.
pub open spec fn org_record(o: OrgRollup) -> Json {
    Json::Object(
        no_entries().insert("org"@, Json::Text(o.org@)).insert(
            "runners"@,
            Json::Int(o.total as int),
        ).insert("github_online"@, Json::Int(o.github_online as int)),
    )
}

/// The word of the fleet's verdict.
pub open spec fn verdict_word(s: Snapshot) -> Seq<char> {
    match fleet_verdict(s.runners@.len(), s.divergent, s.offline) {
        Verdict::Healthy => "ok"@,
        Verdict::Degraded => "degraded"@,
        Verdict::Unknown => "unknown"@,
    }
}

/// The record of the fleet.
pub open spec fn fleet_record(s: Snapshot) -> Json {
    Json::Object(
        no_entries().insert("_timestamp"@, Json::Int(s.now * 1_000_000)).insert(
            "kind"@,
            Json::Text("fleet"@),
        ).insert("version"@, Json::Text(s.version@)).insert(
            "runners"@,
            Json::Int(s.runners@.len() as int),
        ).insert("busy"@, Json::Int(s.busy as int)).insert("idle"@, Json::Int(s.idle as int)).insert(
            "offline"@,
            Json::Int(s.offline as int),
        ).insert("load1"@, opt_measure(s.load1)).insert("mem_used"@, opt_u64(s.mem_used)).insert(
            "mem_total"@,
            opt_u64(s.mem_total),
        ).insert("jobs_total"@, Json::Int(s.jobs_total as int)).insert(
            "jobs_running"@,
            Json::Int(s.jobs_running as int),
        ).insert("last_sample_ts"@, opt_i64(s.last_sample_ts)).insert(
            "divergent"@,
            Json::Int(s.divergent as int),
        ).insert("verdict"@, Json::Text(verdict_word(s))).insert(
            "orgs"@,
            Json::List(s.orgs@.map_values(|o: OrgRollup| org_record(o))),
        ),
    )
}

/// The record of a runner.
pub open spec fn runner_record(now: i64, r: RunnerMetric) -> Json {
    Json::Object(
        no_entries().insert("_timestamp"@, Json::Int(now * 1_000_000)).insert(
            "kind"@,
            Json::Text("runner"@),
        ).insert("agent_id"@, Json::Int(r.agent_id as int)).insert("name"@, Json::Text(r.name@)).insert(
            "org"@,
            Json::Text(r.org@),
        ).insert("liveness"@, Json::Text(r.liveness.word())).insert(
            "up"@,
            bit_json(r.liveness != Liveness::Offline),
        ).insert("busy"@, bit_json(r.liveness == Liveness::Busy)).insert(
            "cpu_percent"@,
            opt_measure(r.cpu_pct),
        ).insert("mem_bytes"@, opt_u64(r.mem_bytes)).insert(
            "mem_current_bytes"@,
            opt_u64(r.mem_current_bytes),
        ).insert("state_seconds"@, Json::Int(r.state_seconds as int)).insert(
            "github_online"@,
            opt_flag(r.gh.online_view()),
        ).insert("github_busy"@, opt_flag(r.gh.busy_view())).insert(
            "github_sample_age_s"@,
            opt_i64(r.gh.age_view()),
        ).insert("github_offline_seconds"@, opt_i64(r.gh_offline_seconds)).insert(
            "divergent"@,
            opt_flag(diverges(r.liveness, r.gh)),
        ),
    )
}

fn org_value(o: &OrgRollup) -> (r: serde_json::Value)
    ensures
        json_model(r) == org_record(*o),
{
    let mut m = object_new();
    put(&mut m, "org", json_str(o.org.as_str()));
    put(&mut m, "runners", json_u64(o.total as u64));
    put(&mut m, "github_online", json_u64(o.github_online as u64));
    json_object(m)
}

fn runner_value(ts_us: i64, now: i64, r: &RunnerMetric) -> (v: serde_json::Value)
    requires
        ts_us == now * 1_000_000,
    ensures
        json_model(v) == runner_record(now, *r),
{
    let mut m = object_new();
    put(&mut m, "_timestamp", json_i64(ts_us));
    put(&mut m, "kind", json_str("runner"));
    put(&mut m, "agent_id", json_i64(r.agent_id));
    put(&mut m, "name", json_str(r.name.as_str()));
    put(&mut m, "org", json_str(r.org.as_str()));
    put(&mut m, "liveness", json_str(r.liveness.as_str()));
    put(&mut m, "up", value_bit(r.liveness != Liveness::Offline));
    put(&mut m, "busy", value_bit(r.liveness == Liveness::Busy));
    put(&mut m, "cpu_percent", value_measure(&r.cpu_pct));
    put(&mut m, "mem_bytes", value_u64(r.mem_bytes));
    put(&mut m, "mem_current_bytes", value_u64(r.mem_current_bytes));
    put(&mut m, "state_seconds", json_i64(r.state_seconds));
    put(&mut m, "github_online", value_flag(r.gh.online()));
    put(&mut m, "github_busy", value_flag(r.gh.busy()));
    put(&mut m, "github_sample_age_s", value_i64(r.gh.age_s()));
    put(&mut m, "github_offline_seconds", value_i64(r.gh_offline_seconds));
    put(&mut m, "divergent", value_flag(r.divergent()));
    json_object(m)
}

impl Snapshot {
    /// The records of a snapshot: the fleet's, then one per runner.
    pub open spec fn records(&self) -> Json {
        Json::List(
            seq![fleet_record(*self)] + self.runners@.map_values(
                |r: RunnerMetric| runner_record(self.now, r),
            ),
        )
    }

    fn fleet_value(&self, ts_us: i64) -> (r: serde_json::Value)
        requires
            ts_us == self.now * 1_000_000,
        ensures
            json_model(r) == fleet_record(*self),
    {
        let mut orgs: Vec<serde_json::Value> = Vec::new();
        let mut i: usize = 0;
        while i < self.orgs.len()
            invariant
                i <= self.orgs@.len(),
                json_models(orgs@) == self.orgs@.take(i as int).map_values(
                    |o: OrgRollup| org_record(o),
                ),
            decreases self.orgs@.len() - i,
        {
            let ghost was = orgs@;
            let v = org_value(&self.orgs[i]);
            let ghost model = json_model(v);
            orgs.push(v);
            assert(json_models(orgs@) =~= json_models(was).push(model));
            assert(json_models(orgs@) =~= self.orgs@.take(i + 1).map_values(
                |o: OrgRollup| org_record(o),
            ));
            i = i + 1;
        }
        assert(self.orgs@.take(i as int) =~= self.orgs@);
        let verdict = match self.verdict() {
            Verdict::Healthy => "ok",
            Verdict::Degraded => "degraded",
            Verdict::Unknown => "unknown",
        };
        let mut m = object_new();
        put(&mut m, "_timestamp", json_i64(ts_us));
        put(&mut m, "kind", json_str("fleet"));
        put(&mut m, "version", json_str(self.version.as_str()));
        put(&mut m, "runners", json_u64(self.runners.len() as u64));
        put(&mut m, "busy", json_u64(self.busy as u64));
        put(&mut m, "idle", json_u64(self.idle as u64));
        put(&mut m, "offline", json_u64(self.offline as u64));
        put(&mut m, "load1", value_measure(&self.load1));
        put(&mut m, "mem_used", value_u64(self.mem_used));
        put(&mut m, "mem_total", value_u64(self.mem_total));
        put(&mut m, "jobs_total", json_u64(self.jobs_total));
        put(&mut m, "jobs_running", json_u64(self.jobs_running));
        put(&mut m, "last_sample_ts", value_i64(self.last_sample_ts));
        put(&mut m, "divergent", json_u64(self.divergent as u64));
        put(&mut m, "verdict", json_str(verdict));
        put(&mut m, "orgs", json_list(orgs));
        json_object(m)
    }

    /// Render the records as JSON text: `[]` where the serializer fails.
    /// `_timestamp` is in microseconds, so the snapshot's time must leave room for
    /// them.
    pub fn to_json(&self) -> (r: String)
        requires
            i64::MIN <= self.now * 1_000_000 <= i64::MAX,
        ensures
            r@ == (match json_text(self.records()) {
                Some(text) => text,
                None => "[]"@,
            }),
    {
        let ts_us: i64 = self.now * 1_000_000;
        let ghost per_runner = self.runners@.map_values(
            |r: RunnerMetric| runner_record(self.now, r),
        );
        let mut items: Vec<serde_json::Value> = Vec::new();
        let fleet = self.fleet_value(ts_us);
        let ghost first = json_model(fleet);
        items.push(fleet);
        assert(json_models(items@) =~= seq![first] + per_runner.take(0));
        let mut i: usize = 0;
        while i < self.runners.len()
            invariant
                i <= self.runners@.len(),
                ts_us == self.now * 1_000_000,
                per_runner == self.runners@.map_values(
                    |r: RunnerMetric| runner_record(self.now, r),
                ),
                json_models(items@) == seq![first] + per_runner.take(i as int),
            decreases self.runners@.len() - i,
        {
            let ghost was = items@;
            let v = runner_value(ts_us, self.now, &self.runners[i]);
            let ghost model = json_model(v);
            items.push(v);
            assert(json_models(items@) =~= json_models(was).push(model));
            assert(json_models(items@) =~= seq![first] + per_runner.take(i + 1));
            i = i + 1;
        }
        assert(per_runner.take(i as int) =~= per_runner);
        let all = json_list(items);
        match json_to_string(&all) {
            Some(text) => text,
            None => owned("[]"),
        }
    }
}

} // verus!
