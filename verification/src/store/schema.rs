//! The schema of the database, as an ordered list of migrations that only grows.

use vstd::prelude::*;
use vstd::string::*;

use crate::error::{config_error, Error};
use crate::text::{dec, dec_i64, owned};

verus! {

/// Samples, jobs and offsets.
pub const V1: &'static str = r#"
CREATE TABLE runner_sample (
    ts             INTEGER NOT NULL,
    agent_id       INTEGER NOT NULL,
    name           TEXT    NOT NULL,
    org            TEXT    NOT NULL,
    liveness       TEXT    NOT NULL,
    current_run_id INTEGER,
    cpu_pct        REAL,
    mem_bytes      INTEGER,
    uptime_s       INTEGER
);
CREATE INDEX idx_runner_sample_ts ON runner_sample(ts);
CREATE INDEX idx_runner_sample_agent ON runner_sample(agent_id, ts);

CREATE TABLE host_sample (
    ts         INTEGER NOT NULL,
    load1      REAL    NOT NULL,
    load5      REAL    NOT NULL,
    mem_used   INTEGER NOT NULL,
    mem_total  INTEGER NOT NULL,
    numa_json  TEXT,
    work_bytes INTEGER,
    tmp_bytes  INTEGER,
    root_free  INTEGER
);
CREATE INDEX idx_host_sample_ts ON host_sample(ts);

CREATE TABLE job_event (
    run_id       INTEGER NOT NULL,
    run_attempt  INTEGER NOT NULL DEFAULT 1,
    job          TEXT    NOT NULL DEFAULT '',
    repo         TEXT    NOT NULL DEFAULT '',
    org          TEXT    NOT NULL DEFAULT '',
    runner_name  TEXT    NOT NULL DEFAULT '',
    started_at   INTEGER,
    completed_at INTEGER,
    conclusion   TEXT,
    source       TEXT    NOT NULL DEFAULT 'hook',
    PRIMARY KEY (run_id, run_attempt, job, runner_name)
);
CREATE INDEX idx_job_event_started ON job_event(started_at);
CREATE INDEX idx_job_event_runner ON job_event(runner_name, started_at);

CREATE TABLE queue_sample (
    ts          INTEGER NOT NULL,
    org         TEXT    NOT NULL,
    queued      INTEGER NOT NULL,
    in_progress INTEGER NOT NULL
);
CREATE INDEX idx_queue_sample_ts ON queue_sample(ts);

CREATE TABLE ingest_offset (
    stream TEXT    PRIMARY KEY,
    offset INTEGER NOT NULL
);
"#;

/// GitHub's view of each runner.
pub const V2: &'static str = r#"
CREATE TABLE api_runner_sample (
    ts       INTEGER NOT NULL,
    agent_id INTEGER NOT NULL,
    org      TEXT    NOT NULL,
    name     TEXT    NOT NULL,
    online   INTEGER NOT NULL,
    busy     INTEGER NOT NULL
);
CREATE INDEX idx_api_runner_sample_ts ON api_runner_sample(ts);
CREATE INDEX idx_api_runner_sample_agent ON api_runner_sample(agent_id);
"#;

/// The liveness edge of each runner.
pub const V3: &'static str = r#"
CREATE TABLE runner_state (
    agent_id     INTEGER PRIMARY KEY,
    liveness     TEXT    NOT NULL,
    since_ts     INTEGER NOT NULL,
    last_seen_ts INTEGER NOT NULL
);
"#;

/// Local identity is the install directory: an id is unique only within its org. The
/// edges that are dropped fill again at the next tick.
pub const V4: &'static str = r#"
ALTER TABLE runner_sample ADD COLUMN dir TEXT NOT NULL DEFAULT '';
DROP TABLE runner_state;
CREATE TABLE runner_state (
    dir          TEXT PRIMARY KEY,
    liveness     TEXT    NOT NULL,
    since_ts     INTEGER NOT NULL,
    last_seen_ts INTEGER NOT NULL
);
"#;

/// Memory with the page cache, beside the working set. Unknown for older rows.
pub const V5: &'static str = r#"
ALTER TABLE runner_sample ADD COLUMN mem_current_bytes INTEGER;
"#;

/// How long GitHub has said what it says, and how well it could be asked.
pub const V6: &'static str = r#"
CREATE TABLE api_runner_state (
    org          TEXT    NOT NULL,
    agent_id     INTEGER NOT NULL,
    online       INTEGER NOT NULL,
    since_ts     INTEGER NOT NULL,
    last_seen_ts INTEGER NOT NULL,
    PRIMARY KEY (org, agent_id)
);

CREATE TABLE api_reconcile_state (
    org         TEXT PRIMARY KEY,
    last_ok_ts  INTEGER,
    last_try_ts INTEGER NOT NULL,
    ok          INTEGER NOT NULL,
    http_status INTEGER,
    error_kind  TEXT,
    configured  INTEGER NOT NULL
);

CREATE TABLE api_reconcile_sample (
    ts          INTEGER NOT NULL,
    org         TEXT    NOT NULL,
    ok          INTEGER NOT NULL,
    http_status INTEGER,
    error_kind  TEXT,
    runners     INTEGER NOT NULL
);
CREATE INDEX idx_api_reconcile_sample_ts ON api_reconcile_sample(ts);

CREATE INDEX idx_api_runner_sample_org_agent_ts
    ON api_runner_sample(org, agent_id, ts);
"#;

/// The schema that this build knows.
pub const TARGET: i64 = 6;

/// The migrations, in order.
pub open spec fn migrations() -> Seq<Seq<char>> {
    seq![V1@, V2@, V3@, V4@, V5@, V6@]
}

/// What a database needs.
#[derive(Debug)]
pub enum Plan {
    /// Nothing.
    UpToDate,
    /// These statements, then the version of this build.
    Apply(Vec<&'static str>),
}

/// The texts of statements.
pub open spec fn statements(v: Seq<&'static str>) -> Seq<Seq<char>> {
    v.map_values(|s: &'static str| s@)
}

/// What is said of a database that a newer build wrote.
pub open spec fn newer_text(current: i64) -> Seq<char> {
    "database schema is v"@ + dec(current as int) + ", but this build knows only v"@ + dec(
        TARGET as int,
    )
        + " — the database was written by a NEWER ghr-stats. Upgrade the binary, or point this one at a database it wrote; migrations are append-only, so an older build cannot know what a newer schema requires."@
}

/// What a database at version `current` needs: the migrations it lacks. One that a
/// newer build wrote is refused, since this build cannot know what its schema
/// requires; a version below zero lacks none.
pub fn migrate(current: i64) -> (r: Result<Plan, Error>)
    ensures
        r is Err <==> current > TARGET,
        r matches Err(e) ==> e@ == config_error(newer_text(current)),
        r matches Ok(plan) ==> (plan is UpToDate <==> current == TARGET),
        r matches Ok(Plan::Apply(v)) ==> statements(v@) == if current >= 0 {
            migrations().skip(current as int)
        } else {
            Seq::<Seq<char>>::empty()
        },
{
    if current > TARGET {
        let mut m = owned("database schema is v");
        m.append(dec_i64(current).as_str());
        m.append(", but this build knows only v");
        m.append(dec_i64(TARGET).as_str());
        m.append(
            " — the database was written by a NEWER ghr-stats. Upgrade the binary, or point this one at a database it wrote; migrations are append-only, so an older build cannot know what a newer schema requires.",
        );
        return Err(Error::Config(m));
    }
    if current == TARGET {
        return Ok(Plan::UpToDate);
    }
    let all: [&'static str; 6] = [V1, V2, V3, V4, V5, V6];
    let mut out: Vec<&'static str> = Vec::new();
    if current >= 0 {
        let mut i: usize = current as usize;
        while i < 6
            invariant
                0 <= current <= i <= 6,
                all@ == seq![V1, V2, V3, V4, V5, V6],
                out@ == all@.subrange(current as int, i as int),
            decreases 6 - i,
        {
            out.push(all[i]);
            i = i + 1;
        }
        assert(statements(out@) =~= migrations().skip(current as int));
    } else {
        assert(statements(out@) =~= Seq::<Seq<char>>::empty());
    }
    Ok(Plan::Apply(out))
}

/// A database that was migrated needs nothing more, and the migrations that two
/// builds apply one after the other are those that one applies at once.
pub proof fn migrations_compose(from: int, between: int)
    requires
        0 <= from <= between <= TARGET,
    ensures
        migrations().skip(from) == migrations().subrange(from, between) + migrations().skip(between),
        migrations().skip(TARGET as int) == Seq::<Seq<char>>::empty(),
{
    assert(migrations().skip(from) =~= migrations().subrange(from, between) + migrations().skip(
        between,
    ));
    assert(migrations().skip(TARGET as int) =~= Seq::<Seq<char>>::empty());
}

/// There is one step to each version, and they are taken in order.
pub proof fn each_version_has_its_step()
    ensures
        migrations().len() == TARGET,
        migrations()[0] == V1@ && migrations()[1] == V2@ && migrations()[2] == V3@,
        migrations()[3] == V4@ && migrations()[4] == V5@ && migrations()[5] == V6@,
{
}

} // verus!
