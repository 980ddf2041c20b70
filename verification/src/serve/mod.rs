//! The collector: what its producers hand to the one writer, and what the writer
//! does with it. The threads, the channel and the sockets are the program's.

use vstd::prelude::*;
use vstd::string::*;

use crate::models::{ApiOrgOutcome, HookEvent, HostSample, JobConclusion, RunnerSample};
use crate::path::{components, components_of, join, joined, kind, parent, parent_of};
use crate::scan::texts;
use crate::store::tables::Db;
use crate::store::writer::github::{api_written, write_api_runners};
use crate::store::writer::jobs::{
    apply_hook_events, apply_job_conclusions, conclusions_applied, hooks_applied,
};
use crate::store::writer::{local_written, write_local};
use crate::text::{chars_of, owned};

pub mod github;
pub mod jobs;
pub mod laws;
pub mod local;

verus! {

/// The expensive walk of the work folders is made once in so many local ticks.
pub const WORK_WALK_EVERY: u64 = 12;

/// The longest, in milliseconds, that a wait goes on without looking whether it is
/// to end.
pub const SLEEP_STEP_MS: u64 = 200;

/// How many samples may wait for the writer.
pub const CHANNEL_BOUND: usize = 64;

/// One unit of work for the writer.
#[derive(Debug)]
pub enum Sample {
    Local { runners: Vec<RunnerSample>, host: HostSample },
    Api { ts: i64, outcomes: Vec<ApiOrgOutcome> },
    Hook {
        /// The log that the events came from.
        stream: String,
        events: Vec<HookEvent>,
        offset: u64,
    },
    JobConclusions { updates: Vec<JobConclusion> },
}

/// Whether the tables took a sample, and nothing else.
pub open spec fn took(before: Db, after: Db, sample: Sample) -> bool {
    match sample {
        Sample::Local { runners, host } => local_written(before, after, runners@, host),
        Sample::Api { ts, outcomes } => api_written(before, after, ts, outcomes@),
        Sample::Hook { stream, events, offset } => hooks_applied(
            before,
            after,
            stream@,
            events@,
            offset,
        ),
        Sample::JobConclusions { updates } => conclusions_applied(before, after, updates@),
    }
}

/// Write one sample.
pub fn apply_sample(db: &mut Db, sample: Sample)
    ensures
        took(*old(db), *final(db), sample),
{
    match sample {
        Sample::Local { runners, host } => write_local(db, runners.as_slice(), host),
        Sample::Api { ts, outcomes } => write_api_runners(db, ts, outcomes.as_slice()),
        Sample::Hook { stream, events, offset } => apply_hook_events(
            db,
            stream.as_str(),
            events.as_slice(),
            offset,
        ),
        Sample::JobConclusions { updates } => apply_job_conclusions(db, updates.as_slice()),
    }
}

/// Whatever is written, in whatever order, the tables stay well formed.
pub proof fn samples_keep_the_tables(before: Db, after: Db, sample: Sample)
    requires
        before.wf(),
        took(before, after, sample),
    ensures
        after.wf(),
{
}

/// Whether a path ends in a name.
pub open spec fn ends_in_name(p: Seq<char>) -> bool {
    components(p).len() > 0 && kind(components(p).last()) == 3
}

/// The path with another last name; behind it where it ends in none.
pub open spec fn beside(p: Seq<char>, name: Seq<char>) -> Seq<char> {
    match parent_of(p) {
        Some(dir) => if ends_in_name(p) {
            joined(dir, name)
        } else {
            joined(p, name)
        },
        None => joined(p, name),
    }
}

/// The lock of the collector, beside the database.
pub fn lock_path(db_path: &str) -> (r: String)
    ensures
        r@ == beside(db_path@, "serve.lock"@),
{
    let chars = chars_of(db_path);
    let parts = components_of(chars.as_slice());
    assert(texts(parts@).len() == parts@.len());
    let named = if parts.len() > 0 {
        let last = &parts[parts.len() - 1];
        assert(texts(parts@)[parts@.len() - 1] == last@);
        crate::path::kind_of(last) == 3
    } else {
        false
    };
    match parent(db_path) {
        Some(dir) => if named {
            join(dir.as_str(), "serve.lock")
        } else {
            join(db_path, "serve.lock")
        },
        None => join(db_path, "serve.lock"),
    }
}

/// Why the collector does not start: it is no command for a terminal, unless it is
/// let run in one.
pub fn foreground_refusal(terminal: bool, allowed: bool) -> (r: Option<&'static str>)
    ensures
        r is Some <==> terminal && !allowed,
        r matches Some(m) ==> m@
            == "`serve` is the background collector, not an interactive command — install it with `ghr-stats systemd install` (set GHR_STATS_ALLOW_TTY=1 to run it in the foreground anyway)"@,
{
    if terminal && !allowed {
        Some(
            "`serve` is the background collector, not an interactive command — install it with `ghr-stats systemd install` (set GHR_STATS_ALLOW_TTY=1 to run it in the foreground anyway)",
        )
    } else {
        None
    }
}

/// What is said when another collector holds the lock.
pub fn already_running(cause: &str) -> (r: String)
    ensures
        r@ == "another ghr-stats collector is already running ("@ + cause@ + ")"@,
{
    let mut s = owned("another ghr-stats collector is already running (");
    s.append(cause);
    s.append(")");
    s
}

/// How long to sleep before looking again, in milliseconds: `None` where the wait
/// is over, because its end has come or the collector is to stop.
pub fn sleep_for(now: u64, deadline: u64, stopping: bool) -> (r: Option<u64>)
    ensures
        r is None <==> stopping || now >= deadline,
        r matches Some(ms) ==> ms as int == if deadline - now < SLEEP_STEP_MS {
            deadline - now
        } else {
            SLEEP_STEP_MS as int
        },
{
    if stopping || now >= deadline {
        return None;
    }
    let left: u64 = deadline - now;
    if left < SLEEP_STEP_MS {
        Some(left)
    } else {
        Some(SLEEP_STEP_MS)
    }
}

} // verus!
