//! The hooks that record a runner's jobs.

use vstd::prelude::*;

use crate::path::{join, joined};

pub mod chain;
pub mod env;
pub mod install;
pub mod lines;
pub mod reversal;

verus! {

/// Name of a runner's own event log, in the root of its install directory.
pub const RUNNER_EVENT_LOG: &'static str = ".ghr-stats-events.ndjson";

/// The event log of the runner installed at `dir`. Writer and reader both ask
/// here, so they cannot disagree.
pub fn runner_event_log(dir: &str) -> (r: String)
    ensures
        r@ == joined(dir@, RUNNER_EVENT_LOG@),
{
    join(dir, RUNNER_EVENT_LOG)
}

} // verus!
