//! What the host shows of its runners and of itself.

use vstd::prelude::*;

use crate::collectors::runners::RunnerProbe;
use crate::models::{HostSample, RunnerInfo};
use crate::path::{join, joined};
use crate::text::names;

pub mod cgroup;
pub mod cpu;
pub mod laws;
pub mod procscan;
pub mod runners;

verus! {

/// One round of local sampling.
pub struct LocalSnapshot {
    pub runners: Vec<RunnerProbe>,

    pub host: HostSample,
}

/// The work folders of runners.
pub open spec fn folders(infos: Seq<RunnerInfo>) -> Seq<Seq<char>> {
    infos.map_values(|i: RunnerInfo| joined(i.dir@, i.work_folder@))
}

/// The work folders of runners, one for each.
pub fn work_dirs(infos: &[RunnerInfo]) -> (r: Vec<String>)
    ensures
        names(r@) == folders(infos@),
{
    let mut out: Vec<String> = Vec::new();
    let mut i: usize = 0;
    assert(names(out@) =~= folders(infos@).take(0));
    while i < infos.len()
        invariant
            i <= infos@.len(),
            names(out@) == folders(infos@).take(i as int),
        decreases infos@.len() - i,
    {
        let ghost was = out@;
        out.push(join(infos[i].dir.as_str(), infos[i].work_folder.as_str()));
        proof {
            assert(names(out@) =~= names(was).push(folders(infos@)[i as int]));
            assert(folders(infos@).take(i + 1) =~= folders(infos@).take(i as int).push(
                folders(infos@)[i as int],
            ));
        }
        i = i + 1;
    }
    assert(folders(infos@).take(i as int) =~= folders(infos@));
    out
}

} // verus!
