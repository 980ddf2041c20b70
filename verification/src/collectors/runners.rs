//! Finding runners and probing them.
//!
//! A runner's identity is read from its own file. Whether it is up, and what it
//! uses, follows from the processes of its owner and from its control group.

use vstd::prelude::*;
use vstd::slice::{slice_subrange, slice_to_vec};
use vstd::string::*;

use crate::collectors::cgroup::{
    cpu_usage_usec, field, fits, memory_current, memory_working_set, number, working_set,
};
use crate::collectors::procscan::{age, uptime_secs, ProcInfo};
use crate::models::{Liveness, RunnerInfo};
use crate::path::{
    components, components_le, parent, parent_of, path_at_or_before, path_order_is_total,
    path_order_is_transitive, same_path,
};
use crate::privileged::{from_utf8_lossy, lossy_text};
use crate::scan::{
    after_prefix, find, found_at, has_suffix, lines, lines_of, split, split_on, strip, texts, trim,
    trim_end_of, trimmed, trimmed_end_of,
};
use crate::store::reader::any_row;
use crate::store::rows::{
    at, first_where, find_row, order, order_is_sorted, order_rows, order_stays_within, select,
    select_is_exact, select_rows, total_preorder,
};
use crate::text::{
    chars_of, dec, dec_u64, names, owned, same, string_of, text_at_or_before, text_le,
};

verus! {

/// Name of the listener process: present where the runner is online.
pub const LISTENER_COMM: &'static str = "Runner.Listener";

/// Name of the worker process: present where the runner has a job.
pub const WORKER_COMM: &'static str = "Runner.Worker";

/// What a runner's own file says of it.
#[derive(Debug)]
pub struct DotRunner {
    pub agent_id: i64,
    pub agent_name: String,
    pub github_url: String,
    pub pool_name: Option<String>,
    pub work_folder: Option<String>,
}

/// A runner's file names no org: the address that it gives.
#[derive(Debug, PartialEq, Eq)]
pub struct NoOrg {
    pub github_url: String,
}

/// What was read of a runner's control group: `None` for a file that could not be.
#[derive(Debug)]
pub struct CgroupFiles {
    pub memory_current: Option<String>,
    pub memory_stat: Option<String>,
    pub cpu_stat: Option<String>,
}

/// A live probe of one runner. The use of the processor needs two of them.
#[derive(Debug, Clone)]
pub struct RunnerProbe {
    pub info: RunnerInfo,
    pub liveness: Liveness,
    /// Working-set memory.
    pub mem_bytes: Option<u64>,
    /// Memory with the reclaimable page cache.
    pub mem_current_bytes: Option<u64>,
    /// Cumulative processor time in microseconds.
    pub cpu_usage_usec: Option<u64>,
    pub uptime_s: Option<u64>,
}

// ---------------------------------------------------------------------------
// Identity
// ---------------------------------------------------------------------------

/// `s` without the byte order mark that a runner's file starts with.
pub open spec fn unmarked(s: Seq<char>) -> Seq<char> {
    if s.len() > 0 && s[0] == '\u{feff}' {
        s.drop_first()
    } else {
        s
    }
}

/// `s` without a leading byte order mark.
pub fn strip_bom(s: &str) -> (r: String)
    ensures
        r@ == unmarked(s@),
{
    let chars = chars_of(s);
    let mark: Vec<char> = vec!['\u{feff}'];
    match strip(chars.as_slice(), mark.as_slice()) {
        Some(rest) => {
            assert(rest@ =~= s@.drop_first());
            assert(s@[0] == mark@[0]);
            string_of(rest)
        },
        None => {
            proof {
                if s@.len() > 0 && s@[0] == '\u{feff}' {
                    assert(mark@.is_prefix_of(s@));
                }
            }
            owned(s)
        },
    }
}

/// The part of an address behind its scheme, up to a second `://`; the whole of
/// it where there is no scheme.
pub open spec fn past_scheme(url: Seq<char>) -> Seq<char> {
    match found_at(url, "://"@) {
        Some(i) => {
            let rest = url.skip(i + 3);
            match found_at(rest, "://"@) {
                Some(j) => rest.take(j),
                None => rest,
            }
        },
        None => url,
    }
}

/// The owner that an address names: the first segment behind the host.
pub open spec fn owner(url: Seq<char>) -> Option<Seq<char>> {
    let segs = split(trim_end_of(past_scheme(url), seq!['/']), '/');
    if segs.len() >= 2 && segs[1].len() > 0 {
        Some(segs[1])
    } else {
        None
    }
}

fn past_scheme_of(url: &str) -> (r: Vec<char>)
    ensures
        r@ == past_scheme(url@),
{
    let chars = chars_of(url);
    let sep = chars_of("://");
    proof {
        reveal_strlit("://");
    }
    let n: usize = chars.len();
    match find(chars.as_slice(), sep.as_slice()) {
        Some(i) => {
            assert(i + 3 <= n);
            let rest = slice_subrange(chars.as_slice(), i + 3, n);
            assert(rest@ =~= url@.skip(i + 3));
            match find(rest, sep.as_slice()) {
                Some(j) => {
                    let part = slice_subrange(rest, 0, j);
                    assert(part@ =~= rest@.take(j as int));
                    slice_to_vec(part)
                },
                None => slice_to_vec(rest),
            }
        },
        None => chars,
    }
}

/// The org, or the owner, in a runner's address.
pub fn org_from_github_url(url: &str) -> (r: Option<String>)
    ensures
        r is Some == (owner(url@) is Some),
        r matches Some(o) ==> owner(url@) == Some(o@),
{
    let tail = past_scheme_of(url);
    let slash: Vec<char> = vec!['/'];
    assert(slash@ =~= seq!['/']);
    let segs = split_on(trimmed_end_of(tail.as_slice(), slash.as_slice()), '/');
    assert(texts(segs@).len() == segs@.len());
    if segs.len() >= 2 {
        assert(texts(segs@)[1] == segs@[1]@);
        if segs[1].len() > 0 {
            return Some(string_of(segs[1].as_slice()));
        }
    }
    None
}

/// A runner from what its own file says, the owner of its directory, and that
/// owner's name. The address must name an org; the work folder is `_work` where
/// none is named, and an owner without a name goes by the number.
pub fn read_runner(dir: &str, parsed: DotRunner, uid: u32, user: Option<&str>) -> (r: Result<
    RunnerInfo,
    NoOrg,
>)
    ensures
        r is Ok == (owner(parsed.github_url@) is Some),
        r matches Err(e) ==> e.github_url@ == parsed.github_url@,
        r matches Ok(info) ==> {
            &&& info.agent_id == parsed.agent_id
            &&& info.name@ == parsed.agent_name@
            &&& owner(parsed.github_url@) == Some(info.org@)
            &&& info.group == parsed.pool_name
            &&& info.dir@ == dir@
            &&& info.work_folder@ == match parsed.work_folder {
                Some(w) => w@,
                None => "_work"@,
            }
            &&& info.uid == uid
            &&& info.user@ == match user {
                Some(u) => u@,
                None => dec(uid as int),
            }
        },
{
    match org_from_github_url(parsed.github_url.as_str()) {
        Some(org) => {
            let work_folder = match parsed.work_folder {
                Some(w) => w,
                None => owned("_work"),
            };
            let user = match user {
                Some(u) => owned(u),
                None => dec_u64(uid as u64),
            };
            Ok(
                RunnerInfo {
                    agent_id: parsed.agent_id,
                    name: parsed.agent_name,
                    org,
                    group: parsed.pool_name,
                    dir: owned(dir),
                    work_folder,
                    uid,
                    user,
                },
            )
        },
        None => Err(NoOrg { github_url: parsed.github_url }),
    }
}

/// The runners that were read, in the order in which they were.
pub open spec fn read_ones(read: Seq<Option<RunnerInfo>>) -> Seq<RunnerInfo>
    decreases read.len(),
{
    if read.len() == 0 {
        seq![]
    } else {
        match read.last() {
            Some(info) => read_ones(read.drop_last()).push(info),
            None => read_ones(read.drop_last()),
        }
    }
}

/// The order of runners by name.
pub open spec fn infos_by_name(rows: Seq<RunnerInfo>) -> spec_fn(int, int) -> bool {
    |i: int, j: int| text_le(rows[i].name@, rows[j].name@)
}

/// Runners by name; those of one name keep their order.
pub open spec fn sorted_infos(rows: Seq<RunnerInfo>) -> Seq<RunnerInfo> {
    order(infos_by_name(rows), select(any_row(), rows.len() as int)).map_values(|i: int| rows[i])
}

/// The runners found: those that could be read, by name. A runner that could not
/// is passed over.
pub fn discover(read: &[Option<RunnerInfo>]) -> (r: Vec<RunnerInfo>)
    ensures
        r@ == sorted_infos(read_ones(read@)),
{
    let mut rows: Vec<RunnerInfo> = Vec::new();
    let mut i: usize = 0;
    assert(read@.take(0) =~= seq![]);
    while i < read.len()
        invariant
            i <= read@.len(),
            rows@ == read_ones(read@.take(i as int)),
        decreases read@.len() - i,
    {
        assert(read@.take(i + 1).drop_last() =~= read@.take(i as int));
        assert(read@.take(i + 1).last() == read@[i as int]);
        match &read[i] {
            Some(info) => {
                rows.push(info.clone());
            },
            None => {},
        }
        i = i + 1;
    }
    assert(read@.take(i as int) =~= read@);
    let hit = |i: usize| -> (b: bool)
        ensures
            b,
    {
        true
    };
    let all = select_rows(rows.len(), hit, Ghost(any_row()));
    let before = |i: usize, j: usize| -> (b: bool)
        requires
            i < rows@.len(),
            j < rows@.len(),
        ensures
            b == text_le(rows@[i as int].name@, rows@[j as int].name@),
    {
        text_at_or_before(rows[i].name.as_str(), rows[j].name.as_str())
    };
    let sorted = order_rows(&all, rows.len(), before, Ghost(infos_by_name(rows@)));
    let mut out: Vec<RunnerInfo> = Vec::new();
    let mut k: usize = 0;
    while k < sorted.len()
        invariant
            k <= sorted@.len(),
            forall|m: int| 0 <= m < sorted@.len() ==> #[trigger] sorted@[m] < rows@.len(),
            out@ == at(sorted@).take(k as int).map_values(|i: int| rows@[i]),
        decreases sorted@.len() - k,
    {
        out.push(rows[sorted[k]].clone());
        assert(out@ =~= at(sorted@).take(k + 1).map_values(|i: int| rows@[i]));
        k = k + 1;
    }
    assert(at(sorted@).take(k as int) =~= at(sorted@));
    out
}

// ---------------------------------------------------------------------------
// Roots
// ---------------------------------------------------------------------------

/// The roots to sample: those configured, or, where none is, those discovered.
pub fn effective_roots(configured: &[String], discovered: &[String]) -> (r: Vec<String>)
    ensures
        names(r@) == if configured@.len() > 0 {
            names(configured@)
        } else {
            names(discovered@)
        },
{
    if configured.len() > 0 {
        copy_names(configured)
    } else {
        copy_names(discovered)
    }
}

fn copy_names(v: &[String]) -> (r: Vec<String>)
    ensures
        names(r@) == names(v@),
{
    let mut out: Vec<String> = Vec::new();
    let mut i: usize = 0;
    while i < v.len()
        invariant
            i <= v@.len(),
            out@.len() == i,
            forall|k: int| 0 <= k < i ==> (#[trigger] out@[k])@ == v@[k]@,
        decreases v@.len() - i,
    {
        out.push(owned(v[i].as_str()));
        i = i + 1;
    }
    assert(names(out@) =~= names(v@));
    out
}

/// The units that are services.
pub open spec fn services(units: Seq<Seq<char>>) -> Seq<Seq<char>> {
    units.filter(|n: Seq<char>| ".service"@.is_suffix_of(n))
}

/// The runner units among those that systemd lists.
pub fn systemd_runner_units(listed: &[String]) -> (r: Vec<String>)
    ensures
        names(r@) == services(names(listed@)),
{
    let tail = chars_of(".service");
    let ghost all = names(listed@);
    let ghost p = |n: Seq<char>| ".service"@.is_suffix_of(n);
    let mut out: Vec<String> = Vec::new();
    let mut i: usize = 0;
    proof {
        reveal(Seq::filter);
    }
    assert(all.take(0) =~= seq![]);
    assert(names(out@) =~= all.take(0).filter(p));
    while i < listed.len()
        invariant
            i <= listed@.len(),
            all == names(listed@),
            tail@ == ".service"@,
            p == (|n: Seq<char>| ".service"@.is_suffix_of(n)),
            names(out@) == all.take(i as int).filter(p),
        decreases listed@.len() - i,
    {
        proof {
            reveal(Seq::filter);
            assert(all.take(i + 1).drop_last() =~= all.take(i as int));
            assert(all.take(i + 1).last() == all[i as int]);
        }
        let chars = chars_of(listed[i].as_str());
        if has_suffix(chars.as_slice(), tail.as_slice()) {
            let ghost was = out@;
            out.push(owned(listed[i].as_str()));
            assert(names(out@) =~= names(was).push(all[i as int]));
        }
        i = i + 1;
    }
    assert(all.take(i as int) =~= all);
    out
}

/// The root that a line of systemd's answer names: the parent of the working
/// directory. A line that is none, an empty directory and `/` name no root.
pub open spec fn root_of(line: Seq<char>) -> Option<Seq<char>> {
    match after_prefix(trim(line), "WorkingDirectory="@) {
        Some(rest) => if trim(rest).len() == 0 || trim(rest) == seq!['/'] {
            None
        } else {
            parent_of(trim(rest))
        },
        None => None,
    }
}

/// Whether a path stands among others, component by component.
pub open spec fn has_path(roots: Seq<Seq<char>>, p: Seq<char>) -> bool {
    exists|k: int| 0 <= k < roots.len() && components(#[trigger] roots[k]) == components(p)
}

/// The roots that lines name, each once, in the order in which they are named.
pub open spec fn named_roots(ls: Seq<Seq<char>>) -> Seq<Seq<char>>
    decreases ls.len(),
{
    if ls.len() == 0 {
        seq![]
    } else {
        let r = named_roots(ls.drop_last());
        match root_of(ls.last()) {
            Some(p) => if has_path(r, p) {
                r
            } else {
                r.push(p)
            },
            None => r,
        }
    }
}

/// The order of paths.
pub open spec fn by_path(roots: Seq<Seq<char>>) -> spec_fn(int, int) -> bool {
    |i: int, j: int| components_le(components(roots[i]), components(roots[j]))
}

/// Paths in order.
pub open spec fn sorted_paths(roots: Seq<Seq<char>>) -> Seq<Seq<char>> {
    order(by_path(roots), select(any_row(), roots.len() as int)).map_values(|i: int| roots[i])
}

fn root_in(line: &[char]) -> (r: Option<String>)
    ensures
        r is Some == (root_of(line@) is Some),
        r matches Some(p) ==> root_of(line@) == Some(p@),
{
    let key = chars_of("WorkingDirectory=");
    match strip(trimmed(line), key.as_slice()) {
        Some(rest) => {
            let t = trimmed(rest);
            if t.len() == 0 {
                return None;
            }
            if t.len() == 1 && t[0] == '/' {
                assert(t@ =~= seq!['/']);
                return None;
            }
            parent(string_of(t).as_str())
        },
        None => None,
    }
}

fn holds_path(roots: &Vec<String>, p: &str) -> (r: bool)
    ensures
        r == has_path(names(roots@), p@),
{
    let ghost all = names(roots@);
    let mut i: usize = 0;
    while i < roots.len()
        invariant
            i <= roots@.len(),
            all == names(roots@),
            forall|k: int| 0 <= k < i ==> components(#[trigger] all[k]) != components(p@),
        decreases roots@.len() - i,
    {
        if same_path(roots[i].as_str(), p) {
            assert(components(all[i as int]) == components(p@));
            return true;
        }
        i = i + 1;
    }
    false
}

/// The roots in systemd's answer on working directories: the parent of each, once,
/// in order.
pub fn roots_from_workdirs(show_output: &str) -> (r: Vec<String>)
    ensures
        names(r@) == sorted_paths(named_roots(lines(show_output@))),
{
    let chars = chars_of(show_output);
    let ls = lines_of(chars.as_slice());
    let ghost all = lines(show_output@);
    assert(texts(ls@).len() == ls@.len());
    let mut roots: Vec<String> = Vec::new();
    let mut i: usize = 0;
    assert(all.take(0) =~= seq![]);
    assert(names(roots@) =~= named_roots(all.take(0)));
    while i < ls.len()
        invariant
            i <= ls@.len(),
            texts(ls@) == all,
            all.len() == ls@.len(),
            names(roots@) == named_roots(all.take(i as int)),
        decreases ls@.len() - i,
    {
        assert(texts(ls@)[i as int] == ls@[i as int]@);
        assert(all.take(i + 1).drop_last() =~= all.take(i as int));
        assert(all.take(i + 1).last() == all[i as int]);
        match root_in(ls[i].as_slice()) {
            Some(p) => {
                if !holds_path(&roots, p.as_str()) {
                    let ghost was = roots@;
                    roots.push(p);
                    assert(names(roots@) =~= names(was).push(p@));
                }
            },
            None => {},
        }
        i = i + 1;
    }
    assert(all.take(i as int) =~= all);
    sort_paths(&roots)
}

fn sort_paths(roots: &Vec<String>) -> (r: Vec<String>)
    ensures
        names(r@) == sorted_paths(names(roots@)),
{
    let ghost all = names(roots@);
    let hit = |i: usize| -> (b: bool)
        ensures
            b,
    {
        true
    };
    let every = select_rows(roots.len(), hit, Ghost(any_row()));
    let before = |i: usize, j: usize| -> (b: bool)
        requires
            i < roots@.len(),
            j < roots@.len(),
        ensures
            b == components_le(
                components(names(roots@)[i as int]),
                components(names(roots@)[j as int]),
            ),
    {
        path_at_or_before(roots[i].as_str(), roots[j].as_str())
    };
    let sorted = order_rows(&every, roots.len(), before, Ghost(by_path(all)));
    let mut out: Vec<String> = Vec::new();
    let mut k: usize = 0;
    assert(names(out@) =~= at(sorted@).take(0).map_values(|i: int| all[i]));
    while k < sorted.len()
        invariant
            k <= sorted@.len(),
            all == names(roots@),
            forall|m: int| 0 <= m < sorted@.len() ==> #[trigger] sorted@[m] < roots@.len(),
            names(out@) == at(sorted@).take(k as int).map_values(|i: int| all[i]),
        decreases sorted@.len() - k,
    {
        let ghost was = out@;
        out.push(owned(roots[sorted[k]].as_str()));
        proof {
            assert(names(out@) =~= names(was).push(all[sorted@[k as int] as int]));
            assert(names(out@) =~= at(sorted@).take(k + 1).map_values(|i: int| all[i]));
        }
        k = k + 1;
    }
    assert(at(sorted@).take(k as int) =~= at(sorted@));
    out
}

/// The roots discovered, from the runner units and what systemd answered on their
/// working directories: none without a unit, or without an answer.
pub fn discover_roots(units: &[String], stdout: Option<&[u8]>) -> (r: Vec<String>)
    ensures
        names(r@) == if units@.len() > 0 && stdout is Some {
            sorted_paths(named_roots(lines(lossy_text(stdout->0@))))
        } else {
            Seq::<Seq<char>>::empty()
        },
{
    if units.len() == 0 {
        let none: Vec<String> = Vec::new();
        assert(names(none@) =~= Seq::<Seq<char>>::empty());
        return none;
    }
    match stdout {
        Some(bytes) => roots_from_workdirs(from_utf8_lossy(bytes).as_str()),
        None => {
            let none: Vec<String> = Vec::new();
            assert(names(none@) =~= Seq::<Seq<char>>::empty());
            none
        },
    }
}

/// No path occurs twice.
pub open spec fn paths_differ(roots: Seq<Seq<char>>) -> bool {
    forall|i: int, j: int|
        0 <= i < j < roots.len() ==> components(#[trigger] roots[i]) != components(
            #[trigger] roots[j],
        )
}

/// No root is named twice, whatever the lines.
pub proof fn named_roots_differ(ls: Seq<Seq<char>>)
    ensures
        paths_differ(named_roots(ls)),
    decreases ls.len(),
{
    if ls.len() > 0 {
        named_roots_differ(ls.drop_last());
    }
}

/// Sorted paths stand in the order of paths.
pub proof fn sorted_paths_are_in_order(roots: Seq<Seq<char>>)
    ensures
        sorted_paths(roots).len() == roots.len(),
        forall|i: int, j: int|
            0 <= i < j < sorted_paths(roots).len() ==> components_le(
                components(#[trigger] sorted_paths(roots)[i]),
                components(#[trigger] sorted_paths(roots)[j]),
            ),
{
    let rel = by_path(roots);
    assert(total_preorder(rel)) by {
        assert forall|a: int, b: int| #[trigger] rel(a, b) || rel(b, a) by {
            path_order_is_total(components(roots[a]), components(roots[b]));
        }
        assert forall|a: int, b: int, c: int| #[trigger] rel(a, b) && #[trigger] rel(
            b,
            c,
        ) implies rel(a, c) by {
            path_order_is_transitive(
                components(roots[a]),
                components(roots[b]),
                components(roots[c]),
            );
        }
    }
    let all = select(any_row(), roots.len() as int);
    select_is_exact(any_row(), roots.len() as int);
    every_position(roots.len() as int);
    order_is_sorted(rel, all);
    order_stays_within(rel, all, roots.len() as int);
    let o = order(rel, all);
    assert forall|i: int, j: int| 0 <= i < j < sorted_paths(roots).len() implies components_le(
        components(#[trigger] sorted_paths(roots)[i]),
        components(#[trigger] sorted_paths(roots)[j]),
    ) by {
        assert(rel(o[i], o[j]));
    }
}

proof fn every_position(n: int)
    requires
        n >= 0,
    ensures
        select(any_row(), n).len() == n,
    decreases n,
{
    if n > 0 {
        every_position(n - 1);
    }
}

/// The name of a runner's unit, from what was read of the file that holds it:
/// `None` where that is missing or blank.
pub fn unit_name(content: Option<&str>) -> (r: Option<String>)
    ensures
        r is Some <==> (content is Some && trim(content->0@).len() > 0),
        r matches Some(n) ==> n@ == trim(content->0@),
{
    match content {
        Some(text) => {
            let chars = chars_of(text);
            let t = trimmed(chars.as_slice());
            if t.len() > 0 {
                Some(string_of(t))
            } else {
                None
            }
        },
        None => None,
    }
}

// ---------------------------------------------------------------------------
// Probing
// ---------------------------------------------------------------------------

/// Whether one of the processes has this name.
pub open spec fn runs(procs: Seq<ProcInfo>, comm: Seq<char>) -> bool {
    exists|i: int| 0 <= i < procs.len() && (#[trigger] procs[i]).comm@ == comm
}

/// What a runner's processes say of it: busy with a worker, idle with a listener
/// alone, else offline.
pub open spec fn liveness(procs: Seq<ProcInfo>) -> Liveness {
    if runs(procs, WORKER_COMM@) {
        Liveness::Busy
    } else if runs(procs, LISTENER_COMM@) {
        Liveness::Idle
    } else {
        Liveness::Offline
    }
}

/// Processes behind references.
pub open spec fn behind(procs: Seq<&ProcInfo>) -> Seq<ProcInfo> {
    procs.map_values(|p: &ProcInfo| *p)
}

/// The processes of one owner.
pub open spec fn owned_by(procs: Seq<ProcInfo>, uid: u32) -> Seq<ProcInfo> {
    procs.filter(|p: ProcInfo| p.uid == uid)
}

fn any_named(mine: &[&ProcInfo], comm: &str) -> (r: bool)
    ensures
        r == runs(behind(mine@), comm@),
{
    let ghost all = behind(mine@);
    let mut i: usize = 0;
    while i < mine.len()
        invariant
            i <= mine@.len(),
            all == behind(mine@),
            forall|k: int| 0 <= k < i ==> (#[trigger] all[k]).comm@ != comm@,
        decreases mine@.len() - i,
    {
        if same(mine[i].comm.as_str(), comm) {
            assert(all[i as int].comm@ == comm@);
            return true;
        }
        i = i + 1;
    }
    false
}

/// What a runner's own processes say of it.
pub fn liveness_of(mine: &[&ProcInfo]) -> (r: Liveness)
    ensures
        r == liveness(behind(mine@)),
{
    if any_named(mine, WORKER_COMM) {
        Liveness::Busy
    } else if any_named(mine, LISTENER_COMM) {
        Liveness::Idle
    } else {
        Liveness::Offline
    }
}

fn processes_of<'a>(uid: u32, procs: &'a [ProcInfo]) -> (r: Vec<&'a ProcInfo>)
    ensures
        behind(r@) == owned_by(procs@, uid),
{
    let ghost p = |x: ProcInfo| x.uid == uid;
    let mut out: Vec<&'a ProcInfo> = Vec::new();
    let mut i: usize = 0;
    proof {
        reveal(Seq::filter);
    }
    assert(procs@.take(0) =~= seq![]);
    assert(behind(out@) =~= procs@.take(0).filter(p));
    while i < procs.len()
        invariant
            i <= procs@.len(),
            p == (|x: ProcInfo| x.uid == uid),
            behind(out@) == procs@.take(i as int).filter(p),
        decreases procs@.len() - i,
    {
        proof {
            reveal(Seq::filter);
            assert(procs@.take(i + 1).drop_last() =~= procs@.take(i as int));
            assert(procs@.take(i + 1).last() == procs@[i as int]);
        }
        if procs[i].uid == uid {
            let ghost was = out@;
            out.push(&procs[i]);
            assert(behind(out@) =~= behind(was).push(procs@[i as int]));
        }
        i = i + 1;
    }
    assert(procs@.take(i as int) =~= procs@);
    out
}

/// Whether the runner of an owner is up, from all processes.
pub fn liveness_for(uid: u32, procs: &[ProcInfo]) -> (r: Liveness)
    ensures
        r == liveness(owned_by(procs@, uid)),
{
    let mine = processes_of(uid, procs);
    liveness_of(mine.as_slice())
}

/// The listeners of an owner, by position.
pub open spec fn listens(procs: Seq<ProcInfo>, uid: u32) -> spec_fn(int) -> bool {
    |i: int| procs[i].uid == uid && procs[i].comm@ == LISTENER_COMM@
}

/// The first listener of an owner.
pub open spec fn listener(procs: Seq<ProcInfo>, uid: u32) -> Option<ProcInfo> {
    let k = first_where(listens(procs, uid), procs.len() as int);
    if k < procs.len() {
        Some(procs[k])
    } else {
        None
    }
}

/// The listener of an owner's runner: its process id leads to the control group.
pub fn listener_of<'a>(uid: u32, procs: &'a [ProcInfo]) -> (r: Option<&'a ProcInfo>)
    ensures
        r is Some == (listener(procs@, uid) is Some),
        r matches Some(p) ==> listener(procs@, uid) == Some(*p),
{
    let hit = |i: usize| -> (b: bool)
        requires
            i < procs@.len(),
        ensures
            b == (procs@[i as int].uid == uid && procs@[i as int].comm@ == LISTENER_COMM@),
    {
        procs[i].uid == uid && same(procs[i].comm.as_str(), LISTENER_COMM)
    };
    let k = find_row(procs.len(), hit, Ghost(listens(procs@, uid)));
    if k < procs.len() {
        Some(&procs[k])
    } else {
        None
    }
}

/// The clock's rate: what the system says, where that is positive, else the usual
/// hundred.
pub fn clock_ticks(said: Option<i64>) -> (r: u64)
    ensures
        r as int == match said {
            Some(hz) => if hz > 0 {
                hz as int
            } else {
                100
            },
            None => 100,
        },
{
    match said {
        Some(hz) => if hz > 0 {
            hz as u64
        } else {
            100
        },
        None => 100,
    }
}

fn borrowed(s: &Option<String>) -> (r: Option<&str>)
    ensures
        r is Some == s is Some,
        r matches Some(t) ==> t@ == s->0@,
{
    match s {
        Some(t) => Some(t.as_str()),
        None => None,
    }
}

/// What a file says, by a reading of its text.
pub open spec fn said(file: Option<String>, reading: spec_fn(Seq<char>) -> Option<int>) -> Option<int> {
    match file {
        Some(t) => reading(t@),
        None => None,
    }
}

/// A number that a probe may hold.
pub open spec fn as_int(n: Option<u64>) -> Option<int> {
    match n {
        Some(v) => Some(v as int),
        None => None,
    }
}

/// Working-set memory by a control group's files.
pub open spec fn files_working_set(f: CgroupFiles) -> Option<int> {
    match f.memory_stat {
        Some(stat) => working_set(stat@),
        None => files_memory(f),
    }
}

/// Memory charged, by a control group's files.
pub open spec fn files_memory(f: CgroupFiles) -> Option<int> {
    said(f.memory_current, |t: Seq<char>| number(t))
}

/// Processor time by a control group's files.
pub open spec fn files_cpu(f: CgroupFiles) -> Option<int> {
    said(f.cpu_stat, |t: Seq<char>| field(t, "usage_usec "@))
}

/// Whether the numbers in a control group's files can be added up.
pub open spec fn files_fit(files: Option<CgroupFiles>) -> bool {
    files matches Some(f) ==> (f.memory_stat matches Some(stat) ==> fits(stat@))
}

/// What a probe of `info` says. The control group counts only where a listener
/// was found to lead to it.
pub open spec fn probed(
    r: RunnerProbe,
    info: RunnerInfo,
    procs: Seq<ProcInfo>,
    now: i64,
    boot: i64,
    clk_tck: u64,
    files: Option<CgroupFiles>,
) -> bool {
    let up = listener(procs, info.uid);
    &&& r.info == info
    &&& r.liveness == liveness(owned_by(procs, info.uid))
    &&& as_int(r.mem_bytes) == if up is Some && files is Some {
        files_working_set(files->0)
    } else {
        None
    }
    &&& as_int(r.mem_current_bytes) == if up is Some && files is Some {
        files_memory(files->0)
    } else {
        None
    }
    &&& as_int(r.cpu_usage_usec) == if up is Some && files is Some {
        files_cpu(files->0)
    } else {
        None
    }
    &&& as_int(r.uptime_s) == match up {
        Some(p) => if clk_tck != 0 && age(
            now as int,
            boot as int,
            clk_tck as int,
            p.starttime_ticks as int,
        ) >= 0 {
            Some(age(now as int, boot as int, clk_tck as int, p.starttime_ticks as int))
        } else {
            None
        },
        None => None,
    }
}

/// Probe one runner, from the processes and from what was read of its control
/// group.
pub fn probe_one(
    info: RunnerInfo,
    procs: &[ProcInfo],
    now_epoch: i64,
    boot: i64,
    clk_tck: u64,
    files: &Option<CgroupFiles>,
) -> (r: RunnerProbe)
    requires
        files_fit(*files),
    ensures
        probed(r, info, procs@, now_epoch, boot, clk_tck, *files),
{
    let live = liveness_for(info.uid, procs);
    match listener_of(info.uid, procs) {
        Some(p) => {
            let uptime_s = uptime_secs(now_epoch, boot, clk_tck, p.starttime_ticks);
            match files {
                Some(f) => {
                    let current = borrowed(&f.memory_current);
                    RunnerProbe {
                        info,
                        liveness: live,
                        mem_bytes: memory_working_set(borrowed(&f.memory_stat), current),
                        mem_current_bytes: memory_current(current),
                        cpu_usage_usec: cpu_usage_usec(borrowed(&f.cpu_stat)),
                        uptime_s,
                    }
                },
                None => RunnerProbe {
                    info,
                    liveness: live,
                    mem_bytes: None,
                    mem_current_bytes: None,
                    cpu_usage_usec: None,
                    uptime_s,
                },
            }
        },
        None => RunnerProbe {
            info,
            liveness: live,
            mem_bytes: None,
            mem_current_bytes: None,
            cpu_usage_usec: None,
            uptime_s: None,
        },
    }
}

/// Probe every runner against one snapshot of the processes. `files` holds what
/// was read of each runner's control group. An unknown boot time counts as zero.
pub fn probe_all(
    infos: &[RunnerInfo],
    procs: &[ProcInfo],
    now_epoch: i64,
    boot: Option<i64>,
    clk_tck: u64,
    files: &[Option<CgroupFiles>],
) -> (r: Vec<RunnerProbe>)
    requires
        infos@.len() == files@.len(),
        forall|i: int| 0 <= i < files@.len() ==> files_fit(#[trigger] files@[i]),
    ensures
        r@.len() == infos@.len(),
        forall|i: int|
            0 <= i < infos@.len() ==> probed(
                #[trigger] r@[i],
                infos@[i],
                procs@,
                now_epoch,
                match boot {
                    Some(b) => b,
                    None => 0,
                },
                clk_tck,
                files@[i],
            ),
{
    let booted: i64 = match boot {
        Some(b) => b,
        None => 0,
    };
    let mut out: Vec<RunnerProbe> = Vec::new();
    let mut i: usize = 0;
    while i < infos.len()
        invariant
            i <= infos@.len() == files@.len(),
            out@.len() == i,
            booted == (match boot {
                Some(b) => b,
                None => 0,
            }),
            forall|k: int| 0 <= k < files@.len() ==> files_fit(#[trigger] files@[k]),
            forall|k: int|
                0 <= k < i ==> probed(
                    #[trigger] out@[k],
                    infos@[k],
                    procs@,
                    now_epoch,
                    booted,
                    clk_tck,
                    files@[k],
                ),
        decreases infos@.len() - i,
    {
        out.push(probe_one(infos[i].clone(), procs, now_epoch, booted, clk_tck, &files[i]));
        i = i + 1;
    }
    out
}

/// A runner with a listener is online, and only a runner with a worker can be busy
/// without one.
pub proof fn a_listener_means_online(procs: Seq<ProcInfo>)
    ensures
        runs(procs, LISTENER_COMM@) ==> liveness(procs) != Liveness::Offline,
        liveness(procs) == Liveness::Offline <==> !runs(procs, LISTENER_COMM@) && !runs(
            procs,
            WORKER_COMM@,
        ),
        liveness(procs) == Liveness::Busy <==> runs(procs, WORKER_COMM@),
{
}

} // verus!
