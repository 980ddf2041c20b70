//! The resources of a runner's control group, as the kernel writes them down.

use vstd::prelude::*;
use vstd::string::*;

use crate::path::{join, joined};
use crate::scan::{
    first_after, line_after, lines, parse_u64, trim, trim_start_of, trimmed, trimmed_start_of,
    unsigned_of,
};
use crate::text::{chars_of, string_of};

verus! {

/// Where the control groups are mounted.
pub const CGROUP_ROOT: &'static str = "/sys/fs/cgroup";

/// The unified path in what the kernel says of a process's groups: behind `0::`.
pub open spec fn unified(content: Seq<char>) -> Option<Seq<char>> {
    first_after(lines(content), "0::"@)
}

/// The unified path in what the kernel says of a process's groups.
pub fn parse_unified_path(content: &str) -> (r: Option<String>)
    ensures
        r is Some == (unified(content@) is Some),
        r matches Some(p) ==> unified(content@) == Some(p@),
{
    match line_after(content, "0::") {
        Some(p) => Some(string_of(p.as_slice())),
        None => None,
    }
}

/// The directory of a process's group, from what was read of its groups: `None`
/// where that could not be read or names no unified path.
pub fn dir_for_pid(content: Option<&str>) -> (r: Option<String>)
    ensures
        r is Some <==> (content is Some && unified(content->0@) is Some),
        r matches Some(d) ==> d@ == joined(
            CGROUP_ROOT@,
            trim_start_of(unified(content->0@)->0, seq!['/']),
        ),
{
    match content {
        Some(text) => match parse_unified_path(text) {
            Some(p) => {
                let chars = chars_of(p.as_str());
                let slash: Vec<char> = vec!['/'];
                assert(slash@ =~= seq!['/']);
                let rel = string_of(trimmed_start_of(chars.as_slice(), slash.as_slice()));
                Some(join(CGROUP_ROOT, rel.as_str()))
            },
            None => None,
        },
        None => None,
    }
}

/// The number that a text holds, white space round it aside.
pub open spec fn number(text: Seq<char>) -> Option<int> {
    unsigned_of(trim(text), u64::MAX as int)
}

/// The number on the first line that starts with `key`.
pub open spec fn field(text: Seq<char>, key: Seq<char>) -> Option<int> {
    match first_after(lines(text), key) {
        Some(v) => number(v),
        None => None,
    }
}

fn number_of(chars: &[char]) -> (r: Option<u64>)
    ensures
        r is Some == (number(chars@) is Some),
        r matches Some(v) ==> number(chars@) == Some(v as int),
{
    parse_u64(trimmed(chars))
}

fn field_of(text: &str, key: &str) -> (r: Option<u64>)
    ensures
        r is Some == (field(text@, key@) is Some),
        r matches Some(v) ==> field(text@, key@) == Some(v as int),
{
    match line_after(text, key) {
        Some(v) => number_of(v.as_slice()),
        None => None,
    }
}

/// Memory charged to a group, page cache included, from what was read of it.
pub fn memory_current(content: Option<&str>) -> (r: Option<u64>)
    ensures
        r is Some <==> (content is Some && number(content->0@) is Some),
        r matches Some(v) ==> number(content->0@) == Some(v as int),
{
    match content {
        Some(text) => {
            let chars = chars_of(text);
            number_of(chars.as_slice())
        },
        None => None,
    }
}

/// Cumulative processor time of a group in microseconds.
pub fn parse_usage_usec(cpu_stat: &str) -> (r: Option<u64>)
    ensures
        r is Some == (field(cpu_stat@, "usage_usec "@) is Some),
        r matches Some(v) ==> field(cpu_stat@, "usage_usec "@) == Some(v as int),
{
    field_of(cpu_stat, "usage_usec ")
}

/// Cumulative processor time of a group, from what was read of it.
pub fn cpu_usage_usec(content: Option<&str>) -> (r: Option<u64>)
    ensures
        r is Some <==> (content is Some && field(content->0@, "usage_usec "@) is Some),
        r matches Some(v) ==> field(content->0@, "usage_usec "@) == Some(v as int),
{
    match content {
        Some(text) => parse_usage_usec(text),
        None => None,
    }
}

/// Working-set memory: anonymous plus shared pages. Anonymous memory must be
/// given; shared memory counts as none where it is not. The keys end in a space,
/// so that a longer key is not taken for a shorter.
pub open spec fn working_set(stat: Seq<char>) -> Option<int> {
    match field(stat, "anon "@) {
        Some(anon) => Some(
            anon + match field(stat, "shmem "@) {
                Some(shmem) => shmem,
                None => 0,
            },
        ),
        None => None,
    }
}

/// Whether the working set is a number that fits.
pub open spec fn fits(stat: Seq<char>) -> bool {
    working_set(stat) matches Some(n) ==> n <= u64::MAX
}

/// Whether the working set is a number that fits.
pub fn working_set_fits(memory_stat: &str) -> (r: bool)
    ensures
        r == fits(memory_stat@),
{
    match field_of(memory_stat, "anon ") {
        Some(anon) => match field_of(memory_stat, "shmem ") {
            Some(shmem) => anon <= u64::MAX - shmem,
            None => true,
        },
        None => true,
    }
}

/// Working-set memory in a group's memory statistics.
pub fn parse_working_set(memory_stat: &str) -> (r: Option<u64>)
    requires
        fits(memory_stat@),
    ensures
        r is Some == (working_set(memory_stat@) is Some),
        r matches Some(v) ==> working_set(memory_stat@) == Some(v as int),
{
    match field_of(memory_stat, "anon ") {
        Some(anon) => match field_of(memory_stat, "shmem ") {
            Some(shmem) => Some(anon + shmem),
            None => Some(anon),
        },
        None => None,
    }
}

/// Working-set memory from what was read of a group's statistics; where these
/// could not be read, the memory charged to the group.
pub fn memory_working_set(stat: Option<&str>, current: Option<&str>) -> (r: Option<u64>)
    requires
        stat matches Some(text) ==> fits(text@),
    ensures
        stat matches Some(text) ==> {
            &&& r is Some == (working_set(text@) is Some)
            &&& r matches Some(v) ==> working_set(text@) == Some(v as int)
        },
        stat is None ==> {
            &&& r is Some <==> (current is Some && number(current->0@) is Some)
            &&& r matches Some(v) ==> number(current->0@) == Some(v as int)
        },
{
    match stat {
        Some(text) => parse_working_set(text),
        None => memory_current(current),
    }
}

} // verus!
