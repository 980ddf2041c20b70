//! What the collectors make of what they read, value by value.

use vstd::prelude::*;

use crate::collectors::cgroup::{field, unified, working_set};
use crate::collectors::cpu::{delta, known, noted};
use crate::collectors::folders;
use crate::collectors::procscan::{btime, starttime, ProcInfo};
use crate::collectors::runners::{
    as_int, by_path, has_path, listener, listens, liveness, named_roots, owned_by, owner, past_scheme,
    probed, read_ones, root_of, runs, services, sorted_infos, sorted_paths, unmarked, CgroupFiles, RunnerProbe,
};
use crate::models::RunnerInfo;
use crate::path::{joined, parent_of};
use crate::scan::laws::{
    a_character_is_found_last, parts_are_read_back, the_first_line_counts, with_between,
    word_by_word, words_are_read_back,
};
use crate::scan::{
    after_prefix, first_after, found_at, is_space, last_at, lines, signed_of, trim, trim_end_of,
    unsigned_of,
};
use crate::store::reader::any_row;
use crate::store::rows::{
    first_where_is_least, first_where_unique, order, order_is_a_permutation, order_is_sorted,
    select, select_is_exact,
};
use crate::text::{text_le, text_le_total, text_le_transitive};

verus! {

// ---------------------------------------------------------------------------
// Use of the processor
// ---------------------------------------------------------------------------

/// Two readings of one runner give what lies between them: the time it used and the
/// time that passed. Where no time passed, or the counter went back, nothing is said.
pub proof fn two_readings_give_their_difference(
    m: Map<Seq<Seq<char>>, (u64, u64)>,
    id: Seq<Seq<char>>,
    usec: u64,
    at: u64,
    later: u64,
    then: u64,
)
    ensures
        ({
            let d = delta(known(noted(m, id, Some(usec), at), id), Some(later), then);
            &&& d is Some <==> then > at && later >= usec
            &&& d matches Some(x) ==> x.usec == later - usec && x.nanos == then - at
        }),
{
}

// ---------------------------------------------------------------------------
// Processes
// ---------------------------------------------------------------------------

/// A user's process with this name is among those that run.
pub open spec fn user_runs(procs: Seq<ProcInfo>, uid: u32, comm: Seq<char>) -> bool {
    exists|i: int|
        0 <= i < procs.len() && (#[trigger] procs[i]).uid == uid && procs[i].comm@ == comm
}

/// A runner is busy exactly while its user runs a worker, idle while it runs a
/// listener and no worker, and offline while it runs neither. What other users run
/// does not count.
pub proof fn liveness_is_the_users(procs: Seq<ProcInfo>, uid: u32)
    ensures
        ({
            let l = liveness(owned_by(procs, uid));
            let working = user_runs(procs, uid, "Runner.Worker"@);
            let listening = user_runs(procs, uid, "Runner.Listener"@);
            &&& l is Busy <==> working
            &&& l is Idle <==> listening && !working
            &&& l is Offline <==> !listening && !working
        }),
{
    runs_of_user(procs, uid, "Runner.Worker"@);
    runs_of_user(procs, uid, "Runner.Listener"@);
}

proof fn runs_of_user(procs: Seq<ProcInfo>, uid: u32, comm: Seq<char>)
    ensures
        runs(owned_by(procs, uid), comm) <==> user_runs(procs, uid, comm),
{
    broadcast use vstd::seq_lib::group_filter_ensures;

    let p = |q: ProcInfo| q.uid == uid;
    let mine = owned_by(procs, uid);
    assert(mine == procs.filter(p));
    if runs(mine, comm) {
        let i = choose|i: int| 0 <= i < mine.len() && (#[trigger] mine[i]).comm@ == comm;
        assert(p(mine[i]));
        assert(mine.contains(mine[i]));
        procs.lemma_filter_contains_rev(p, mine[i]);
        let k = choose|k: int| 0 <= k < procs.len() && procs[k] == mine[i];
        assert(procs[k].uid == uid);
    }
    if user_runs(procs, uid, comm) {
        let k = choose|k: int|
            0 <= k < procs.len() && (#[trigger] procs[k]).uid == uid && procs[k].comm@ == comm;
        assert(p(procs[k]));
        assert(procs.filter(p).contains(procs[k]));
        let i = choose|i: int| 0 <= i < mine.len() && mine[i] == procs[k];
        assert(mine[i].comm@ == comm);
    }
}

/// A user's listener is the first of the user's processes with that name.
pub proof fn the_listener_is_the_users(procs: Seq<ProcInfo>, uid: u32)
    ensures
        forall|k: int|
            0 <= k < procs.len() && (#[trigger] procs[k]).uid == uid && procs[k].comm@
                == "Runner.Listener"@ && (forall|i: int|
                0 <= i < k ==> !((#[trigger] procs[i]).uid == uid && procs[i].comm@
                    == "Runner.Listener"@)) ==> listener(procs, uid) == Some(procs[k]),
        listener(procs, uid) is None <==> !user_runs(procs, uid, "Runner.Listener"@),
{
    let p = listens(procs, uid);
    let n = procs.len() as int;
    first_where_is_least(p, n);
    assert forall|k: int|
        0 <= k < procs.len() && (#[trigger] procs[k]).uid == uid && procs[k].comm@
            == "Runner.Listener"@ && (forall|i: int|
            0 <= i < k ==> !((#[trigger] procs[i]).uid == uid && procs[i].comm@
                == "Runner.Listener"@)) implies listener(procs, uid) == Some(procs[k]) by {
        assert(p(k));
        assert forall|i: int| 0 <= i < k implies !#[trigger] p(i) by {
            assert(!(procs[i].uid == uid && procs[i].comm@ == "Runner.Listener"@));
        }
        first_where_unique(p, n, k);
    }
    let f = crate::store::rows::first_where(p, n);
    if f < n {
        assert(p(f));
        assert(procs[f].uid == uid);
    } else {
        assert forall|i: int| 0 <= i < procs.len() implies !((#[trigger] procs[i]).uid == uid
            && procs[i].comm@ == "Runner.Listener"@) by {
            assert(!p(i));
        }
    }
}

/// When a process started is the twentieth of the fields behind its name, whatever
/// the name holds.
pub proof fn a_start_is_read(head: Seq<char>, ws: Seq<Seq<char>>)
    requires
        ws.len() > 19,
        forall|i: int| 0 <= i < ws.len() ==> (#[trigger] ws[i]).len() > 0,
        forall|i: int, k: int|
            0 <= i < ws.len() && 0 <= k < ws[i].len() ==> !is_space(#[trigger] ws[i][k]),
        !word_by_word(ws).contains(')'),
    ensures
        starttime(head + seq![')'] + (seq![' '] + word_by_word(ws))) == unsigned_of(
            ws[19],
            u64::MAX as int,
        ),
{
    let tail = seq![' '] + word_by_word(ws);
    let s = head + seq![')'] + tail;
    words_are_read_back(ws);
    a_character_is_found_last(s, ')');
    let k = last_at(s, ')');
    assert(s[head.len() as int] == ')');
    if k > head.len() {
        assert(s[k] == tail[k - head.len() - 1]);
        if k - head.len() - 1 > 0 {
            assert(tail[k - head.len() - 1] == word_by_word(ws)[k - head.len() - 2]);
            assert(word_by_word(ws).contains(s[k]));
        }
    }
    assert(k == head.len());
    assert(s.skip(k + 1) =~= tail);
}

// ---------------------------------------------------------------------------
// Files of the kernel
// ---------------------------------------------------------------------------

/// The working set is what is anonymous and what is shared, added up; where nothing
/// shared is told, what is anonymous; where that is not told, nothing.
pub proof fn the_working_set_adds_up(stat: Seq<char>)
    ensures
        field(stat, "anon "@) is None ==> working_set(stat) is None,
        field(stat, "anon "@) is Some && field(stat, "shmem "@) is None ==> working_set(stat)
            == field(stat, "anon "@),
        field(stat, "anon "@) is Some && field(stat, "shmem "@) is Some ==> working_set(stat)
            == Some(field(stat, "anon "@)->0 + field(stat, "shmem "@)->0),
{
}

/// A field of a file is the number behind its name on the first line that starts
/// with the name; when the machine booted, and the unified group of a process, are
/// read in the same way.
pub proof fn fields_are_read_by_name(text: Seq<char>, key: Seq<char>, k: int, v: Seq<char>)
    requires
        0 <= k < lines(text).len(),
        lines(text)[k] == key + v,
        forall|i: int| 0 <= i < k ==> !key.is_prefix_of(#[trigger] lines(text)[i]),
    ensures
        field(text, key) == unsigned_of(trim(v), u64::MAX as int),
        key == "btime "@ ==> btime(text) == signed_of(trim(v), i64::MIN as int, i64::MAX as int),
        key == "0::"@ ==> unified(text) == Some(v),
{
    assert(key.is_prefix_of(lines(text)[k]));
    the_first_line_counts(lines(text), key);
    let got = first_after(lines(text), key)->0;
    assert(lines(text)[k] == key + got);
    assert(got =~= v) by {
        assert(got.len() == v.len());
        assert forall|i: int| 0 <= i < v.len() implies got[i] == v[i] by {
            assert((key + got)[key.len() + i] == (key + v)[key.len() + i]);
        }
    }
}

/// A file without the field says nothing.
pub proof fn absent_fields_say_nothing(text: Seq<char>, key: Seq<char>)
    requires
        forall|i: int| 0 <= i < lines(text).len() ==> !key.is_prefix_of(#[trigger] lines(text)[i]),
    ensures
        field(text, key) is None,
        key == "btime "@ ==> btime(text) is None,
        key == "0::"@ ==> unified(text) is None,
{
    the_first_line_counts(lines(text), key);
}

// ---------------------------------------------------------------------------
// Probes
// ---------------------------------------------------------------------------

/// A number as it was read.
pub open spec fn holds_number(r: Option<u64>, n: Option<int>) -> bool {
    match n {
        Some(v) => r matches Some(x) && x == v,
        None => r is None,
    }
}

/// A probe carries its runner as it was found, and its liveness by what the runner's
/// user runs. Memory and processor time are those of the files of its group, and are
/// said only while a listener runs; so is how long that has run.
pub proof fn a_probe_carries_what_was_read(
    r: RunnerProbe,
    info: RunnerInfo,
    procs: Seq<ProcInfo>,
    now: i64,
    boot: i64,
    clk_tck: u64,
    files: Option<CgroupFiles>,
)
    requires
        probed(r, info, procs, now, boot, clk_tck, files),
    ensures
        r.info == info,
        r.liveness == liveness(owned_by(procs, info.uid)),
        listener(procs, info.uid) is None || files is None ==> r.mem_bytes is None
            && r.mem_current_bytes is None && r.cpu_usage_usec is None,
        listener(procs, info.uid) is Some && files is Some ==> {
            let f = files->0;
            &&& holds_number(
                r.mem_bytes,
                if f.memory_stat is Some {
                    working_set(f.memory_stat->0@)
                } else if f.memory_current is Some {
                    unsigned_of(trim(f.memory_current->0@), u64::MAX as int)
                } else {
                    None
                },
            )
            &&& holds_number(
                r.mem_current_bytes,
                if f.memory_current is Some {
                    unsigned_of(trim(f.memory_current->0@), u64::MAX as int)
                } else {
                    None
                },
            )
            &&& holds_number(
                r.cpu_usage_usec,
                if f.cpu_stat is Some {
                    field(f.cpu_stat->0@, "usage_usec "@)
                } else {
                    None
                },
            )
        },
        listener(procs, info.uid) is None ==> r.uptime_s is None,
        listener(procs, info.uid) matches Some(p) ==> {
            let started = boot + p.starttime_ticks as int / clk_tck as int;
            holds_number(
                r.uptime_s,
                if clk_tck != 0 && started <= now {
                    Some(now - started)
                } else {
                    None
                },
            )
        },
{
    assert(as_int(r.mem_bytes) is Some == r.mem_bytes is Some);
}

// ---------------------------------------------------------------------------
// Runners and roots
// ---------------------------------------------------------------------------

/// A byte order mark at the start is taken off, once, and nothing else.
pub proof fn a_mark_is_taken_off(s: Seq<char>)
    ensures
        unmarked(seq!['\u{feff}'] + s) == s,
        s.len() == 0 || s[0] != '\u{feff}' ==> unmarked(s) == s,
{
    assert((seq!['\u{feff}'] + s).drop_first() =~= s);
}

proof fn between_holds(parts: Seq<Seq<char>>, c: char, x: char)
    requires
        x != c,
        forall|i: int| 0 <= i < parts.len() ==> !(#[trigger] parts[i]).contains(x),
    ensures
        !with_between(parts, c).contains(x),
    decreases parts.len(),
{
    let s = with_between(parts, c);
    if parts.len() > 0 {
        assert(!parts[0].contains(x));
        if parts.len() > 1 {
            let more = parts.drop_first();
            assert forall|i: int| 0 <= i < more.len() implies !(#[trigger] more[i]).contains(x) by {
                assert(more[i] == parts[i + 1]);
            }
            between_holds(more, c, x);
            let rest = with_between(more, c);
            assert forall|k: int| 0 <= k < s.len() implies s[k] != x by {
                if k < parts[0].len() {
                    assert(parts[0].contains(parts[0][k]));
                } else if k > parts[0].len() {
                    assert(rest.contains(rest[k - parts[0].len() - 1]));
                }
            }
        }
    }
}

proof fn between_ends(parts: Seq<Seq<char>>, c: char)
    requires
        parts.len() > 0,
        parts.last().len() > 0,
    ensures
        with_between(parts, c).len() > 0,
        with_between(parts, c).last() == parts.last().last(),
    decreases parts.len(),
{
    if parts.len() > 1 {
        between_ends(parts.drop_first(), c);
        assert(parts.drop_first().last() == parts.last());
    }
}

proof fn begins_with_its_first(s: Seq<char>)
    requires
        "://"@.is_prefix_of(s),
    ensures
        s.len() > 0 && s[0] == ':',
{
    reveal_strlit("://");
    assert("://"@.len() == 3 && "://"@[0] == ':');
    assert(s.subrange(0, 3)[0] == s[0]);
}

proof fn no_pattern_without_its_first(s: Seq<char>)
    requires
        !s.contains(':'),
    ensures
        found_at(s, "://"@) is None,
    decreases s.len(),
{
    if "://"@.is_prefix_of(s) {
        begins_with_its_first(s);
        assert(s.contains(s[0]));
    }
    if s.len() > 0 {
        assert forall|i: int| 0 <= i < s.drop_first().len() implies s.drop_first()[i] != ':' by {
            assert(s.contains(s[i + 1]));
        }
        no_pattern_without_its_first(s.drop_first());
    }
}

proof fn scheme_ends(scheme: Seq<char>, rest: Seq<char>)
    requires
        !scheme.contains(':'),
    ensures
        found_at(scheme + "://"@ + rest, "://"@) == Some(scheme.len() as int),
    decreases scheme.len(),
{
    reveal_strlit("://");
    let url = scheme + "://"@ + rest;
    if scheme.len() > 0 {
        assert(scheme.contains(scheme[0]));
        assert(url[0] != ':');
        if "://"@.is_prefix_of(url) {
            begins_with_its_first(url);
        }
        let more = scheme.drop_first();
        assert forall|i: int| 0 <= i < more.len() implies more[i] != ':' by {
            assert(scheme.contains(scheme[i + 1]));
        }
        assert(url.drop_first() =~= more + "://"@ + rest);
        scheme_ends(more, rest);
    } else {
        assert(url.subrange(0, 3) =~= "://"@);
        assert("://"@.is_prefix_of(url));
    }
}

proof fn scheme_is_passed(scheme: Seq<char>, rest: Seq<char>)
    requires
        !scheme.contains(':'),
        !rest.contains(':'),
    ensures
        past_scheme(scheme + "://"@ + rest) == rest,
{
    reveal_strlit("://");
    scheme_ends(scheme, rest);
    no_pattern_without_its_first(rest);
    assert((scheme + "://"@ + rest).skip(scheme.len() + 3int) =~= rest);
}

proof fn nothing_to_take(s: Seq<char>)
    requires
        s.len() > 0,
        s.last() != '/',
    ensures
        trim_end_of(s, seq!['/']) == s,
{
    let set = seq!['/'];
    assert(!set.contains(s.last()));
}

/// The owner in the address of a runner is the first part of its path.
pub proof fn the_owner_is_read(scheme: Seq<char>, parts: Seq<Seq<char>>)
    requires
        !scheme.contains(':'),
        parts.len() >= 2,
        parts[1].len() > 0,
        parts.last().len() > 0,
        forall|i: int| 0 <= i < parts.len() ==> !(#[trigger] parts[i]).contains('/'),
        forall|i: int| 0 <= i < parts.len() ==> !(#[trigger] parts[i]).contains(':'),
    ensures
        owner(scheme + "://"@ + with_between(parts, '/')) == Some(parts[1]),
{
    let rest = with_between(parts, '/');
    between_holds(parts, '/', ':');
    between_ends(parts, '/');
    scheme_is_passed(scheme, rest);
    assert(rest.last() != '/') by {
        assert(!parts[parts.len() - 1].contains('/'));
        assert(parts.last()[parts.last().len() - 1] == rest.last());
        assert(parts.last().contains(rest.last()));
    }
    nothing_to_take(rest);
    parts_are_read_back(parts, '/');
}

/// What was read of the runners is kept, in its order, and what could not be read is
/// left out. Gives where each runner was read.
pub proof fn read_runners_are_kept(read: Seq<Option<RunnerInfo>>) -> (w: Seq<int>)
    ensures
        w.len() == read_ones(read).len(),
        forall|k: int|
            0 <= k < w.len() ==> 0 <= #[trigger] w[k] < read.len() && read[w[k]] == Some(
                read_ones(read)[k],
            ),
        forall|a: int, b: int| 0 <= a < b < w.len() ==> #[trigger] w[a] < #[trigger] w[b],
        forall|i: int| 0 <= i < read.len() && #[trigger] read[i] is Some ==> w.contains(i),
    decreases read.len(),
{
    if read.len() == 0 {
        Seq::empty()
    } else {
        let init = read.drop_last();
        let v = read_runners_are_kept(init);
        let n = read.len() - 1;
        let w = if read.last() is Some {
            v.push(n)
        } else {
            v
        };
        assert forall|k: int| 0 <= k < w.len() implies 0 <= #[trigger] w[k] < read.len() && read[w[k]]
            == Some(read_ones(read)[k]) by {
            if k < v.len() {
                assert(w[k] == v[k]);
                assert(init[v[k]] == read[v[k]]);
            }
        }
        assert forall|i: int| 0 <= i < read.len() && #[trigger] read[i] is Some implies w.contains(i) by {
            if i < n {
                assert(init[i] == read[i]);
                assert(v.contains(i));
                let k = choose|k: int| 0 <= k < v.len() && v[k] == i;
                assert(w[k] == i);
            } else {
                assert(w[v.len() as int] == n);
            }
        }
        w
    }
}

/// The runners are given by name, each as it was read, and none is lost.
pub proof fn runners_are_given_by_name(rows: Seq<RunnerInfo>) -> (w: Seq<int>)
    ensures
        sorted_infos(rows).len() == rows.len() && w.len() == rows.len(),
        forall|k: int|
            0 <= k < w.len() ==> 0 <= #[trigger] w[k] < rows.len() && sorted_infos(rows)[k]
                == rows[w[k]],
        forall|i: int| 0 <= i < rows.len() ==> #[trigger] w.contains(i),
        forall|a: int, b: int|
            0 <= a < b < rows.len() ==> text_le(
                (#[trigger] sorted_infos(rows)[a]).name@,
                (#[trigger] sorted_infos(rows)[b]).name@,
            ),
{
    broadcast use vstd::seq_lib::group_to_multiset_ensures;

    let n = rows.len() as int;
    let before = crate::collectors::runners::infos_by_name(rows);
    let idx = select(any_row(), n);
    select_is_exact(any_row(), n);
    crate::store::reader::laws::all_are_selected(n);
    assert forall|a: int, b: int| #[trigger] before(a, b) || before(b, a) by {
        text_le_total(rows[a].name@, rows[b].name@);
    }
    assert forall|a: int, b: int, c: int| #[trigger]
        before(a, b) && #[trigger] before(b, c) implies before(a, c) by {
        text_le_transitive(rows[a].name@, rows[b].name@, rows[c].name@);
    }
    order_is_sorted(before, idx);
    order_is_a_permutation(before, idx);
    let w = order(before, idx);
    assert forall|k: int| 0 <= k < w.len() implies 0 <= #[trigger] w[k] < rows.len() by {
        assert(w.contains(w[k]));
        assert(w.to_multiset().count(w[k]) > 0);
        assert(idx.contains(w[k]));
    }
    assert forall|i: int| 0 <= i < rows.len() implies #[trigger] w.contains(i) by {
        assert(any_row()(i));
        assert(idx.contains(i));
        assert(idx.to_multiset().count(i) > 0);
    }
    assert forall|a: int, b: int| 0 <= a < b < rows.len() implies text_le(
        (#[trigger] sorted_infos(rows)[a]).name@,
        (#[trigger] sorted_infos(rows)[b]).name@,
    ) by {
        assert(before(w[a], w[b]));
    }
    w
}

/// The units that are asked about are those that are services, and all of them.
pub proof fn only_services_are_asked_about(units: Seq<Seq<char>>)
    ensures
        forall|u: Seq<char>| #[trigger]
            services(units).contains(u) <==> units.contains(u) && ".service"@.is_suffix_of(u),
{
    broadcast use vstd::seq_lib::group_filter_ensures;

    let p = |n: Seq<char>| ".service"@.is_suffix_of(n);
    assert forall|u: Seq<char>| #[trigger]
        services(units).contains(u) <==> units.contains(u) && ".service"@.is_suffix_of(u) by {
        if services(units).contains(u) {
            let i = choose|i: int| 0 <= i < units.filter(p).len() && units.filter(p)[i] == u;
            assert(p(units.filter(p)[i]));
            units.lemma_filter_contains_rev(p, u);
        }
        if units.contains(u) && p(u) {
            let i = choose|i: int| 0 <= i < units.len() && units[i] == u;
            assert(units.filter(p).contains(units[i]));
        }
    }
}

/// A line tells of a runner's directory below a root.
pub open spec fn tells_root(line: Seq<char>, root: Seq<char>) -> bool {
    exists|w: Seq<char>|
        trim(line) == #[trigger] ("WorkingDirectory="@ + w) && trim(w) != Seq::<char>::empty() && trim(
            w,
        ) != seq!['/'] && parent_of(trim(w)) == Some(root)
}

proof fn a_root_is_told(line: Seq<char>)
    ensures
        forall|root: Seq<char>| #[trigger] tells_root(line, root) ==> root_of(line) == Some(root),
        root_of(line) matches Some(root) ==> tells_root(line, root),
{
    let pre = "WorkingDirectory="@;
    let t = trim(line);
    assert forall|root: Seq<char>| #[trigger] tells_root(line, root) implies root_of(line) == Some(
        root,
    ) by {
        let w = choose|w: Seq<char>|
            t == #[trigger] (pre + w) && trim(w) != Seq::<char>::empty() && trim(w) != seq!['/']
                && parent_of(trim(w)) == Some(root);
        assert(pre.is_prefix_of(t));
        assert(t.skip(pre.len() as int) =~= w);
        if trim(w).len() == 0 {
            assert(trim(w) =~= Seq::<char>::empty());
        }
    }
    if let Some(root) = root_of(line) {
        let w = after_prefix(t, pre)->0;
        assert(t =~= pre + w);
        assert(trim(line) == pre + w);
    }
}

/// The roots are those that the lines tell of: each is among them, as a path, and no
/// other is.
pub proof fn every_told_root_is_kept(ls: Seq<Seq<char>>)
    ensures
        forall|i: int, root: Seq<char>|
            0 <= i < ls.len() && #[trigger] tells_root(ls[i], root) ==> has_path(
                named_roots(ls),
                root,
            ),
        forall|k: int|
            0 <= k < named_roots(ls).len() ==> some_line_tells(ls, #[trigger] named_roots(ls)[k]),
    decreases ls.len(),
{
    if ls.len() > 0 {
        let init = ls.drop_last();
        let last = ls.last();
        every_told_root_is_kept(init);
        a_root_is_told(last);
        let r = named_roots(init);
        let all = named_roots(ls);
        assert(ls[ls.len() - 1] == last);
        assert forall|i: int, root: Seq<char>|
            0 <= i < ls.len() && #[trigger] tells_root(ls[i], root) implies has_path(all, root) by {
            if i < ls.len() - 1 {
                assert(init[i] == ls[i]);
                assert(tells_root(init[i], root));
                assert(has_path(r, root));
                let k = choose|k: int|
                    0 <= k < r.len() && crate::path::components(#[trigger] r[k])
                        == crate::path::components(root);
                assert(all[k] == r[k]);
            } else if !has_path(r, root) {
                assert(all[r.len() as int] == root);
            }
        }
        assert forall|k: int| 0 <= k < all.len() implies some_line_tells(ls, #[trigger] all[k]) by {
            if k < r.len() {
                assert(all[k] == r[k]);
                assert(some_line_tells(init, r[k]));
                let i = choose|i: int| 0 <= i < init.len() && tells_root(#[trigger] init[i], r[k]);
                assert(tells_root(ls[i], all[k]));
            } else {
                assert(tells_root(ls[ls.len() - 1], all[k]));
            }
        }
    }
}

/// One of the lines tells of the root.
pub open spec fn some_line_tells(ls: Seq<Seq<char>>, root: Seq<char>) -> bool {
    exists|i: int| 0 <= i < ls.len() && tells_root(#[trigger] ls[i], root)
}

/// Sorting paths neither loses nor adds one.
pub proof fn sorting_paths_keeps_them(roots: Seq<Seq<char>>)
    ensures
        sorted_paths(roots).len() == roots.len(),
        forall|p: Seq<char>| #[trigger] sorted_paths(roots).contains(p) <==> roots.contains(p),
{
    broadcast use vstd::seq_lib::group_to_multiset_ensures;

    let n = roots.len() as int;
    let before = by_path(roots);
    let idx = select(any_row(), n);
    select_is_exact(any_row(), n);
    crate::store::reader::laws::all_are_selected(n);
    order_is_a_permutation(before, idx);
    let w = order(before, idx);
    assert forall|p: Seq<char>| #[trigger] sorted_paths(roots).contains(p) <==> roots.contains(p) by {
        if sorted_paths(roots).contains(p) {
            let k = choose|k: int| 0 <= k < w.len() && sorted_paths(roots)[k] == p;
            assert(w.contains(w[k]));
            assert(w.to_multiset().count(w[k]) > 0);
            assert(idx.contains(w[k]));
            assert(roots[w[k]] == p);
        }
        if roots.contains(p) {
            let i = choose|i: int| 0 <= i < roots.len() && roots[i] == p;
            assert(any_row()(i));
            assert(idx.contains(i));
            assert(idx.to_multiset().count(i) > 0);
            assert(w.contains(i));
            let k = choose|k: int| 0 <= k < w.len() && w[k] == i;
            assert(sorted_paths(roots)[k] == p);
        }
    }
}

/// The work folders are those of the runners, each below its runner's directory.
pub proof fn work_is_below_its_runner(infos: Seq<RunnerInfo>)
    ensures
        folders(infos).len() == infos.len(),
        forall|i: int|
            0 <= i < infos.len() ==> folders(infos)[i] == joined(
                (#[trigger] infos[i]).dir@,
                infos[i].work_folder@,
            ),
{
}

} // verus!
