//! Wiring a runner's hooks: detect first, never clobber.
//!
//! A runner allows one script per hook variable, and someone may already use
//! them. So the state is classified, and a foreign hook is chained or left alone,
//! never overwritten.

use vstd::prelude::*;
use vstd::slice::{slice_subrange, slice_to_vec};
use vstd::string::*;

use crate::hooks::lines::{text_of, write_lines};
use crate::path::{join, joined, starts_with, under};
use crate::scan::{
    after_prefix, has_prefix, lines, lines_of, strip, texts, trim, trim_of, trimmed, trimmed_of,
};
use crate::text::{chars_of, given, names, owned, same, string_of};

verus! {

pub const STARTED_VAR: &'static str = "ACTIONS_RUNNER_HOOK_JOB_STARTED";

pub const COMPLETED_VAR: &'static str = "ACTIONS_RUNNER_HOOK_JOB_COMPLETED";

/// The variable from which the hook scripts take the path of their event log.
pub const EVENT_LOG_VAR: &'static str = "GHR_STATS_EVENT_LOG";

/// What a runner's hook variables point at.
#[derive(Debug, Clone, Copy, PartialEq, Eq, Structural)]
pub enum HookStatus {
    /// Both point inside a hooks directory of ours.
    Ours,
    /// At least one points elsewhere, or is missing.
    Foreign,
    /// Neither is set.
    Unset,
    /// The file could not be read.
    Unreadable,
}

impl HookStatus {
    /// The mark of a status.
    pub open spec fn mark(self) -> Seq<char> {
        match self {
            HookStatus::Ours => "✓"@,
            HookStatus::Foreign | HookStatus::Unset => "✗"@,
            HookStatus::Unreadable => "?"@,
        }
    }

    /// A one-character mark.
    pub fn glyph(self) -> (r: &'static str)
        ensures
            r@ == self.mark(),
    {
        match self {
            HookStatus::Ours => "✓",
            HookStatus::Foreign | HookStatus::Unset => "✗",
            HookStatus::Unreadable => "?",
        }
    }
}

/// Where the hook scripts are installed.
pub fn hooks_dir(data_dir: &str) -> (r: String)
    ensures
        r@ == joined(data_dir@, "hooks"@),
{
    join(data_dir, "hooks")
}

// ---------------------------------------------------------------------------
// Reading
// ---------------------------------------------------------------------------

/// The value that a line gives to `key`: `KEY=VALUE`, white space and quotes
/// around the value dropped. A comment gives none.
pub open spec fn value_in(line: Seq<char>, key: Seq<char>) -> Option<Seq<char>> {
    let t = trim(line);
    if t.len() > 0 && t[0] == '#' {
        None
    } else {
        match after_prefix(t, key) {
            Some(rest) => if rest.len() > 0 && rest[0] == '=' {
                Some(trim_of(trim(rest.drop_first()), seq!['"', '\'']))
            } else {
                None
            },
            None => None,
        }
    }
}

/// The value of `key` in a file: the last line that gives one wins.
pub open spec fn lookup(ls: Seq<Seq<char>>, key: Seq<char>) -> Option<Seq<char>>
    decreases ls.len(),
{
    if ls.len() == 0 {
        None
    } else if value_in(ls.last(), key) is Some {
        value_in(ls.last(), key)
    } else {
        lookup(ls.drop_last(), key)
    }
}

fn line_value(line: &[char], key: &[char]) -> (r: Option<Vec<char>>)
    ensures
        r is Some == (value_in(line@, key@) is Some),
        r matches Some(v) ==> value_in(line@, key@) == Some(v@),
{
    let t = trimmed(line);
    if t.len() > 0 && t[0] == '#' {
        return None;
    }
    match strip(t, key) {
        Some(rest) => {
            if rest.len() > 0 && rest[0] == '=' {
                let tail = slice_subrange(rest, 1, rest.len());
                assert(tail@ =~= rest@.drop_first());
                let quotes: Vec<char> = vec!['"', '\''];
                assert(quotes@ =~= seq!['"', '\'']);
                Some(slice_to_vec(trimmed_of(trimmed(tail), quotes.as_slice())))
            } else {
                None
            }
        },
        None => None,
    }
}

/// The value of `key` in an environment file.
pub fn env_value(env: &str, key: &str) -> (r: Option<String>)
    ensures
        r is Some == (lookup(lines(env@), key@) is Some),
        r matches Some(v) ==> lookup(lines(env@), key@) == Some(v@),
{
    let text = chars_of(env);
    let ls = lines_of(text.as_slice());
    let k = chars_of(key);
    let ghost all = lines(env@);
    assert(texts(ls@).len() == ls@.len());
    let mut i: usize = ls.len();
    assert(all.take(i as int) =~= all);
    while i > 0
        invariant
            i <= ls@.len(),
            texts(ls@) == all,
            all == lines(env@),
            all.len() == ls@.len(),
            k@ == key@,
            lookup(all, key@) == lookup(all.take(i as int), key@),
        decreases i,
    {
        assert(texts(ls@)[i - 1] == ls@[i - 1]@);
        assert(all.take(i as int).last() == all[i - 1]);
        assert(all.take(i as int).drop_last() =~= all.take(i - 1));
        match line_value(ls[i - 1].as_slice(), k.as_slice()) {
            Some(v) => {
                return Some(string_of(v.as_slice()));
            },
            None => {},
        }
        i = i - 1;
    }
    None
}

/// The hook scripts that an environment file names.
pub fn current_hook_paths(env: &str) -> (r: (Option<String>, Option<String>))
    ensures
        r.0 is Some == (lookup(lines(env@), STARTED_VAR@) is Some),
        r.0 matches Some(v) ==> lookup(lines(env@), STARTED_VAR@) == Some(v@),
        r.1 is Some == (lookup(lines(env@), COMPLETED_VAR@) is Some),
        r.1 matches Some(v) ==> lookup(lines(env@), COMPLETED_VAR@) == Some(v@),
{
    (env_value(env, STARTED_VAR), env_value(env, COMPLETED_VAR))
}

/// Whether a path lies in one of the directories.
pub open spec fn in_any(p: Seq<char>, dirs: Seq<Seq<char>>) -> bool {
    exists|i: int| 0 <= i < dirs.len() && under(p, #[trigger] dirs[i])
}

/// What the two hook values amount to.
pub open spec fn status_of(
    started: Option<Seq<char>>,
    completed: Option<Seq<char>>,
    dirs: Seq<Seq<char>>,
) -> HookStatus {
    match (started, completed) {
        (None, None) => HookStatus::Unset,
        (Some(s), Some(c)) => if in_any(s, dirs) && in_any(c, dirs) {
            HookStatus::Ours
        } else {
            HookStatus::Foreign
        },
        _ => HookStatus::Foreign,
    }
}

/// What an environment file's hooks amount to.
pub open spec fn classified(env: Seq<char>, dirs: Seq<Seq<char>>) -> HookStatus {
    status_of(lookup(lines(env), STARTED_VAR@), lookup(lines(env), COMPLETED_VAR@), dirs)
}

fn is_ours(p: &String, dirs: &[String]) -> (r: bool)
    ensures
        r == in_any(p@, names(dirs@)),
{
    let ghost all = names(dirs@);
    let mut i: usize = 0;
    while i < dirs.len()
        invariant
            i <= dirs@.len(),
            all == names(dirs@),
            forall|k: int| 0 <= k < i ==> !under(p@, #[trigger] all[k]),
        decreases dirs@.len() - i,
    {
        if starts_with(p.as_str(), dirs[i].as_str()) {
            assert(under(p@, all[i as int]));
            return true;
        }
        i = i + 1;
    }
    false
}

/// Classify the hooks of an environment file against several hooks directories: a
/// hook is ours where it lies in any of them.
pub fn classify_in(env: &str, our_dirs: &[String]) -> (r: HookStatus)
    ensures
        r == classified(env@, names(our_dirs@)),
{
    match current_hook_paths(env) {
        (None, None) => HookStatus::Unset,
        (Some(s), Some(c)) => if is_ours(&s, our_dirs) && is_ours(&c, our_dirs) {
            HookStatus::Ours
        } else {
            HookStatus::Foreign
        },
        _ => HookStatus::Foreign,
    }
}

/// Classify the hooks of an environment file against one hooks directory.
pub fn classify(env: &str, our_dir: &str) -> (r: HookStatus)
    ensures
        r == classified(env@, seq![our_dir@]),
{
    let mut dirs: Vec<String> = Vec::new();
    dirs.push(owned(our_dir));
    assert(names(dirs@) =~= seq![our_dir@]);
    classify_in(env, dirs.as_slice())
}

/// Classify what was read of a runner's environment file: `None` where it could
/// not be read.
pub fn detect_in(env: Option<&str>, our_dirs: &[String]) -> (r: HookStatus)
    ensures
        r == (match env {
            Some(text) => classified(text@, names(our_dirs@)),
            None => HookStatus::Unreadable,
        }),
{
    match env {
        Some(text) => classify_in(text, our_dirs),
        None => HookStatus::Unreadable,
    }
}

/// Classify what was read of a runner's environment file against one directory.
pub fn detect(env: Option<&str>, our_dir: &str) -> (r: HookStatus)
    ensures
        r == (match env {
            Some(text) => classified(text@, seq![our_dir@]),
            None => HookStatus::Unreadable,
        }),
{
    match env {
        Some(text) => classify(text, our_dir),
        None => HookStatus::Unreadable,
    }
}

/// More directories never make a hook foreign that fewer call ours.
pub proof fn more_dirs_keep_ours(env: Seq<char>, dirs: Seq<Seq<char>>, more: Seq<Seq<char>>)
    requires
        classified(env, dirs) == HookStatus::Ours,
    ensures
        classified(env, dirs + more) == HookStatus::Ours,
{
    let s = lookup(lines(env), STARTED_VAR@)->0;
    let c = lookup(lines(env), COMPLETED_VAR@)->0;
    let i = choose|i: int| 0 <= i < dirs.len() && under(s, #[trigger] dirs[i]);
    let j = choose|j: int| 0 <= j < dirs.len() && under(c, #[trigger] dirs[j]);
    assert((dirs + more)[i] == dirs[i]);
    assert((dirs + more)[j] == dirs[j]);
}

// ---------------------------------------------------------------------------
// Writing
// ---------------------------------------------------------------------------

/// A line that sets a variable: its whole name, then an equals sign.
pub open spec fn sets(l: Seq<char>, key: Seq<char>) -> bool {
    key.push('=').is_prefix_of(trim(l))
}

/// A line that sets one of our three variables.
pub open spec fn is_hook_line(l: Seq<char>) -> bool {
    sets(l, STARTED_VAR@) || sets(l, COMPLETED_VAR@) || sets(l, EVENT_LOG_VAR@)
}

/// A line that sets the event log.
pub open spec fn is_log_line(l: Seq<char>) -> bool {
    sets(l, EVENT_LOG_VAR@)
}

/// The lines that set none of our variables.
pub open spec fn foreign() -> spec_fn(Seq<char>) -> bool {
    |l: Seq<char>| !is_hook_line(l)
}

/// The lines that do not set the event log.
pub open spec fn unlogged() -> spec_fn(Seq<char>) -> bool {
    |l: Seq<char>| !is_log_line(l)
}

/// The lines of a file that are not ours.
pub open spec fn foreign_lines(env: Seq<char>) -> Seq<Seq<char>> {
    lines(env).filter(foreign())
}

/// The lines of a file that do not set the event log.
pub open spec fn other_lines(env: Seq<char>) -> Seq<Seq<char>> {
    lines(env).filter(unlogged())
}

/// A line that sets a variable.
pub open spec fn setting(key: Seq<char>, value: Seq<char>) -> Seq<char> {
    key + "="@ + value
}

/// The lines that wire a runner's hooks.
pub open spec fn wiring(started: Seq<char>, completed: Seq<char>, log: Option<Seq<char>>) -> Seq<
    Seq<char>,
> {
    let hooks = seq![setting(STARTED_VAR@, started), setting(COMPLETED_VAR@, completed)];
    match log {
        Some(l) => hooks.push(setting(EVENT_LOG_VAR@, l)),
        None => hooks,
    }
}

/// An environment file with the hooks wired.
pub open spec fn wired(
    env: Seq<char>,
    started: Seq<char>,
    completed: Seq<char>,
    log: Option<Seq<char>>,
) -> Seq<char> {
    text_of(foreign_lines(env) + wiring(started, completed, log))
}

/// An environment file without our variables.
pub open spec fn unwired(env: Seq<char>) -> Seq<char> {
    text_of(foreign_lines(env))
}

fn line_sets(l: &[char], key: &str) -> (r: bool)
    ensures
        r == sets(l@, key@),
{
    let mut start = chars_of(key);
    start.push('=');
    has_prefix(trimmed(l), start.as_slice())
}

fn hook_line(l: &[char]) -> (r: bool)
    ensures
        r == is_hook_line(l@),
{
    line_sets(l, STARTED_VAR) || line_sets(l, COMPLETED_VAR) || line_sets(l, EVENT_LOG_VAR)
}

fn log_line(l: &[char]) -> (r: bool)
    ensures
        r == is_log_line(l@),
{
    line_sets(l, EVENT_LOG_VAR)
}

/// The lines of a file that are not ours; with `log_only`, those that do not set
/// the event log.
fn kept_lines(env: &str, log_only: bool) -> (r: Vec<Vec<char>>)
    ensures
        texts(r@) == if log_only {
            other_lines(env@)
        } else {
            foreign_lines(env@)
        },
{
    let text = chars_of(env);
    let ls = lines_of(text.as_slice());
    let ghost all = lines(env@);
    let ghost p = if log_only {
        unlogged()
    } else {
        foreign()
    };
    assert(texts(ls@).len() == ls@.len());
    let mut out: Vec<Vec<char>> = Vec::new();
    let mut i: usize = 0;
    proof {
        reveal(Seq::filter);
    }
    assert(all.take(0) =~= seq![]);
    assert(texts(out@) =~= all.take(0).filter(p));
    while i < ls.len()
        invariant
            i <= ls@.len(),
            texts(ls@) == all,
            all.len() == ls@.len(),
            log_only ==> forall|l: Seq<char>| #[trigger] p(l) == !is_log_line(l),
            !log_only ==> forall|l: Seq<char>| #[trigger] p(l) == !is_hook_line(l),
            texts(out@) == all.take(i as int).filter(p),
        decreases ls@.len() - i,
    {
        proof {
            reveal(Seq::filter);
            assert(all.take(i + 1).drop_last() =~= all.take(i as int));
            assert(all.take(i + 1).last() == all[i as int]);
            assert(texts(ls@)[i as int] == ls@[i as int]@);
            assert(p(all[i as int]) == if log_only {
                !is_log_line(all[i as int])
            } else {
                !is_hook_line(all[i as int])
            });
        }
        let ours = if log_only {
            log_line(ls[i].as_slice())
        } else {
            hook_line(ls[i].as_slice())
        };
        if !ours {
            let ghost was = out@;
            out.push(slice_to_vec(ls[i].as_slice()));
            assert(texts(out@) =~= texts(was).push(all[i as int]));
        }
        i = i + 1;
    }
    assert(all.take(i as int) =~= all);
    out
}

fn setting_line(key: &str, value: &str) -> (r: Vec<char>)
    ensures
        r@ == setting(key@, value@),
{
    let mut s = owned(key);
    s.append("=");
    s.append(value);
    chars_of(s.as_str())
}

/// Wire the hooks in an environment file: both hook variables, and the event log
/// where one is given. Other lines stay; earlier values of ours go.
pub fn rewrite_env(existing: &str, started: &str, completed: &str, event_log: Option<&str>) -> (r:
    String)
    ensures
        r@ == wired(existing@, started@, completed@, given(event_log)),
{
    let mut out = kept_lines(existing, false);
    let ghost kept = texts(out@);
    out.push(setting_line(STARTED_VAR, started));
    out.push(setting_line(COMPLETED_VAR, completed));
    match event_log {
        Some(log) => {
            out.push(setting_line(EVENT_LOG_VAR, log));
        },
        None => {},
    }
    assert(texts(out@) =~= kept + wiring(started@, completed@, given(event_log)));
    write_lines(&out)
}

/// Remove our variables from an environment file. Other lines stay.
pub fn remove_hook_vars(existing: &str) -> (r: String)
    ensures
        r@ == unwired(existing@),
{
    let kept = kept_lines(existing, false);
    write_lines(&kept)
}

/// Make an environment file name the event log: the new text, or `None` where it
/// already does. Only that variable is touched.
pub fn ensure_event_log(existing: &str, log: &str) -> (r: Option<String>)
    ensures
        r is None <==> lookup(lines(existing@), EVENT_LOG_VAR@) == Some(log@),
        r matches Some(s) ==> s@ == text_of(
            other_lines(existing@).push(setting(EVENT_LOG_VAR@, log@)),
        ),
{
    match env_value(existing, EVENT_LOG_VAR) {
        Some(v) => {
            if same(v.as_str(), log) {
                return None;
            }
        },
        None => {},
    }
    let mut out = kept_lines(existing, true);
    let ghost kept = texts(out@);
    out.push(setting_line(EVENT_LOG_VAR, log));
    assert(texts(out@) =~= kept.push(setting(EVENT_LOG_VAR@, log@)));
    Some(write_lines(&out))
}

/// The text for someone who keeps hooks of their own.
pub open spec fn instructions(dir: Seq<char>) -> Seq<char> {
    "Keep your existing hooks and add ghr-stats event logging by appending one\nline to each (it always exits 0, so it cannot fail a job):\n\n  # in your JOB_STARTED hook:\n  \""@
        + joined(dir, "job-started.sh"@)
        + "\" \"$@\" || true\n\n  # in your JOB_COMPLETED hook:\n  \""@ + joined(
        dir,
        "job-completed.sh"@,
    ) + "\" \"$@\" || true\n"@
}

/// The snippet for someone who keeps hooks of their own.
pub fn instruct_snippet(our_dir: &str) -> (r: String)
    ensures
        r@ == instructions(our_dir@),
{
    let mut s = owned(
        "Keep your existing hooks and add ghr-stats event logging by appending one\nline to each (it always exits 0, so it cannot fail a job):\n\n  # in your JOB_STARTED hook:\n  \"",
    );
    s.append(join(our_dir, "job-started.sh").as_str());
    s.append("\" \"$@\" || true\n\n  # in your JOB_COMPLETED hook:\n  \"");
    s.append(join(our_dir, "job-completed.sh").as_str());
    s.append("\" \"$@\" || true\n");
    s
}

/// A runner's hooks are unset where neither is named, ours where both are and each
/// lies in a directory of ours, and somebody else's otherwise.
pub proof fn hooks_are_ours_only_together(
    started: Option<Seq<char>>,
    completed: Option<Seq<char>>,
    dirs: Seq<Seq<char>>,
)
    ensures
        status_of(started, completed, dirs) is Unset <==> started is None && completed is None,
        status_of(started, completed, dirs) is Ours <==> started is Some && completed is Some && (
        exists|i: int| 0 <= i < dirs.len() && under(started->0, #[trigger] dirs[i])) && (exists|
            i: int,
        |
            0 <= i < dirs.len() && under(completed->0, #[trigger] dirs[i])),
        status_of(started, completed, dirs) !is Unreadable,
{
}

/// What a variable is set to is what its last line says; a commented line says
/// nothing.
pub proof fn the_last_setting_counts(ls: Seq<Seq<char>>, key: Seq<char>)
    ensures
        forall|k: int|
            0 <= k < ls.len() && value_in(#[trigger] ls[k], key) is Some && (forall|i: int|
                k < i < ls.len() ==> value_in(#[trigger] ls[i], key) is None) ==> lookup(ls, key)
                == value_in(ls[k], key),
        (forall|i: int| 0 <= i < ls.len() ==> value_in(#[trigger] ls[i], key) is None) ==> lookup(
            ls,
            key,
        ) is None,
        forall|l: Seq<char>|
            trim(l).len() > 0 && trim(l)[0] == '#' ==> #[trigger] value_in(l, key) is None,
    decreases ls.len(),
{
    if ls.len() > 0 {
        let init = ls.drop_last();
        let n = ls.len() - 1;
        the_last_setting_counts(init, key);
        assert(ls[n] == ls.last());
        assert forall|k: int|
            0 <= k < ls.len() && value_in(#[trigger] ls[k], key) is Some && (forall|i: int|
                k < i < ls.len() ==> value_in(#[trigger] ls[i], key) is None) implies lookup(ls, key)
            == value_in(ls[k], key) by {
            if k < n {
                assert(value_in(ls[n], key) is None);
                assert(init[k] == ls[k]);
                assert forall|i: int| k < i < init.len() implies value_in(#[trigger] init[i], key) is None by {
                    assert(init[i] == ls[i]);
                }
            }
        }
        if forall|i: int| 0 <= i < ls.len() ==> value_in(#[trigger] ls[i], key) is None {
            assert(value_in(ls[n], key) is None);
            assert forall|i: int| 0 <= i < init.len() implies value_in(#[trigger] init[i], key) is None by {
                assert(init[i] == ls[i]);
            }
        }
    }
}

/// Only hooks of ours are marked as set; what could not be read is not called unset.
pub proof fn a_mark_tells_the_status(s: HookStatus)
    ensures
        s is Ours ==> s.mark() == "✓"@,
        s is Foreign || s is Unset ==> s.mark() == "✗"@,
        s is Unreadable ==> s.mark() == "?"@,
{
}

} // verus!
