//! What installing hooks and removing them again leaves behind.

use vstd::prelude::*;
use vstd::string::*;

use crate::hooks::chain::{first_marked, marked, wrapped, wrapper, wrapper_lines, WRAP_MARKER};
use crate::hooks::install::{
    classified, foreign, foreign_lines, in_any, is_hook_line, lookup, other_lines, sets, setting,
    unlogged, unwired, value_in, wired, wiring, HookStatus, COMPLETED_VAR, EVENT_LOG_VAR,
    STARTED_VAR,
};
use crate::hooks::lines::{
    all_clean, all_unbroken, chomped, clean_lines_read_back, clean_lines_stay, is_unbroken,
    lines_are_unbroken, lines_read_on, text_of, unbroken_lines_read_back,
};
use crate::scan::{chomp, is_space, lines, trim, trim_end, trim_start};

verus! {

/// A value that reads back as it was written: no line feed in it, and neither
/// white space nor a quote at either end.
pub open spec fn is_plain(v: Seq<char>) -> bool {
    &&& !v.contains('\n')
    &&& v.len() > 0 ==> is_solid(v[0]) && is_solid(v.last())
}

/// Neither white space nor a quote.
pub open spec fn is_solid(c: char) -> bool {
    !is_space(c) && c != '"' && c != '\''
}

/// A log path that may be missing is plain.
pub open spec fn is_plain_log(log: Option<Seq<char>>) -> bool {
    log matches Some(l) ==> is_plain(l)
}

/// A log path that may be missing is unbroken.
pub open spec fn is_unbroken_log(log: Option<Seq<char>>) -> bool {
    log matches Some(l) ==> is_unbroken(l)
}

proof fn trim_end_keeps(s: Seq<char>, p: Seq<char>)
    requires
        p.is_prefix_of(s),
        p.len() > 0,
        !is_space(p.last()),
    ensures
        p.is_prefix_of(trim_end(s)),
    decreases s.len(),
{
    if s.len() > 0 && is_space(s.last()) {
        assert(s.len() > p.len());
        assert(p.is_prefix_of(s.drop_last()));
        trim_end_keeps(s.drop_last(), p);
    }
}

proof fn trim_keeps(s: Seq<char>, p: Seq<char>)
    requires
        p.is_prefix_of(s),
        p.len() > 0,
        !is_space(p[0]),
        !is_space(p.last()),
    ensures
        p.is_prefix_of(trim(s)),
{
    assert(s[0] == p[0]);
    trim_end_keeps(s, p);
}

proof fn solid_is_trimmed(s: Seq<char>)
    requires
        s.len() > 0,
        !is_space(s[0]),
        !is_space(s.last()),
    ensures
        trim(s) == s,
{
}

/// What a line says that sets `key` to a plain value.
proof fn setting_reads_back(key: Seq<char>, v: Seq<char>)
    requires
        key.len() > 0,
        !is_space(key[0]),
        key[0] != '#',
        is_plain(v),
    ensures
        value_in(setting(key, v), key) == Some(v),
{
    reveal_strlit("=");
    let l = setting(key, v);
    assert(l[0] == key[0]);
    assert(l.last() == if v.len() > 0 {
        v.last()
    } else {
        '='
    });
    solid_is_trimmed(l);
    assert(key.is_prefix_of(l));
    let rest = l.skip(key.len() as int);
    assert(rest =~= "="@ + v);
    assert(rest.drop_first() =~= v);
    let quotes = seq!['"', '\''];
    if v.len() > 0 {
        solid_is_trimmed(v);
        assert(!quotes.contains(v[0]));
        assert(!quotes.contains(v.last()));
    }
}

/// A line that starts with another key says nothing of `key`.
proof fn other_setting_is_silent(other: Seq<char>, l: Seq<char>, key: Seq<char>, i: int)
    requires
        other.is_prefix_of(trim(l)),
        0 <= i < other.len(),
        i < key.len(),
        other[i] != key[i],
    ensures
        value_in(l, key) is None,
{
    if key.is_prefix_of(trim(l)) {
        assert(trim(l)[i] == key[i]);
        assert(trim(l)[i] == other[i]);
    }
}

proof fn filter_none(ls: Seq<Seq<char>>, p: spec_fn(Seq<char>) -> bool)
    requires
        forall|i: int| 0 <= i < ls.len() ==> !p(#[trigger] ls[i]),
    ensures
        ls.filter(p) == Seq::<Seq<char>>::empty(),
    decreases ls.len(),
{
    reveal(Seq::filter);
    if ls.len() > 0 {
        assert forall|i: int| 0 <= i < ls.drop_last().len() implies !p(
            #[trigger] ls.drop_last()[i],
        ) by {
            assert(!p(ls[i]));
        }
        filter_none(ls.drop_last(), p);
        assert(!p(ls[ls.len() - 1]));
    }
    assert(ls.filter(p) =~= Seq::<Seq<char>>::empty());
}

proof fn filter_all(ls: Seq<Seq<char>>, p: spec_fn(Seq<char>) -> bool)
    requires
        forall|i: int| 0 <= i < ls.len() ==> p(#[trigger] ls[i]),
    ensures
        ls.filter(p) == ls,
    decreases ls.len(),
{
    reveal(Seq::filter);
    if ls.len() > 0 {
        assert forall|i: int| 0 <= i < ls.drop_last().len() implies p(
            #[trigger] ls.drop_last()[i],
        ) by {
            assert(p(ls[i]));
        }
        filter_all(ls.drop_last(), p);
        assert(p(ls[ls.len() - 1]));
    }
    assert(ls.filter(p) =~= ls);
}

proof fn filter_passes(ls: Seq<Seq<char>>, p: spec_fn(Seq<char>) -> bool)
    ensures
        forall|i: int| 0 <= i < ls.filter(p).len() ==> p(#[trigger] ls.filter(p)[i]),
    decreases ls.len(),
{
    reveal(Seq::filter);
    if ls.len() > 0 {
        filter_passes(ls.drop_last(), p);
    }
}

proof fn filter_is_unbroken(ls: Seq<Seq<char>>, p: spec_fn(Seq<char>) -> bool)
    requires
        all_unbroken(ls),
    ensures
        all_unbroken(ls.filter(p)),
    decreases ls.len(),
{
    reveal(Seq::filter);
    if ls.len() > 0 {
        assert(all_unbroken(ls.drop_last())) by {
            assert forall|i: int| 0 <= i < ls.drop_last().len() implies is_unbroken(
                #[trigger] ls.drop_last()[i],
            ) by {
                assert(is_unbroken(ls[i]));
            }
        }
        filter_is_unbroken(ls.drop_last(), p);
        assert(is_unbroken(ls[ls.len() - 1]));
    }
}

/// Trimming takes white space at the end, however much of it there is.
proof fn trim_takes_one_more(l: Seq<char>, c: char)
    requires
        is_space(c),
    ensures
        trim(l.push(c)) == trim(l),
    decreases l.len(),
{
    let m = l.push(c);
    if l.len() == 0 {
        assert(m.drop_first() =~= l);
    } else if is_space(l[0]) {
        assert(m.drop_first() =~= l.drop_first().push(c));
        trim_takes_one_more(l.drop_first(), c);
    } else {
        assert(m.drop_last() =~= l);
    }
}

/// A carriage return at the end of a line says nothing.
proof fn chomp_says_the_same(l: Seq<char>)
    ensures
        trim(chomp(l)) == trim(l),
{
    if l.len() > 0 && l.last() == '\r' {
        assert(l.drop_last().push('\r') =~= l);
        trim_takes_one_more(l.drop_last(), '\r');
    }
}

proof fn lookup_in_chomped(ls: Seq<Seq<char>>, key: Seq<char>)
    ensures
        lookup(chomped(ls), key) == lookup(ls, key),
    decreases ls.len(),
{
    if ls.len() > 0 {
        lookup_in_chomped(ls.drop_last(), key);
        assert(chomped(ls).drop_last() =~= chomped(ls.drop_last()));
        chomp_says_the_same(ls.last());
    }
}

proof fn foreign_in_chomped(ls: Seq<Seq<char>>)
    ensures
        chomped(ls).filter(foreign()) == chomped(ls.filter(foreign())),
    decreases ls.len(),
{
    reveal(Seq::filter);
    if ls.len() > 0 {
        let less = ls.drop_last();
        foreign_in_chomped(less);
        assert(chomped(ls).drop_last() =~= chomped(less));
        chomp_says_the_same(ls.last());
        if foreign()(ls.last()) {
            assert(chomped(less.filter(foreign()).push(ls.last())) =~= chomped(
                less.filter(foreign()),
            ).push(chomp(ls.last())));
        }
    } else {
        assert(chomped(ls).filter(foreign()) =~= chomped(ls.filter(foreign())));
    }
}

/// Dropping lines that say nothing of `key` changes nothing for it.
proof fn lookup_ignores(ls: Seq<Seq<char>>, key: Seq<char>, p: spec_fn(Seq<char>) -> bool)
    requires
        forall|l: Seq<char>| !#[trigger] p(l) ==> value_in(l, key) is None,
    ensures
        lookup(ls.filter(p), key) == lookup(ls, key),
    decreases ls.len(),
{
    reveal(Seq::filter);
    if ls.len() > 0 {
        lookup_ignores(ls.drop_last(), key, p);
        let kept = ls.drop_last().filter(p);
        if p(ls.last()) {
            assert(kept.push(ls.last()).drop_last() =~= kept);
        }
    }
}

/// The variables differ from one another where they matter.
proof fn the_variables()
    ensures
        STARTED_VAR@.len() == 31,
        COMPLETED_VAR@.len() == 33,
        EVENT_LOG_VAR@.len() == 19,
        STARTED_VAR@[0] == 'A',
        COMPLETED_VAR@[0] == 'A',
        EVENT_LOG_VAR@[0] == 'G',
        STARTED_VAR@[24] == 'S',
        COMPLETED_VAR@[24] == 'C',
        STARTED_VAR@.last() == 'D',
        COMPLETED_VAR@.last() == 'D',
        EVENT_LOG_VAR@.last() == 'G',
{
    reveal_strlit("ACTIONS_RUNNER_HOOK_JOB_STARTED");
    reveal_strlit("ACTIONS_RUNNER_HOOK_JOB_COMPLETED");
    reveal_strlit("GHR_STATS_EVENT_LOG");
}

proof fn no_equals_in_the_variables()
    ensures
        !STARTED_VAR@.contains('='),
        !COMPLETED_VAR@.contains('='),
        !EVENT_LOG_VAR@.contains('='),
{
    reveal_strlit("ACTIONS_RUNNER_HOOK_JOB_STARTED");
    reveal_strlit("ACTIONS_RUNNER_HOOK_JOB_COMPLETED");
    reveal_strlit("GHR_STATS_EVENT_LOG");
}

proof fn no_feed_in_the_variables()
    ensures
        !STARTED_VAR@.contains('\n'),
        !COMPLETED_VAR@.contains('\n'),
        !EVENT_LOG_VAR@.contains('\n'),
{
    reveal_strlit("ACTIONS_RUNNER_HOOK_JOB_STARTED");
    reveal_strlit("ACTIONS_RUNNER_HOOK_JOB_COMPLETED");
    reveal_strlit("GHR_STATS_EVENT_LOG");
}

proof fn setting_is_unbroken(key: Seq<char>, v: Seq<char>)
    requires
        is_unbroken(key),
        is_unbroken(v),
    ensures
        is_unbroken(setting(key, v)),
{
    reveal_strlit("=");
    let l = setting(key, v);
    if l.contains('\n') {
        let i = choose|i: int| 0 <= i < l.len() && l[i] == '\n';
        if i < key.len() {
            assert(key[i] == '\n');
        } else if i > key.len() {
            assert(v[i - key.len() - 1] == '\n');
        }
    }
}

/// A setting sets what it names.
proof fn setting_sets(key: Seq<char>, v: Seq<char>)
    requires
        key.len() > 0,
        !is_space(key[0]),
    ensures
        sets(setting(key, v), key),
{
    reveal_strlit("=");
    assert(key.push('=').is_prefix_of(setting(key, v)));
    trim_keeps(setting(key, v), key.push('='));
}

/// A line that sets another variable is never taken for one of ours, even where
/// its name begins with the name of one of ours.
pub proof fn other_variables_are_foreign(key: Seq<char>, v: Seq<char>)
    requires
        key.len() > 0,
        !is_space(key[0]),
        !key.contains('='),
        key != STARTED_VAR@,
        key != COMPLETED_VAR@,
        key != EVENT_LOG_VAR@,
    ensures
        !is_hook_line(setting(key, v)),
{
    setting_sets(key, v);
    no_equals_in_the_variables();
    let l = setting(key, v);
    if sets(l, STARTED_VAR@) {
        one_name_is_set(l, key, STARTED_VAR@);
    }
    if sets(l, COMPLETED_VAR@) {
        one_name_is_set(l, key, COMPLETED_VAR@);
    }
    if sets(l, EVENT_LOG_VAR@) {
        one_name_is_set(l, key, EVENT_LOG_VAR@);
    }
}

/// A line sets one variable at most.
proof fn one_name_is_set(l: Seq<char>, a: Seq<char>, b: Seq<char>)
    requires
        sets(l, a),
        sets(l, b),
        !a.contains('='),
        !b.contains('='),
    ensures
        a == b,
{
    let t = trim(l);
    let x = a.push('=');
    let y = b.push('=');
    assert(t[a.len() as int] == x[a.len() as int]);
    assert(t[b.len() as int] == y[b.len() as int]);
    if a.len() < b.len() {
        assert(t[a.len() as int] == y[a.len() as int]);
        assert(b[a.len() as int] == '=');
    } else if b.len() < a.len() {
        assert(t[b.len() as int] == x[b.len() as int]);
        assert(a[b.len() as int] == '=');
    } else {
        assert forall|i: int| 0 <= i < a.len() implies a[i] == b[i] by {
            assert(t[i] == x[i]);
            assert(t[i] == y[i]);
        }
        assert(a =~= b);
    }
}

proof fn wiring_facts(started: Seq<char>, completed: Seq<char>, log: Option<Seq<char>>)
    requires
        is_unbroken(started),
        is_unbroken(completed),
        is_unbroken_log(log),
    ensures
        all_unbroken(wiring(started, completed, log)),
        wiring(started, completed, log).filter(foreign()) == Seq::<Seq<char>>::empty(),
{
    let ws = wiring(started, completed, log);
    the_variables();
    no_feed_in_the_variables();
    setting_is_unbroken(STARTED_VAR@, started);
    setting_is_unbroken(COMPLETED_VAR@, completed);
    setting_sets(STARTED_VAR@, started);
    setting_sets(COMPLETED_VAR@, completed);
    if let Some(l) = log {
        setting_is_unbroken(EVENT_LOG_VAR@, l);
        setting_sets(EVENT_LOG_VAR@, l);
    }
    assert forall|i: int| 0 <= i < ws.len() implies !foreign()(#[trigger] ws[i]) by {
        assert(i == 0 || i == 1 || i == 2);
    }
    filter_none(ws, foreign());
}

/// The lines of a file that is wired, and those of them that are not ours.
proof fn wired_lines(
    env: Seq<char>,
    started: Seq<char>,
    completed: Seq<char>,
    log: Option<Seq<char>>,
)
    requires
        is_unbroken(started),
        is_unbroken(completed),
        is_unbroken_log(log),
    ensures
        lines(wired(env, started, completed, log)) == chomped(
            foreign_lines(env) + wiring(started, completed, log),
        ),
        foreign_lines(wired(env, started, completed, log)) == chomped(foreign_lines(env)),
{
    let kept = foreign_lines(env);
    let ws = wiring(started, completed, log);
    lines_are_unbroken(env);
    filter_is_unbroken(lines(env), foreign());
    wiring_facts(started, completed, log);
    assert(all_unbroken(kept + ws)) by {
        assert forall|i: int| 0 <= i < (kept + ws).len() implies is_unbroken(
            #[trigger] (kept + ws)[i],
        ) by {
            if i < kept.len() {
                assert(is_unbroken(kept[i]));
            } else {
                assert(is_unbroken(ws[i - kept.len()]));
            }
        }
    }
    unbroken_lines_read_back(kept + ws);
    foreign_in_chomped(kept + ws);
    Seq::filter_distributes_over_add(kept, ws, foreign());
    filter_passes(lines(env), foreign());
    filter_all(kept, foreign());
    assert(kept + Seq::<Seq<char>>::empty() =~= kept);
}

/// Wiring a file a second time replaces the first wiring: the last one alone
/// counts, and no line of anyone else's is lost on the way.
pub proof fn rewiring_replaces(
    env: Seq<char>,
    s1: Seq<char>,
    c1: Seq<char>,
    l1: Option<Seq<char>>,
    s2: Seq<char>,
    c2: Seq<char>,
    l2: Option<Seq<char>>,
)
    requires
        all_clean(foreign_lines(env)),
        is_unbroken(s1),
        is_unbroken(c1),
        is_unbroken_log(l1),
    ensures
        wired(wired(env, s1, c1, l1), s2, c2, l2) == wired(env, s2, c2, l2),
{
    wired_lines(env, s1, c1, l1);
    clean_lines_stay(foreign_lines(env));
}

/// Removing what a fresh installation wired gives back the file as it was.
pub proof fn fresh_install_reverses(
    ls: Seq<Seq<char>>,
    started: Seq<char>,
    completed: Seq<char>,
    log: Option<Seq<char>>,
)
    requires
        all_clean(ls),
        forall|i: int| 0 <= i < ls.len() ==> !is_hook_line(#[trigger] ls[i]),
        is_unbroken(started),
        is_unbroken(completed),
        is_unbroken_log(log),
    ensures
        unwired(wired(text_of(ls), started, completed, log)) == text_of(ls),
{
    clean_lines_read_back(ls);
    clean_lines_stay(ls);
    filter_all(ls, foreign());
    wired_lines(text_of(ls), started, completed, log);
}

/// Removing our variables leaves none of them in any file, and loses no line of
/// anyone else's.
pub proof fn removal_is_complete(env: Seq<char>)
    ensures
        lines(unwired(env)) == chomped(foreign_lines(env)),
        lookup(lines(unwired(env)), STARTED_VAR@) is None,
        lookup(lines(unwired(env)), COMPLETED_VAR@) is None,
        lookup(lines(unwired(env)), EVENT_LOG_VAR@) is None,
{
    let kept = foreign_lines(env);
    lines_are_unbroken(env);
    filter_is_unbroken(lines(env), foreign());
    unbroken_lines_read_back(kept);
    filter_passes(lines(env), foreign());
    nothing_of_ours(kept);
    lookup_in_chomped(kept, STARTED_VAR@);
    lookup_in_chomped(kept, COMPLETED_VAR@);
    lookup_in_chomped(kept, EVENT_LOG_VAR@);
}

/// A second removal changes nothing more.
pub proof fn removal_is_idempotent(env: Seq<char>)
    requires
        all_clean(foreign_lines(env)),
    ensures
        unwired(unwired(env)) == unwired(env),
{
    removal_is_complete(env);
    clean_lines_stay(foreign_lines(env));
    filter_passes(lines(env), foreign());
    filter_all(foreign_lines(env), foreign());
}

/// A line that gives a variable a value sets it.
proof fn what_is_said_is_set(l: Seq<char>, key: Seq<char>)
    ensures
        value_in(l, key) is Some ==> sets(l, key),
{
    if value_in(l, key) is Some {
        let t = trim(l);
        assert(t.skip(key.len() as int)[0] == t[key.len() as int]);
        assert(key.push('=') =~= t.subrange(0, key.len() as int + 1));
    }
}

proof fn nothing_of_ours(ls: Seq<Seq<char>>)
    requires
        forall|i: int| 0 <= i < ls.len() ==> foreign()(#[trigger] ls[i]),
    ensures
        lookup(ls, STARTED_VAR@) is None,
        lookup(ls, COMPLETED_VAR@) is None,
        lookup(ls, EVENT_LOG_VAR@) is None,
    decreases ls.len(),
{
    if ls.len() > 0 {
        assert(foreign()(ls[ls.len() - 1]));
        what_is_said_is_set(ls.last(), STARTED_VAR@);
        what_is_said_is_set(ls.last(), COMPLETED_VAR@);
        what_is_said_is_set(ls.last(), EVENT_LOG_VAR@);
        assert forall|i: int| 0 <= i < ls.drop_last().len() implies foreign()(
            #[trigger] ls.drop_last()[i],
        ) by {
            assert(foreign()(ls[i]));
        }
        nothing_of_ours(ls.drop_last());
    }
}

/// A line more: it decides, where it says something.
proof fn lookup_push(ls: Seq<Seq<char>>, l: Seq<char>, key: Seq<char>)
    ensures
        lookup(ls.push(l), key) == if value_in(l, key) is Some {
            value_in(l, key)
        } else {
            lookup(ls, key)
        },
{
    assert(ls.push(l).drop_last() =~= ls);
}

proof fn after_each(ls: Seq<Seq<char>>, l: Seq<char>)
    ensures
        lookup(ls.push(l), STARTED_VAR@) == if value_in(l, STARTED_VAR@) is Some {
            value_in(l, STARTED_VAR@)
        } else {
            lookup(ls, STARTED_VAR@)
        },
        lookup(ls.push(l), COMPLETED_VAR@) == if value_in(l, COMPLETED_VAR@) is Some {
            value_in(l, COMPLETED_VAR@)
        } else {
            lookup(ls, COMPLETED_VAR@)
        },
        lookup(ls.push(l), EVENT_LOG_VAR@) == if value_in(l, EVENT_LOG_VAR@) is Some {
            value_in(l, EVENT_LOG_VAR@)
        } else {
            lookup(ls, EVENT_LOG_VAR@)
        },
{
    lookup_push(ls, l, STARTED_VAR@);
    lookup_push(ls, l, COMPLETED_VAR@);
    lookup_push(ls, l, EVENT_LOG_VAR@);
}

/// What the two hook settings say of each variable.
proof fn hook_settings_speak(started: Seq<char>, completed: Seq<char>)
    requires
        is_plain(started),
        is_plain(completed),
    ensures
        value_in(setting(STARTED_VAR@, started), STARTED_VAR@) == Some(started),
        value_in(setting(STARTED_VAR@, started), COMPLETED_VAR@) is None,
        value_in(setting(STARTED_VAR@, started), EVENT_LOG_VAR@) is None,
        value_in(setting(COMPLETED_VAR@, completed), STARTED_VAR@) is None,
        value_in(setting(COMPLETED_VAR@, completed), COMPLETED_VAR@) == Some(completed),
        value_in(setting(COMPLETED_VAR@, completed), EVENT_LOG_VAR@) is None,
{
    the_variables();
    let s = setting(STARTED_VAR@, started);
    let c = setting(COMPLETED_VAR@, completed);
    setting_reads_back(STARTED_VAR@, started);
    setting_reads_back(COMPLETED_VAR@, completed);
    trim_keeps(s, STARTED_VAR@);
    trim_keeps(c, COMPLETED_VAR@);
    other_setting_is_silent(COMPLETED_VAR@, c, STARTED_VAR@, 24);
    other_setting_is_silent(STARTED_VAR@, s, COMPLETED_VAR@, 24);
    other_setting_is_silent(COMPLETED_VAR@, c, EVENT_LOG_VAR@, 0);
    other_setting_is_silent(STARTED_VAR@, s, EVENT_LOG_VAR@, 0);
}

/// What the event log's setting says of each variable.
proof fn log_setting_speaks(log: Seq<char>)
    requires
        is_plain(log),
    ensures
        value_in(setting(EVENT_LOG_VAR@, log), EVENT_LOG_VAR@) == Some(log),
        value_in(setting(EVENT_LOG_VAR@, log), STARTED_VAR@) is None,
        value_in(setting(EVENT_LOG_VAR@, log), COMPLETED_VAR@) is None,
{
    the_variables();
    let e = setting(EVENT_LOG_VAR@, log);
    setting_reads_back(EVENT_LOG_VAR@, log);
    trim_keeps(e, EVENT_LOG_VAR@);
    other_setting_is_silent(EVENT_LOG_VAR@, e, STARTED_VAR@, 0);
    other_setting_is_silent(EVENT_LOG_VAR@, e, COMPLETED_VAR@, 0);
}

proof fn wiring_speaks(
    kept: Seq<Seq<char>>,
    started: Seq<char>,
    completed: Seq<char>,
    log: Option<Seq<char>>,
)
    requires
        is_plain(started),
        is_plain(completed),
        is_plain_log(log),
        lookup(kept, EVENT_LOG_VAR@) is None,
    ensures
        lookup(kept + wiring(started, completed, log), STARTED_VAR@) == Some(started),
        lookup(kept + wiring(started, completed, log), COMPLETED_VAR@) == Some(completed),
        lookup(kept + wiring(started, completed, log), EVENT_LOG_VAR@) == log,
{
    let s = setting(STARTED_VAR@, started);
    let c = setting(COMPLETED_VAR@, completed);
    let one = kept.push(s);
    let two = one.push(c);
    assert(lookup(two, STARTED_VAR@) == Some(started) && lookup(two, COMPLETED_VAR@) == Some(
        completed,
    ) && lookup(two, EVENT_LOG_VAR@) is None) by {
        hook_settings_speak(started, completed);
        after_each(kept, s);
        after_each(one, c);
    }
    match log {
        Some(l) => {
            let e = setting(EVENT_LOG_VAR@, l);
            let three = two.push(e);
            assert(lookup(three, STARTED_VAR@) == Some(started) && lookup(three, COMPLETED_VAR@)
                == Some(completed) && lookup(three, EVENT_LOG_VAR@) == Some(l)) by {
                log_setting_speaks(l);
                after_each(two, e);
            }
            assert(kept + wiring(started, completed, log) =~= three);
        },
        None => {
            assert(kept + wiring(started, completed, log) =~= two);
        },
    }
}

/// What was wired is read back, whatever the file held.
pub proof fn wiring_is_read_back(
    env: Seq<char>,
    started: Seq<char>,
    completed: Seq<char>,
    log: Option<Seq<char>>,
)
    requires
        is_plain(started),
        is_plain(completed),
        is_plain_log(log),
    ensures
        lookup(lines(wired(env, started, completed, log)), STARTED_VAR@) == Some(started),
        lookup(lines(wired(env, started, completed, log)), COMPLETED_VAR@) == Some(completed),
        lookup(lines(wired(env, started, completed, log)), EVENT_LOG_VAR@) == log,
{
    wired_lines(env, started, completed, log);
    filter_passes(lines(env), foreign());
    nothing_of_ours(foreign_lines(env));
    wiring_speaks(foreign_lines(env), started, completed, log);
    let ls = foreign_lines(env) + wiring(started, completed, log);
    lookup_in_chomped(ls, STARTED_VAR@);
    lookup_in_chomped(ls, COMPLETED_VAR@);
    lookup_in_chomped(ls, EVENT_LOG_VAR@);
}

/// Hooks that were wired to scripts in our directories are recognised as ours.
pub proof fn installed_hooks_are_ours(
    env: Seq<char>,
    started: Seq<char>,
    completed: Seq<char>,
    log: Option<Seq<char>>,
    dirs: Seq<Seq<char>>,
)
    requires
        is_plain(started),
        is_plain(completed),
        is_plain_log(log),
        in_any(started, dirs),
        in_any(completed, dirs),
    ensures
        classified(wired(env, started, completed, log), dirs) == HookStatus::Ours,
{
    wiring_is_read_back(env, started, completed, log);
}

/// Once the event log is set it reads back, so there is nothing left to do; and
/// the two hook variables say what they said before.
pub proof fn event_log_is_settled(env: Seq<char>, log: Seq<char>)
    requires
        is_plain(log),
    ensures
        ({
            let now = text_of(other_lines(env).push(setting(EVENT_LOG_VAR@, log)));
            &&& lookup(lines(now), EVENT_LOG_VAR@) == Some(log)
            &&& lookup(lines(now), STARTED_VAR@) == lookup(lines(env), STARTED_VAR@)
            &&& lookup(lines(now), COMPLETED_VAR@) == lookup(lines(env), COMPLETED_VAR@)
        }),
{
    the_variables();
    no_feed_in_the_variables();
    let kept = other_lines(env);
    let e = setting(EVENT_LOG_VAR@, log);
    lines_are_unbroken(env);
    filter_is_unbroken(lines(env), unlogged());
    setting_is_unbroken(EVENT_LOG_VAR@, log);
    assert(all_unbroken(kept.push(e))) by {
        assert forall|i: int| 0 <= i < kept.push(e).len() implies is_unbroken(
            #[trigger] kept.push(e)[i],
        ) by {
            if i < kept.len() {
                assert(is_unbroken(kept[i]));
            }
        }
    }
    unbroken_lines_read_back(kept.push(e));
    lookup_in_chomped(kept.push(e), STARTED_VAR@);
    lookup_in_chomped(kept.push(e), COMPLETED_VAR@);
    lookup_in_chomped(kept.push(e), EVENT_LOG_VAR@);
    log_setting_speaks(log);
    after_each(kept, e);
    assert forall|l: Seq<char>| !#[trigger] unlogged()(l) implies value_in(l, STARTED_VAR@) is None
        && value_in(l, COMPLETED_VAR@) is None by {
        assert(EVENT_LOG_VAR@.is_prefix_of(EVENT_LOG_VAR@.push('=')));
        assert(EVENT_LOG_VAR@.is_prefix_of(trim(l)));
        other_setting_is_silent(EVENT_LOG_VAR@, l, STARTED_VAR@, 0);
        other_setting_is_silent(EVENT_LOG_VAR@, l, COMPLETED_VAR@, 0);
    }
    lookup_ignores(lines(env), STARTED_VAR@, unlogged());
    lookup_ignores(lines(env), COMPLETED_VAR@, unlogged());
}

/// A path that a wrapper's marker names unambiguously.
pub open spec fn is_markable(p: Seq<char>) -> bool {
    p.len() > 0 && !p.contains('\n') && !is_space(p[0]) && !is_space(p.last())
}

proof fn heading_is_unbroken()
    ensures
        is_unbroken("#!/usr/bin/env bash"@),
        is_unbroken("# ghr-stats hook chain wrapper — runs the existing hook, then records"@),
        is_unbroken("# the ghr-stats event (best-effort). Preserves the original's exit code."@),
{
    reveal_strlit("#!/usr/bin/env bash");
    reveal_strlit("# ghr-stats hook chain wrapper — runs the existing hook, then records");
    reveal_strlit("# the ghr-stats event (best-effort). Preserves the original's exit code.");
}

proof fn heading_is_unmarked()
    ensures
        marked("#!/usr/bin/env bash"@) is None,
        marked("# ghr-stats hook chain wrapper — runs the existing hook, then records"@) is None,
        marked("# the ghr-stats event (best-effort). Preserves the original's exit code."@) is None,
{
    reveal_strlit("# ghr-stats-wraps:");
    reveal_strlit("#!/usr/bin/env bash");
    reveal_strlit("# ghr-stats hook chain wrapper — runs the existing hook, then records");
    reveal_strlit("# the ghr-stats event (best-effort). Preserves the original's exit code.");
    let m = WRAP_MARKER@;
    let a = "#!/usr/bin/env bash"@;
    let b = "# ghr-stats hook chain wrapper — runs the existing hook, then records"@;
    let c = "# the ghr-stats event (best-effort). Preserves the original's exit code."@;
    solid_is_trimmed(a);
    solid_is_trimmed(b);
    solid_is_trimmed(c);
    assert(a[1] != m[1]);
    assert(b[11] != m[11]);
    assert(c[2] != m[2]);
}

proof fn marker_names(p: Seq<char>)
    requires
        is_markable(p),
    ensures
        marked(WRAP_MARKER@ + " "@ + p) == Some(p),
        is_unbroken(WRAP_MARKER@ + " "@ + p),
{
    reveal_strlit("# ghr-stats-wraps:");
    reveal_strlit(" ");
    let m = WRAP_MARKER@;
    let l = m + " "@ + p;
    assert(l.last() == p.last());
    solid_is_trimmed(l);
    assert(m.is_prefix_of(l));
    let rest = l.skip(m.len() as int);
    assert(rest =~= " "@ + p);
    assert(rest.drop_first() =~= p);
    solid_is_trimmed(p);
    assert(trim_start(rest) == trim_start(p));
    assert(!m.contains('\n'));
    if l.contains('\n') {
        let i = choose|i: int| 0 <= i < l.len() && l[i] == '\n';
        if i < m.len() {
            assert(m[i] == '\n');
        } else if i > m.len() {
            assert(p[i - m.len() - 1] == '\n');
        }
    }
}

proof fn marked_in_chomped(l: Seq<char>)
    ensures
        marked(chomp(l)) == marked(l),
{
    chomp_says_the_same(l);
}

/// The text of lines, cut in two.
proof fn text_of_parts(a: Seq<Seq<char>>, b: Seq<Seq<char>>)
    ensures
        text_of(a + b) == text_of(a) + text_of(b),
    decreases a.len(),
{
    if a.len() == 0 {
        assert(a + b =~= b);
        assert(text_of(a) + text_of(b) =~= text_of(b));
    } else {
        text_of_parts(a.drop_first(), b);
        assert((a + b).drop_first() =~= a.drop_first() + b);
        assert(text_of(a + b) =~= text_of(a) + text_of(b));
    }
}

/// The hook that a wrapper was made for is found again in it, so a chained
/// installation can always be reversed.
pub proof fn wrapper_names_its_original(original: Seq<char>, ours: Seq<char>)
    requires
        is_markable(original),
    ensures
        wrapped(wrapper(original, ours)) == Some(original),
{
    let ls = wrapper_lines(original, ours);
    let head = ls.take(4);
    let tail = ls.skip(4);
    heading_is_unbroken();
    marker_names(original);
    assert(all_unbroken(head));
    assert(head + tail =~= ls);
    text_of_parts(head, tail);
    lines_read_on(head, text_of(tail));
    let read = lines(wrapper(original, ours));
    assert(read.len() >= 4);
    assert forall|i: int| 0 <= i < 4 implies marked(#[trigger] read[i]) == marked(ls[i]) by {
        assert(read[i] == chomp(head[i]));
        marked_in_chomped(ls[i]);
    }
    heading_is_unmarked();
    reveal_with_fuel(first_marked, 5);
    assert(read.drop_first()[0] == read[1]);
    assert(read.drop_first().drop_first()[0] == read[2]);
    assert(read.drop_first().drop_first().drop_first()[0] == read[3]);
}

/// Chaining onto someone's hooks and reversing it gives back their file and their
/// hooks: the wrappers name the hooks they run, and wiring those again restores
/// the file, for a file whose hook lines stand last and in the usual order.
pub proof fn chained_install_reverses(
    ls: Seq<Seq<char>>,
    started: Seq<char>,
    completed: Seq<char>,
    wrap_started: Seq<char>,
    wrap_completed: Seq<char>,
    log: Option<Seq<char>>,
)
    requires
        all_clean(ls),
        forall|i: int| 0 <= i < ls.len() ==> !is_hook_line(#[trigger] ls[i]),
        is_plain(started),
        is_plain(completed),
        is_unbroken(wrap_started),
        is_unbroken(wrap_completed),
        is_unbroken_log(log),
    ensures
        ({
            let env = text_of(ls + wiring(started, completed, None));
            &&& lookup(lines(env), STARTED_VAR@) == Some(started)
            &&& lookup(lines(env), COMPLETED_VAR@) == Some(completed)
            &&& wired(
                wired(env, wrap_started, wrap_completed, log),
                started,
                completed,
                None,
            ) == env
        }),
{
    let env = text_of(ls + wiring(started, completed, None));
    clean_lines_read_back(ls);
    clean_lines_stay(ls);
    filter_all(ls, foreign());
    assert(env == wired(text_of(ls), started, completed, None));
    wiring_is_read_back(text_of(ls), started, completed, None);
    wired_lines(text_of(ls), started, completed, None);
    rewiring_replaces(env, wrap_started, wrap_completed, log, started, completed, None);
    rewiring_replaces(text_of(ls), started, completed, None, started, completed, None);
}

} // verus!
