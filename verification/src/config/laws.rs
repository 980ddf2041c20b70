//! What the configuration decides, value by value.

use vstd::prelude::*;

use crate::config::document::Toml;
use crate::config::{peek_in, token_for, token_of, Config, GithubConfig, Intervals, Peek};
use crate::path::joined;
use crate::paths::{Places, Scope};
use crate::store::rows::{first_where_is_least, first_where_unique};

verus! {

/// No token of its own is kept for the org.
pub open spec fn has_no_token(g: GithubConfig, org: Seq<char>) -> bool {
    forall|i: int| 0 <= i < g.tokens@.len() ==> (#[trigger] g.tokens@[i]).0@ != org
}

/// The variable holds something.
pub open spec fn is_given(variable: Option<&str>) -> bool {
    variable matches Some(v) && v@ != Seq::<char>::empty()
}

/// Which token an org is asked about with: its own, the first that is kept for it;
/// else that of the variable, where it holds something; else the one for all; else
/// none.
pub proof fn a_token_is_chosen_in_turn(g: GithubConfig, variable: Option<&str>, org: Seq<char>)
    ensures
        forall|k: int|
            0 <= k < g.tokens@.len() && (#[trigger] g.tokens@[k]).0@ == org && (forall|i: int|
                0 <= i < k ==> (#[trigger] g.tokens@[i]).0@ != org) ==> token_for(g, variable, org)
                == Some(g.tokens@[k].1.text()),
        has_no_token(g, org) && is_given(variable) ==> token_for(g, variable, org) == Some(
            variable->0@,
        ),
        has_no_token(g, org) && !is_given(variable) && g.token is Some ==> token_for(
            g,
            variable,
            org,
        ) == Some(g.token->0.text()),
        has_no_token(g, org) && !is_given(variable) && g.token is None ==> token_for(
            g,
            variable,
            org,
        ) is None,
{
    let p = token_of(g.tokens@, org);
    let n = g.tokens@.len() as int;
    first_where_is_least(p, n);
    assert forall|k: int|
        0 <= k < g.tokens@.len() && (#[trigger] g.tokens@[k]).0@ == org && (forall|i: int|
            0 <= i < k ==> (#[trigger] g.tokens@[i]).0@ != org) implies token_for(g, variable, org)
        == Some(g.tokens@[k].1.text()) by {
        assert(p(k));
        assert forall|i: int| 0 <= i < k implies !#[trigger] p(i) by {
            assert(g.tokens@[i].0@ != org);
        }
        first_where_unique(p, n, k);
    }
    let f = crate::store::rows::first_where(p, n);
    if f < n {
        assert(p(f));
        assert(g.tokens@[f].0@ == org);
    }
    if variable is Some && variable->0@.len() == 0 {
        assert(variable->0@ =~= Seq::<char>::empty());
    }
}

/// A reading is fresh for three cycles, as far as that can be counted.
pub proof fn readings_stay_fresh_for_three_cycles(c: Intervals)
    ensures
        c.max_age() >= c.api_secs,
        c.api_secs as int <= u64::MAX as int / 3 ==> c.max_age() == c.api_secs + c.api_secs
            + c.api_secs,
        c.api_secs as int > u64::MAX as int / 3 ==> c.max_age() == u64::MAX,
{
}

/// What holds where nothing is configured: sampling every five seconds and asking
/// every minute, with no token; nothing served and nothing pushed.
pub proof fn the_defaults_are_quiet(c: Config, env: Places)
    requires
        c.is_default(env),
    ensures
        c.db_path@ == joined(
            if env.uid == 0 {
                "/var/lib/ghr-stats"@
            } else {
                Scope::User.data_at(env)
            },
            "ghr-stats.db"@,
        ),
        c.intervals.local_secs == 5 && c.intervals.api_secs == 60,
        c.intervals.max_age() == 180,
        c.runner_roots@.len() == 0 && c.orgs@.len() == 0,
        forall|org: Seq<char>| #[trigger] token_for(c.github, None, org) is None,
        !c.metrics.pull.enabled && !c.metrics.push.enabled,
        c.metrics.pull.addr@ == "127.0.0.1:9477"@,
        c.metrics.push.endpoint@ == Seq::<char>::empty() && c.metrics.push.auth is None,
        c.metrics.push.interval_secs == 30,
{
    assert(c.metrics.push.endpoint@ =~= Seq::<char>::empty());
    assert forall|org: Seq<char>| #[trigger] token_for(c.github, None, org) is None by {
        a_token_is_chosen_in_turn(c.github, None, org);
    }
}

/// What a look at a document sees: of its tokens the names alone, and whether there
/// is one for all. A document without a section on GitHub has neither; where the
/// section or its tokens are a plain value, nothing is seen.
pub proof fn a_look_sees_the_names(m: Map<Seq<char>, Toml>)
    ensures
        !m.dom().contains("github"@) ==> peek_in(m) == Some(
            Peek { orgs: Set::empty(), fallback: false },
        ),
        m.dom().contains("github"@) ==> (m["github"@] matches Toml::Table(g) ==> {
            &&& !g.dom().contains("tokens"@) ==> (peek_in(m) matches Some(p) && p.orgs
                =~= Set::<Seq<char>>::empty() && (p.fallback <==> g.dom().contains("token"@)))
            &&& g.dom().contains("tokens"@) ==> (g["tokens"@] matches Toml::Table(t) ==> (peek_in(m) matches Some(
                p,
            ) && (forall|org: Seq<char>| #[trigger] p.orgs.contains(org) <==> t.dom().contains(org))
                && (p.fallback <==> g.dom().contains("token"@))))
            &&& g.dom().contains("tokens"@) && (g["tokens"@] is Text || g["tokens"@] is Int
                || g["tokens"@] is Bool || g["tokens"@] is Real || g["tokens"@] is List) ==> peek_in(
                m,
            ) is None
        }),
        m.dom().contains("github"@) && (m["github"@] is Text || m["github"@] is Int
            || m["github"@] is Bool || m["github"@] is Real) ==> peek_in(m) is None,
{
}

/// A section on GitHub that is a list is read by position: the tokens first, the one
/// for all second.
pub proof fn a_listed_section_is_read_by_position(m: Map<Seq<char>, Toml>)
    requires
        m.dom().contains("github"@),
        m["github"@] is List,
    ensures
        ({
            let l = m["github"@]->List_0;
            &&& l.len() == 0 ==> (peek_in(m) matches Some(p) && p.orgs =~= Set::<Seq<char>>::empty()
                && !p.fallback)
            &&& l.len() > 0 ==> (l[0] matches Toml::Table(t) ==> (peek_in(m) matches Some(p)
                && p.orgs == t.dom() && (p.fallback <==> l.len() >= 2)))
        }),
{
}

} // verus!
