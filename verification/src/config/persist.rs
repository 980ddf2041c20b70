//! Edits of the configuration file. Each reads the document, changes one setting
//! and writes it back; every other setting stays.

use vstd::prelude::*;
use vstd::string::*;

use crate::config::document::{
    no_keys, table_is_empty, table_model, table_new, table_put, table_take, toml_bool, toml_list,
    toml_model, toml_models, toml_parse, toml_parsed, toml_print, toml_printed, toml_table,
    toml_text, value_into_list, value_into_table, value_text, Toml,
};
use crate::error::{config_error, Error, Failure};
use crate::text::{given, names, owned, same};

verus! {

// ---------------------------------------------------------------------------
// The document and its edits
// ---------------------------------------------------------------------------

/// The document in a file: empty where there is no file.
pub open spec fn document(text: Option<Seq<char>>) -> Result<Map<Seq<char>, Toml>, Seq<char>> {
    match text {
        Some(t) => toml_parsed(t),
        None => Ok(no_keys()),
    }
}

/// The table at `key`: empty where there is none, refused where something else
/// stands there.
pub open spec fn table_at(m: Map<Seq<char>, Toml>, key: Seq<char>) -> Option<Map<Seq<char>, Toml>> {
    if m.dom().contains(key) {
        match m[key] {
            Toml::Table(t) => Some(t),
            _ => None,
        }
    } else {
        Some(no_keys())
    }
}

/// A document with `org`'s token in `[github.tokens]`; the key that is not a table
/// where one is in the way.
pub open spec fn with_token(m: Map<Seq<char>, Toml>, org: Seq<char>, token: Seq<char>) -> Result<
    Map<Seq<char>, Toml>,
    Seq<char>,
> {
    match table_at(m, "github"@) {
        None => Err("github"@),
        Some(github) => match table_at(github, "tokens"@) {
            None => Err("tokens"@),
            Some(tokens) => Ok(
                m.insert(
                    "github"@,
                    Toml::Table(
                        github.insert("tokens"@, Toml::Table(tokens.insert(org, Toml::Text(token)))),
                    ),
                ),
            ),
        },
    }
}

/// A document with the pull endpoint set in `[metrics.pull]`.
pub open spec fn with_pull(m: Map<Seq<char>, Toml>, enabled: bool, addr: Seq<char>) -> Result<
    Map<Seq<char>, Toml>,
    Seq<char>,
> {
    match table_at(m, "metrics"@) {
        None => Err("metrics"@),
        Some(metrics) => match table_at(metrics, "pull"@) {
            None => Err("pull"@),
            Some(pull) => Ok(
                m.insert(
                    "metrics"@,
                    Toml::Table(
                        metrics.insert(
                            "pull"@,
                            Toml::Table(
                                pull.insert("enabled"@, Toml::Bool(enabled)).insert(
                                    "addr"@,
                                    Toml::Text(addr),
                                ),
                            ),
                        ),
                    ),
                ),
            ),
        },
    }
}

/// A document with the runner roots set.
pub open spec fn with_roots(m: Map<Seq<char>, Toml>, roots: Seq<Seq<char>>) -> Map<Seq<char>, Toml> {
    m.insert("runner_roots"@, Toml::List(roots.map_values(|r: Seq<char>| Toml::Text(r))))
}

/// A `[github]` table without `org`'s token; without `tokens` where none is left.
pub open spec fn github_without(g: Map<Seq<char>, Toml>, org: Seq<char>) -> Map<Seq<char>, Toml> {
    if g.dom().contains("tokens"@) && g["tokens"@] is Table {
        let left = g["tokens"@]->Table_0.remove(org);
        if left == no_keys() {
            g.remove("tokens"@)
        } else {
            g.insert("tokens"@, Toml::Table(left))
        }
    } else {
        g
    }
}

/// A document without `org`'s token, and without a `[github]` table that has
/// nothing left.
pub open spec fn without_token(m: Map<Seq<char>, Toml>, org: Seq<char>) -> Map<Seq<char>, Toml> {
    if m.dom().contains("github"@) && m["github"@] is Table {
        let left = github_without(m["github"@]->Table_0, org);
        if left == no_keys() {
            m.remove("github"@)
        } else {
            m.insert("github"@, Toml::Table(left))
        }
    } else {
        m
    }
}

/// The entries of a list other than the text `org`.
pub open spec fn entries_without(l: Seq<Toml>, org: Seq<char>) -> Seq<Toml> {
    l.filter(|v: Toml| v != Toml::Text(org))
}

/// A document whose list of orgs does not name `org`.
pub open spec fn without_org(m: Map<Seq<char>, Toml>, org: Seq<char>) -> Map<Seq<char>, Toml> {
    if m.dom().contains("orgs"@) && m["orgs"@] is List {
        m.insert("orgs"@, Toml::List(entries_without(m["orgs"@]->List_0, org)))
    } else {
        m
    }
}

/// What an edit gives: the text of the edited document, or why there is none.
pub open spec fn edited(
    path: Seq<char>,
    doc: Result<Map<Seq<char>, Toml>, Seq<char>>,
    change: spec_fn(Map<Seq<char>, Toml>) -> Result<Map<Seq<char>, Toml>, Seq<char>>,
) -> Result<Seq<char>, Failure> {
    match doc {
        Err(e) => Err(config_error("parsing "@ + path + ": "@ + e)),
        Ok(m) => match change(m) {
            Err(key) => Err(config_error("`"@ + key + "` is not a table"@)),
            Ok(after) => match toml_printed(after) {
                Ok(text) => Ok(text),
                Err(e) => Err(config_error("serializing config: "@ + e)),
            },
        },
    }
}

/// A result by the text or the failure it holds.
pub open spec fn outcome(r: Result<String, Error>) -> Result<Seq<char>, Failure> {
    match r {
        Ok(text) => Ok(text@),
        Err(e) => Err(e@),
    }
}

// ---------------------------------------------------------------------------
// What the edits keep
// ---------------------------------------------------------------------------

/// The token that a document holds for an org.
pub open spec fn token_in(m: Map<Seq<char>, Toml>, org: Seq<char>) -> Option<Toml> {
    if m.dom().contains("github"@) && m["github"@] is Table && m["github"@]->Table_0.dom().contains(
        "tokens"@,
    ) && m["github"@]->Table_0["tokens"@] is Table
        && m["github"@]->Table_0["tokens"@]->Table_0.dom().contains(org) {
        Some(m["github"@]->Table_0["tokens"@]->Table_0[org])
    } else {
        None
    }
}

/// A document's list of orgs names `org`.
pub open spec fn names_org(m: Map<Seq<char>, Toml>, org: Seq<char>) -> bool {
    m.dom().contains("orgs"@) && m["orgs"@] is List && m["orgs"@]->List_0.contains(Toml::Text(org))
}

/// What a document's table at `table` holds at `key`.
pub open spec fn entry_in(m: Map<Seq<char>, Toml>, table: Seq<char>, key: Seq<char>) -> Option<
    Toml,
> {
    if m.dom().contains(table) && m[table] is Table && m[table]->Table_0.dom().contains(key) {
        Some(m[table]->Table_0[key])
    } else {
        None
    }
}

/// Setting an org's token sets it and keeps everything else: the other tokens, the
/// rest of `[github]`, and every other setting.
pub proof fn setting_a_token_keeps_the_rest(
    m: Map<Seq<char>, Toml>,
    org: Seq<char>,
    token: Seq<char>,
    other: Seq<char>,
)
    requires
        with_token(m, org, token) is Ok,
    ensures
        ({
            let after = with_token(m, org, token)->Ok_0;
            &&& token_in(after, org) == Some(Toml::Text(token))
            &&& other != org ==> token_in(after, other) == token_in(m, other)
            &&& other != "tokens"@ ==> entry_in(after, "github"@, other) == entry_in(
                m,
                "github"@,
                other,
            )
            &&& other != "github"@ ==> after.dom().contains(other) == m.dom().contains(other)
            &&& other != "github"@ && m.dom().contains(other) ==> after[other] == m[other]
        }),
{
}

/// Removing an org's token removes it, forgets the org, and keeps everything else.
pub proof fn removing_a_token_keeps_the_rest(
    m: Map<Seq<char>, Toml>,
    org: Seq<char>,
    other: Seq<char>,
)
    ensures
        ({
            let after = without_org(without_token(m, org), org);
            &&& token_in(after, org) is None
            &&& !names_org(after, org)
            &&& other != org ==> token_in(after, other) == token_in(m, other)
            &&& other != org ==> names_org(after, other) == names_org(m, other)
            &&& other != "tokens"@ ==> entry_in(after, "github"@, other) == entry_in(
                m,
                "github"@,
                other,
            )
            &&& other != "github"@ && other != "orgs"@ ==> after.dom().contains(other)
                == m.dom().contains(other)
            &&& other != "github"@ && other != "orgs"@ && m.dom().contains(other) ==> after[other]
                == m[other]
        }),
{
    reveal_strlit("github");
    reveal_strlit("orgs");
    assert("github"@.len() != "orgs"@.len());
    if m.dom().contains("orgs"@) && m["orgs"@] is List {
        what_is_left_in(m["orgs"@]->List_0, org, Toml::Text(org));
        what_is_left_in(m["orgs"@]->List_0, org, Toml::Text(other));
    }
    if m.dom().contains("github"@) && m["github"@] is Table {
        let g = m["github"@]->Table_0;
        let left = github_without(g, org);
        if left == no_keys() && other != "tokens"@ && g.dom().contains(other) {
            assert(left.dom().contains(other));
            assert(!no_keys().dom().contains(other));
        }
        if g.dom().contains("tokens"@) && g["tokens"@] is Table {
            let t = g["tokens"@]->Table_0;
            if t.remove(org) == no_keys() && other != org && t.dom().contains(other) {
                assert(t.remove(org).dom().contains(other));
                assert(!no_keys().dom().contains(other));
            }
            if left == no_keys() {
                assert(!no_keys().dom().contains("tokens"@));
            }
        } else if left == no_keys() {
            assert(!no_keys().dom().contains("tokens"@));
        }
    }
}

proof fn what_is_left_in(l: Seq<Toml>, org: Seq<char>, v: Toml)
    ensures
        entries_without(l, org).contains(v) <==> l.contains(v) && v != Toml::Text(org),
    decreases l.len(),
{
    reveal(Seq::filter);
    if l.len() > 0 {
        let init = l.drop_last();
        what_is_left_in(init, org, v);
        let f = entries_without(init, org);
        assert(l =~= init.push(l.last()));
        assert(l.contains(v) <==> init.contains(v) || v == l.last()) by {
            push_contains(init, l.last(), v);
        }
        push_contains(f, l.last(), v);
    } else {
        assert(entries_without(l, org) =~= l);
    }
}

proof fn push_contains(s: Seq<Toml>, x: Toml, v: Toml)
    ensures
        s.push(x).contains(v) <==> s.contains(v) || v == x,
{
    let t = s.push(x);
    if s.contains(v) {
        let k = choose|k: int| 0 <= k < s.len() && s[k] == v;
        assert(t[k] == v);
    }
    if v == x {
        assert(t[s.len() as int] == v);
    }
}

/// Removing an org's token again changes nothing.
pub proof fn removing_a_token_is_idempotent(m: Map<Seq<char>, Toml>, org: Seq<char>)
    ensures
        ({
            let once = without_org(without_token(m, org), org);
            without_org(without_token(once, org), org) == once
        }),
{
    reveal_strlit("github");
    reveal_strlit("orgs");
    assert("github"@.len() != "orgs"@.len());
    let a = without_token(m, org);
    let once = without_org(a, org);
    if once.dom().contains("orgs"@) && once["orgs"@] is List {
        let l = once["orgs"@]->List_0;
        assert(entries_without(l, org) == l) by {
            if a.dom().contains("orgs"@) && a["orgs"@] is List {
                let l0 = a["orgs"@]->List_0;
                filter_twice(l0, org);
            }
        }
        assert(once.insert("orgs"@, Toml::List(l)) =~= once);
    }
    assert(without_token(once, org) =~= once) by {
        if once.dom().contains("github"@) && once["github"@] is Table {
            let g = once["github"@]->Table_0;
            assert(m.dom().contains("github"@) && m["github"@] is Table);
            let g0 = m["github"@]->Table_0;
            assert(g == github_without(g0, org));
            if g.dom().contains("tokens"@) && g["tokens"@] is Table {
                let t = g["tokens"@]->Table_0;
                assert(t.remove(org) =~= t);
                assert(g.insert("tokens"@, Toml::Table(t)) =~= g);
            }
            assert(github_without(g, org) == g);
            assert(once.insert("github"@, Toml::Table(g)) =~= once);
        }
    }
}

proof fn filter_twice(l: Seq<Toml>, org: Seq<char>)
    ensures
        entries_without(entries_without(l, org), org) == entries_without(l, org),
    decreases l.len(),
{
    reveal(Seq::filter);
    let p = |v: Toml| v != Toml::Text(org);
    if l.len() > 0 {
        let init = l.drop_last();
        filter_twice(init, org);
        let f = entries_without(init, org);
        if p(l.last()) {
            assert(f.push(l.last()).drop_last() =~= f);
        }
    } else {
        assert(entries_without(l, org) =~= seq![]);
    }
}

proof fn nothing_to_leave_out(l: Seq<Toml>, org: Seq<char>)
    requires
        !l.contains(Toml::Text(org)),
    ensures
        entries_without(l, org) == l,
    decreases l.len(),
{
    reveal(Seq::filter);
    if l.len() > 0 {
        let init = l.drop_last();
        if init.contains(Toml::Text(org)) {
            let k = choose|k: int| 0 <= k < init.len() && init[k] == Toml::Text(org);
            assert(l[k] == Toml::Text(org));
        }
        nothing_to_leave_out(init, org);
        assert(l[l.len() - 1] != Toml::Text(org));
    }
    assert(entries_without(l, org) =~= l);
}

/// An empty table stands at `key`.
pub open spec fn is_empty_at(m: Map<Seq<char>, Toml>, key: Seq<char>) -> bool {
    m.dom().contains(key) && m[key] == Toml::Table(no_keys())
}

/// A document holds an empty `[github]` or an empty `[github.tokens]`.
pub open spec fn has_empty_github(m: Map<Seq<char>, Toml>) -> bool {
    is_empty_at(m, "github"@) || (m.dom().contains("github"@) && m["github"@] is Table
        && is_empty_at(m["github"@]->Table_0, "tokens"@))
}

/// Removing the token that was just set gives back the document as it was, where
/// it held no token for the org and did not name it; an empty `[github]` or
/// `[github.tokens]` is not kept.
pub proof fn removing_undoes_setting(m: Map<Seq<char>, Toml>, org: Seq<char>, token: Seq<char>)
    requires
        with_token(m, org, token) is Ok,
        token_in(m, org) is None,
        !names_org(m, org),
        !has_empty_github(m),
    ensures
        without_org(without_token(with_token(m, org, token)->Ok_0, org), org) == m,
{
    reveal_strlit("github");
    reveal_strlit("orgs");
    assert("github"@.len() != "orgs"@.len());
    let g = table_at(m, "github"@)->0;
    let t = table_at(g, "tokens"@)->0;
    let set = with_token(m, org, token)->Ok_0;
    let g1 = g.insert("tokens"@, Toml::Table(t.insert(org, Toml::Text(token))));
    assert(set["github"@] == Toml::Table(g1));
    assert(t.insert(org, Toml::Text(token)).remove(org) =~= t);
    assert(github_without(g1, org) =~= g) by {
        if t == no_keys() {
            assert(g1.remove("tokens"@) =~= g);
        } else {
            assert(g1.insert("tokens"@, Toml::Table(t)) =~= g);
        }
    }
    assert(without_token(set, org) =~= m);
    if m.dom().contains("orgs"@) && m["orgs"@] is List {
        nothing_to_leave_out(m["orgs"@]->List_0, org);
        assert(m.insert("orgs"@, m["orgs"@]) =~= m);
    }
}

/// Whatever the document held, removing the token that was just set leaves no
/// token for the org, and agrees with the document in every other setting and
/// token.
pub proof fn removing_after_setting_keeps_the_rest(
    m: Map<Seq<char>, Toml>,
    org: Seq<char>,
    token: Seq<char>,
    other: Seq<char>,
)
    requires
        with_token(m, org, token) is Ok,
    ensures
        ({
            let back = without_org(without_token(with_token(m, org, token)->Ok_0, org), org);
            &&& token_in(back, org) is None
            &&& other != org ==> token_in(back, other) == token_in(m, other)
            &&& other != "github"@ && other != "orgs"@ ==> back.dom().contains(other)
                == m.dom().contains(other)
            &&& other != "github"@ && other != "orgs"@ && m.dom().contains(other) ==> back[other]
                == m[other]
        }),
{
    setting_a_token_keeps_the_rest(m, org, token, other);
    removing_a_token_keeps_the_rest(with_token(m, org, token)->Ok_0, org, other);
}

/// Removing an org that the document does not know changes nothing, but that an
/// empty `[github]` or `[github.tokens]` is not kept.
pub proof fn removing_an_absent_org_changes_nothing(m: Map<Seq<char>, Toml>, org: Seq<char>)
    requires
        token_in(m, org) is None,
        !names_org(m, org),
        !has_empty_github(m),
    ensures
        without_org(without_token(m, org), org) == m,
{
    if m.dom().contains("github"@) && m["github"@] is Table {
        let g = m["github"@]->Table_0;
        if g.dom().contains("tokens"@) && g["tokens"@] is Table {
            let t = g["tokens"@]->Table_0;
            assert(t.remove(org) =~= t);
            assert(g.insert("tokens"@, Toml::Table(t)) =~= g);
        }
        assert(github_without(g, org) == g);
        assert(m.insert("github"@, Toml::Table(g)) =~= m);
    }
    assert(without_token(m, org) == m);
    if m.dom().contains("orgs"@) && m["orgs"@] is List {
        nothing_to_leave_out(m["orgs"@]->List_0, org);
        assert(m.insert("orgs"@, m["orgs"@]) =~= m);
    }
}

/// The settings of the pull endpoint that a document holds at `key`.
pub open spec fn pull_in(m: Map<Seq<char>, Toml>, key: Seq<char>) -> Option<Toml> {
    if m.dom().contains("metrics"@) && m["metrics"@] is Table
        && m["metrics"@]->Table_0.dom().contains("pull"@) && m["metrics"@]->Table_0["pull"@] is Table
        && m["metrics"@]->Table_0["pull"@]->Table_0.dom().contains(key) {
        Some(m["metrics"@]->Table_0["pull"@]->Table_0[key])
    } else {
        None
    }
}

/// Setting the pull endpoint sets it and keeps everything else: what else stands
/// in `[metrics.pull]` and in `[metrics]`, and every other setting.
pub proof fn setting_pull_keeps_the_rest(
    m: Map<Seq<char>, Toml>,
    enabled: bool,
    addr: Seq<char>,
    other: Seq<char>,
)
    requires
        with_pull(m, enabled, addr) is Ok,
    ensures
        ({
            let after = with_pull(m, enabled, addr)->Ok_0;
            &&& pull_in(after, "enabled"@) == Some(Toml::Bool(enabled))
            &&& pull_in(after, "addr"@) == Some(Toml::Text(addr))
            &&& other != "enabled"@ && other != "addr"@ ==> pull_in(after, other) == pull_in(
                m,
                other,
            )
            &&& other != "pull"@ ==> entry_in(after, "metrics"@, other) == entry_in(
                m,
                "metrics"@,
                other,
            )
            &&& other != "metrics"@ ==> after.dom().contains(other) == m.dom().contains(other)
            &&& other != "metrics"@ && m.dom().contains(other) ==> after[other] == m[other]
        }),
{
    reveal_strlit("enabled");
    reveal_strlit("addr");
    assert("enabled"@.len() != "addr"@.len());
}

/// Setting the runner roots keeps every other setting.
pub proof fn setting_roots_keeps_the_rest(
    m: Map<Seq<char>, Toml>,
    roots: Seq<Seq<char>>,
    other: Seq<char>,
)
    requires
        other != "runner_roots"@,
    ensures
        with_roots(m, roots).dom().contains(other) == m.dom().contains(other),
        m.dom().contains(other) ==> with_roots(m, roots)[other] == m[other],
{
}

// ---------------------------------------------------------------------------
// Editing
// ---------------------------------------------------------------------------

/// Read the document of a file.
fn load_table(path: &str, text: Option<&str>) -> (r: Result<
    toml::map::Map<String, toml::Value>,
    Error,
>)
    ensures
        r is Ok == (document(given(text)) is Ok),
        r matches Ok(t) ==> document(given(text))->Ok_0 == table_model(t),
        r matches Err(e) ==> e@ == config_error(
            "parsing "@ + path@ + ": "@ + document(given(text))->Err_0,
        ),
{
    match text {
        None => Ok(table_new()),
        Some(t) => match toml_parse(t) {
            Ok(doc) => Ok(doc),
            Err(e) => {
                let mut m = owned("parsing ");
                m.append(path);
                m.append(": ");
                m.append(e.as_str());
                Err(Error::Config(m))
            },
        },
    }
}

/// The text of an edited document.
fn render(doc: &toml::map::Map<String, toml::Value>) -> (r: Result<String, Error>)
    ensures
        r is Ok == (toml_printed(table_model(*doc)) is Ok),
        r matches Ok(s) ==> toml_printed(table_model(*doc))->Ok_0 == s@,
        r matches Err(e) ==> e@ == config_error(
            "serializing config: "@ + toml_printed(table_model(*doc))->Err_0,
        ),
{
    match toml_print(doc) {
        Ok(s) => Ok(s),
        Err(e) => {
            let mut m = owned("serializing config: ");
            m.append(e.as_str());
            Err(Error::Config(m))
        },
    }
}

fn not_a_table(key: &str) -> (e: Error)
    ensures
        e@ == config_error("`"@ + key@ + "` is not a table"@),
{
    let mut m = owned("`");
    m.append(key);
    m.append("` is not a table");
    Error::Config(m)
}

/// Take the table at `key` out of a document: a new one where there is none.
fn take_table(doc: &mut toml::map::Map<String, toml::Value>, key: &str) -> (r: Result<
    toml::map::Map<String, toml::Value>,
    Error,
>)
    ensures
        r is Ok == (table_at(table_model(*old(doc)), key@) is Some),
        r matches Ok(t) ==> table_at(table_model(*old(doc)), key@) == Some(table_model(t)),
        r matches Err(e) ==> e@ == config_error("`"@ + key@ + "` is not a table"@),
        table_model(*final(doc)) == table_model(*old(doc)).remove(key@),
{
    match table_take(doc, key) {
        None => Ok(table_new()),
        Some(v) => match value_into_table(v) {
            Ok(t) => Ok(t),
            Err(_) => Err(not_a_table(key)),
        },
    }
}

/// A change by the document or the failure it holds.
pub open spec fn change_outcome(r: Result<toml::map::Map<String, toml::Value>, Error>) -> Result<
    Map<Seq<char>, Toml>,
    Failure,
> {
    match r {
        Ok(t) => Ok(table_model(t)),
        Err(e) => Err(e@),
    }
}

/// What a change gives: the changed document, or that a key is not a table.
pub open spec fn changed(r: Result<Map<Seq<char>, Toml>, Seq<char>>) -> Result<
    Map<Seq<char>, Toml>,
    Failure,
> {
    match r {
        Ok(m) => Ok(m),
        Err(key) => Err(config_error("`"@ + key + "` is not a table"@)),
    }
}

/// A document with the token of an org added or replaced.
pub fn put_token(doc: toml::map::Map<String, toml::Value>, org: &str, token: &str) -> (r: Result<
    toml::map::Map<String, toml::Value>,
    Error,
>)
    ensures
        change_outcome(r) == changed(with_token(table_model(doc), org@, token@)),
{
    let ghost m = table_model(doc);
    let mut doc = doc;
    let mut github = match take_table(&mut doc, "github") {
        Ok(t) => t,
        Err(e) => return Err(e),
    };
    let ghost g = table_model(github);
    let mut tokens = match take_table(&mut github, "tokens") {
        Ok(t) => t,
        Err(e) => return Err(e),
    };
    table_put(&mut tokens, owned(org), toml_text(token));
    table_put(&mut github, owned("tokens"), toml_table(tokens));
    table_put(&mut doc, owned("github"), toml_table(github));
    proof {
        assert(table_model(github) =~= g.insert("tokens"@, Toml::Table(table_model(tokens))));
        assert(table_model(doc) =~= m.insert("github"@, Toml::Table(table_model(github))));
    }
    Ok(doc)
}

/// Add or replace the token of an org in `[github.tokens]`. `text` is what the
/// file at `path` holds, `None` where there is no file.
pub fn set_org_token(path: &str, text: Option<&str>, org: &str, token: &str) -> (r: Result<
    String,
    Error,
>)
    ensures
        outcome(r) == edited(
            path@,
            document(given(text)),
            |m: Map<Seq<char>, Toml>| with_token(m, org@, token@),
        ),
{
    match load_table(path, text) {
        Ok(doc) => match put_token(doc, org, token) {
            Ok(after) => render(&after),
            Err(e) => Err(e),
        },
        Err(e) => Err(e),
    }
}

/// A document with the pull endpoint set.
pub fn put_pull(doc: toml::map::Map<String, toml::Value>, enabled: bool, addr: &str) -> (r: Result<
    toml::map::Map<String, toml::Value>,
    Error,
>)
    ensures
        change_outcome(r) == changed(with_pull(table_model(doc), enabled, addr@)),
{
    let ghost m = table_model(doc);
    let mut doc = doc;
    let mut metrics = match take_table(&mut doc, "metrics") {
        Ok(t) => t,
        Err(e) => return Err(e),
    };
    let ghost g = table_model(metrics);
    let mut pull = match take_table(&mut metrics, "pull") {
        Ok(t) => t,
        Err(e) => return Err(e),
    };
    table_put(&mut pull, owned("enabled"), toml_bool(enabled));
    table_put(&mut pull, owned("addr"), toml_text(addr));
    table_put(&mut metrics, owned("pull"), toml_table(pull));
    table_put(&mut doc, owned("metrics"), toml_table(metrics));
    proof {
        assert(table_model(metrics) =~= g.insert("pull"@, Toml::Table(table_model(pull))));
        assert(table_model(doc) =~= m.insert("metrics"@, Toml::Table(table_model(metrics))));
    }
    Ok(doc)
}

/// Set the pull endpoint in `[metrics.pull]`.
pub fn set_metrics_pull(path: &str, text: Option<&str>, enabled: bool, addr: &str) -> (r: Result<
    String,
    Error,
>)
    ensures
        outcome(r) == edited(
            path@,
            document(given(text)),
            |m: Map<Seq<char>, Toml>| with_pull(m, enabled, addr@),
        ),
{
    match load_table(path, text) {
        Ok(doc) => match put_pull(doc, enabled, addr) {
            Ok(after) => render(&after),
            Err(e) => Err(e),
        },
        Err(e) => Err(e),
    }
}

/// A list of texts as a value.
pub(crate) fn text_list(items: &[String]) -> (r: toml::Value)
    ensures
        toml_model(r) == Toml::List(names(items@).map_values(|s: Seq<char>| Toml::Text(s))),
{
    let ghost want = names(items@).map_values(|s: Seq<char>| Toml::Text(s));
    let mut out: Vec<toml::Value> = Vec::new();
    let mut i: usize = 0;
    while i < items.len()
        invariant
            i <= items@.len(),
            want == names(items@).map_values(|s: Seq<char>| Toml::Text(s)),
            toml_models(out@) == want.take(i as int),
        decreases items@.len() - i,
    {
        let ghost was = out@;
        let v = toml_text(items[i].as_str());
        let ghost model = toml_model(v);
        out.push(v);
        assert(toml_models(out@) =~= toml_models(was).push(model));
        assert(want.take(i + 1) =~= want.take(i as int).push(want[i as int]));
        i = i + 1;
    }
    assert(want.take(i as int) =~= want);
    toml_list(out)
}

/// A document with the runner roots set.
pub fn put_roots(doc: toml::map::Map<String, toml::Value>, roots: &[String]) -> (r: toml::map::Map<
    String,
    toml::Value,
>)
    ensures
        table_model(r) == with_roots(table_model(doc), names(roots@)),
{
    let mut doc = doc;
    table_put(&mut doc, owned("runner_roots"), text_list(roots));
    doc
}

/// Set the runner install roots.
pub fn set_runner_roots(path: &str, text: Option<&str>, roots: &[String]) -> (r: Result<
    String,
    Error,
>)
    ensures
        outcome(r) == edited(
            path@,
            document(given(text)),
            |m: Map<Seq<char>, Toml>| Ok::<Map<Seq<char>, Toml>, Seq<char>>(
                with_roots(m, names(roots@)),
            ),
        ),
{
    match load_table(path, text) {
        Ok(doc) => {
            let after = put_roots(doc, roots);
            render(&after)
        },
        Err(e) => Err(e),
    }
}

/// The entries of a list other than the text `org`.
fn drop_org(items: Vec<toml::Value>, org: &str) -> (r: Vec<toml::Value>)
    ensures
        toml_models(r@) == entries_without(toml_models(items@), org@),
{
    let ghost all = toml_models(items@);
    let ghost src = items@;
    let mut out: Vec<toml::Value> = Vec::new();
    proof {
        reveal(Seq::filter);
    }
    assert(all.take(0) =~= seq![]);
    assert(toml_models(out@) =~= entries_without(all.take(0), org@));
    for v in it: items
        invariant
            it.seq() == src,
            all == toml_models(src),
            toml_models(out@) == entries_without(all.take(it.index() as int), org@),
    {
        let ghost i = it.index() as int;
        let ghost was = out@;
        let ghost model = toml_model(v);
        proof {
            reveal(Seq::filter);
            assert(all.take(i + 1).drop_last() =~= all.take(i));
            assert(all.take(i + 1).last() == model);
        }
        let named = match value_text(&v) {
            Some(s) => same(s, org),
            None => false,
        };
        if !named {
            out.push(v);
            assert(toml_models(out@) =~= toml_models(was).push(model));
        }
    }
    assert(all.take(all.len() as int) =~= all);
    out
}

/// A document without an org's token, and without the org.
pub fn forget_org(doc: toml::map::Map<String, toml::Value>, org: &str) -> (r: toml::map::Map<
    String,
    toml::Value,
>)
    ensures
        table_model(r) == without_org(without_token(table_model(doc), org@), org@),
{
    let mut doc = doc;
    let ghost m = table_model(doc);
    match table_take(&mut doc, "github") {
        None => {
            assert(m.remove("github"@) =~= m);
        },
        Some(v) => match value_into_table(v) {
            Err(other) => {
                table_put(&mut doc, owned("github"), other);
                assert(table_model(doc) =~= m);
            },
            Ok(t) => {
                let mut github = t;
                let ghost g = table_model(github);
                match table_take(&mut github, "tokens") {
                    None => {
                        assert(g.remove("tokens"@) =~= g);
                    },
                    Some(w) => match value_into_table(w) {
                        Err(other) => {
                            table_put(&mut github, owned("tokens"), other);
                            assert(table_model(github) =~= g);
                        },
                        Ok(k) => {
                            let mut tokens = k;
                            let _gone = table_take(&mut tokens, org);
                            if !table_is_empty(&tokens) {
                                let ghost left = table_model(tokens);
                                table_put(&mut github, owned("tokens"), toml_table(tokens));
                                assert(table_model(github) =~= g.insert(
                                    "tokens"@,
                                    Toml::Table(left),
                                ));
                            }
                        },
                    },
                }
                assert(table_model(github) == github_without(g, org@));
                if !table_is_empty(&github) {
                    let ghost left = table_model(github);
                    table_put(&mut doc, owned("github"), toml_table(github));
                    assert(table_model(doc) =~= m.insert("github"@, Toml::Table(left)));
                }
            },
        },
    }
    assert(table_model(doc) == without_token(m, org@));
    let ghost a = table_model(doc);
    match table_take(&mut doc, "orgs") {
        None => {
            assert(a.remove("orgs"@) =~= a);
        },
        Some(v) => match value_into_list(v) {
            Err(other) => {
                table_put(&mut doc, owned("orgs"), other);
                assert(table_model(doc) =~= a);
            },
            Ok(l) => {
                let kept = drop_org(l, org);
                let ghost left = toml_models(kept@);
                table_put(&mut doc, owned("orgs"), toml_list(kept));
                assert(table_model(doc) =~= a.insert("orgs"@, Toml::List(left)));
            },
        },
    }
    assert(table_model(doc) == without_org(a, org@));
    doc
}

/// Remove an org's token and forget the org: its entry in `[github.tokens]`, its
/// name in `orgs`, and the tables that have nothing left. Removing an org that is
/// not there changes nothing.
pub fn remove_org_token(path: &str, text: Option<&str>, org: &str) -> (r: Result<String, Error>)
    ensures
        outcome(r) == edited(
            path@,
            document(given(text)),
            |m: Map<Seq<char>, Toml>| Ok::<Map<Seq<char>, Toml>, Seq<char>>(
                without_org(without_token(m, org@), org@),
            ),
        ),
{
    match load_table(path, text) {
        Ok(doc) => {
            let after = forget_org(doc, org);
            render(&after)
        },
        Err(e) => Err(e),
    }
}

/// Why a staged write of the configuration failed: without permission it is the
/// root-owned system file.
pub fn stage_err(target: &str, denied: bool, cause: &str) -> (r: Error)
    ensures
        r@ == config_error(
            if denied {
                target@ + " is the root-owned system config — re-run with sudo"@
            } else {
                "staging config write for "@ + target@ + ": "@ + cause@
            },
        ),
{
    if denied {
        let mut m = owned(target);
        m.append(" is the root-owned system config — re-run with sudo");
        Error::Config(m)
    } else {
        let mut m = owned("staging config write for ");
        m.append(target);
        m.append(": ");
        m.append(cause);
        Error::Config(m)
    }
}

/// Something stands where a table is needed.
pub open spec fn is_blocked(m: Map<Seq<char>, Toml>, key: Seq<char>) -> bool {
    m.dom().contains(key) && !(m[key] is Table)
}

/// A token, and the address of the metrics, can be set in every document but one in
/// which something that is no table stands in their place; what is in the way is
/// named.
pub proof fn settings_fail_only_where_blocked(
    m: Map<Seq<char>, Toml>,
    org: Seq<char>,
    token: Seq<char>,
    enabled: bool,
    addr: Seq<char>,
)
    ensures
        is_blocked(m, "github"@) ==> with_token(m, org, token) == Err::<
            Map<Seq<char>, Toml>,
            Seq<char>,
        >("github"@),
        !is_blocked(m, "github"@) ==> (with_token(m, org, token) is Err <==> m.dom().contains(
            "github"@,
        ) && is_blocked(m["github"@]->Table_0, "tokens"@)),
        !is_blocked(m, "github"@) && with_token(m, org, token) is Err ==> with_token(m, org, token)
            == Err::<Map<Seq<char>, Toml>, Seq<char>>("tokens"@),
        is_blocked(m, "metrics"@) ==> with_pull(m, enabled, addr) == Err::<
            Map<Seq<char>, Toml>,
            Seq<char>,
        >("metrics"@),
        !is_blocked(m, "metrics"@) ==> (with_pull(m, enabled, addr) is Err <==> m.dom().contains(
            "metrics"@,
        ) && is_blocked(m["metrics"@]->Table_0, "pull"@)),
        !is_blocked(m, "metrics"@) && with_pull(m, enabled, addr) is Err ==> with_pull(
            m,
            enabled,
            addr,
        ) == Err::<Map<Seq<char>, Toml>, Seq<char>>("pull"@),
{
}

/// The roots that are set are the ones that were given, in their order.
pub proof fn roots_are_set_as_given(m: Map<Seq<char>, Toml>, roots: Seq<Seq<char>>)
    ensures
        ({
            let after = with_roots(m, roots);
            &&& after.dom().contains("runner_roots"@)
            &&& after["runner_roots"@] matches Toml::List(l)
            &&& l.len() == roots.len()
            &&& forall|i: int| 0 <= i < roots.len() ==> l[i] == Toml::Text(#[trigger] roots[i])
        }),
{
}

/// An edit starts from what the text says, or from nothing where there is none, and
/// ends in the text of the changed document. A text that cannot be read, and a
/// change that cannot be made, are refused, and why is said.
pub proof fn an_edit_goes_through_the_document(
    path: Seq<char>,
    text: Option<Seq<char>>,
    change: spec_fn(Map<Seq<char>, Toml>) -> Result<Map<Seq<char>, Toml>, Seq<char>>,
)
    ensures
        text is None ==> document(text) == Ok::<Map<Seq<char>, Toml>, Seq<char>>(Map::empty()),
        text matches Some(t) ==> document(text) == toml_parsed(t),
        document(text) matches Err(e) ==> edited(path, document(text), change) == Err::<
            Seq<char>,
            Failure,
        >(config_error("parsing "@ + path + ": "@ + e)),
        document(text) matches Ok(m) ==> {
            &&& change(m) matches Err(key) ==> edited(path, document(text), change) == Err::<
                Seq<char>,
                Failure,
            >(config_error("`"@ + key + "` is not a table"@))
            &&& change(m) matches Ok(after) ==> {
                &&& toml_printed(after) matches Ok(out) ==> edited(path, document(text), change)
                    == Ok::<Seq<char>, Failure>(out)
                &&& toml_printed(after) matches Err(e) ==> edited(path, document(text), change)
                    == Err::<Seq<char>, Failure>(config_error("serializing config: "@ + e))
            }
        },
{
}

} // verus!
