//! The setup dialogue: what is asked, in what order, and what follows from each
//! answer. Nothing is sent or written without a yes, and no token is ever shown.

use std::collections::HashSet;

use vstd::prelude::*;
use vstd::string::*;

use crate::config::document::{
    no_keys, table_model, table_new, table_put, toml_print, toml_printed, toml_table, toml_text,
    Toml,
};
use crate::config::persist::text_list;
use crate::github::validate::{count_matches, matches_of};
use crate::github::{list_org_runners, status_text, ApiRunner, Reply};
use crate::models::RunnerInfo;
use crate::path::{join, joined};
use crate::scan::{trim, trimmed};
use crate::serve::github::{orgs_found, orgs_of};
use crate::text::{
    chars_of, dec, dec_usize, given, listing_is_unique, lists, names, owned, same, string_of,
};

verus! {

/// Where runners are looked for unless another root is given.
pub const DEFAULT_ROOT: &'static str = "/mnt/store/ghr";

/// What is said before anything is asked.
pub const INTRO: &'static str = "ghr-stats setup\n\nThis will:\n  • read each runner's .runner file under the root you choose\n  • optionally contact GitHub with a read-only token you provide (per org)\n  • write a config file (mode 0600) — only after you confirm\n\n";

/// Where the configuration is written: where told, else in the user's
/// configuration directory.
pub open spec fn target_path(
    explicit: Option<Seq<char>>,
    xdg: Option<Seq<char>>,
    home: Option<Seq<char>>,
) -> Seq<char> {
    match explicit {
        Some(p) => p,
        None => joined(
            match xdg {
                Some(base) => base,
                None => joined(
                    match home {
                        Some(h) => h,
                        None => seq![],
                    },
                    ".config"@,
                ),
            },
            "ghr-stats/config.toml"@,
        ),
    }
}

/// Where the configuration is written.
pub fn config_target(explicit: Option<&str>, xdg: Option<&str>, home: Option<&str>) -> (r: String)
    ensures
        r@ == target_path(given(explicit), given(xdg), given(home)),
{
    match explicit {
        Some(p) => owned(p),
        None => {
            let base = match xdg {
                Some(b) => owned(b),
                None => match home {
                    Some(h) => join(h, ".config"),
                    None => {
                        let none = String::new();
                        assert(none@ =~= Seq::<char>::empty());
                        join(none.as_str(), ".config")
                    },
                },
            };
            join(base.as_str(), "ghr-stats/config.toml")
        },
    }
}

// ---------------------------------------------------------------------------
// The file
// ---------------------------------------------------------------------------

/// An org's token.
#[derive(Debug)]
pub struct OrgToken {
    pub org: String,
    pub token: String,
}

/// An org with its token.
pub struct Entry {
    pub org: Seq<char>,
    pub token: Seq<char>,
}

/// Orgs with their tokens.
pub open spec fn entries(v: Seq<OrgToken>) -> Seq<Entry> {
    v.map_values(|t: OrgToken| Entry { org: t.org@, token: t.token@ })
}

/// The table of tokens.
pub open spec fn token_table(v: Seq<Entry>) -> Map<Seq<char>, Toml>
    decreases v.len(),
{
    if v.len() == 0 {
        no_keys()
    } else {
        token_table(v.drop_last()).insert(v.last().org, Toml::Text(v.last().token))
    }
}

/// The document that names the roots.
pub open spec fn roots_doc(roots: Seq<Seq<char>>) -> Map<Seq<char>, Toml> {
    no_keys().insert("runner_roots"@, Toml::List(roots.map_values(|s: Seq<char>| Toml::Text(s))))
}

/// The document that holds the tokens.
pub open spec fn tokens_doc(v: Seq<Entry>) -> Map<Seq<char>, Toml> {
    no_keys().insert(
        "github"@,
        Toml::Table(no_keys().insert("tokens"@, Toml::Table(token_table(v)))),
    )
}

/// The settings of a fresh configuration: the roots, the usual cadences, and the
/// tokens where there are any.
pub open spec fn settings(roots: Seq<Seq<char>>, tokens: Seq<Entry>) -> Option<Seq<char>> {
    match toml_printed(roots_doc(roots)) {
        Ok(head) => {
            let body = head + "\n[intervals]\nlocal_secs = 5\napi_secs = 60\n"@;
            if tokens.len() == 0 {
                Some(body)
            } else {
                match toml_printed(tokens_doc(tokens)) {
                    Ok(tail) => Some(body + "\n"@ + tail),
                    Err(_) => None,
                }
            }
        },
        Err(_) => None,
    }
}

/// The text of a fresh configuration: empty but for its heading where it cannot be
/// written down.
pub open spec fn config_text(roots: Seq<Seq<char>>, tokens: Seq<Entry>) -> Seq<char> {
    "# ghr-stats config (written by `ghr-stats setup`). Keep mode 0600.\n\n"@ + match settings(
        roots,
        tokens,
    ) {
        Some(body) => body,
        None => seq![],
    }
}

fn tokens_table(tokens: &Vec<OrgToken>) -> (r: toml::map::Map<String, toml::Value>)
    ensures
        table_model(r) == tokens_doc(entries(tokens@)),
{
    let ghost all = entries(tokens@);
    let mut table = table_new();
    let mut i: usize = 0;
    assert(all.take(0) =~= seq![]);
    while i < tokens.len()
        invariant
            i <= tokens@.len(),
            all == entries(tokens@),
            table_model(table) == token_table(all.take(i as int)),
        decreases tokens@.len() - i,
    {
        assert(all.take(i + 1).drop_last() =~= all.take(i as int));
        assert(all.take(i + 1).last() == all[i as int]);
        table_put(
            &mut table,
            owned(tokens[i].org.as_str()),
            toml_text(tokens[i].token.as_str()),
        );
        i = i + 1;
    }
    assert(all.take(i as int) =~= all);
    let mut github = table_new();
    table_put(&mut github, owned("tokens"), toml_table(table));
    let mut doc = table_new();
    table_put(&mut doc, owned("github"), toml_table(github));
    doc
}

fn render_settings(roots: &[String], tokens: &Vec<OrgToken>) -> (r: Option<String>)
    ensures
        r is Some == (settings(names(roots@), entries(tokens@)) is Some),
        r matches Some(s) ==> settings(names(roots@), entries(tokens@)) == Some(s@),
{
    let mut head = table_new();
    table_put(&mut head, owned("runner_roots"), text_list(roots));
    assert(table_model(head) == roots_doc(names(roots@)));
    match toml_print(&head) {
        Ok(mut body) => {
            body.append("\n[intervals]\nlocal_secs = 5\napi_secs = 60\n");
            if tokens.len() == 0 {
                return Some(body);
            }
            match toml_print(&tokens_table(tokens)) {
                Ok(tail) => {
                    body.append("\n");
                    body.append(tail.as_str());
                    Some(body)
                },
                Err(_) => None,
            }
        },
        Err(_) => None,
    }
}

/// The text of a fresh configuration.
pub fn render_config(roots: &[String], tokens: &Vec<OrgToken>) -> (r: String)
    ensures
        r@ == config_text(names(roots@), entries(tokens@)),
{
    let mut s = owned(
        "# ghr-stats config (written by `ghr-stats setup`). Keep mode 0600.\n\n",
    );
    match render_settings(roots, tokens) {
        Some(body) => {
            s.append(body.as_str());
        },
        None => {
            assert(s@ =~= s@ + Seq::<char>::empty());
        },
    }
    s
}

/// Tokens as they are shown: each masked.
pub open spec fn masked(v: Seq<Entry>) -> Seq<Entry> {
    v.map_values(|e: Entry| Entry { org: e.org, token: "***"@ })
}

fn mask(tokens: &Vec<OrgToken>) -> (r: Vec<OrgToken>)
    ensures
        entries(r@) == masked(entries(tokens@)),
{
    let mut out: Vec<OrgToken> = Vec::new();
    let mut i: usize = 0;
    while i < tokens.len()
        invariant
            i <= tokens@.len(),
            out@.len() == i,
            forall|k: int|
                0 <= k < i ==> (#[trigger] out@[k]).org@ == tokens@[k].org@ && out@[k].token@
                    == "***"@,
        decreases tokens@.len() - i,
    {
        out.push(OrgToken { org: owned(tokens[i].org.as_str()), token: owned("***") });
        i = i + 1;
    }
    assert(entries(out@) =~= masked(entries(tokens@)));
    out
}

// ---------------------------------------------------------------------------
// The dialogue
// ---------------------------------------------------------------------------

/// Where the dialogue stands.
#[derive(Debug, Clone, Copy, PartialEq, Eq, Structural)]
pub enum Stage {
    /// Whether to go on at all.
    Proceed,
    /// The root is asked for.
    Root,
    /// Runners are looked for.
    Discover,
    /// Whether to add tokens.
    Offer,
    /// Whether to add the token of an org.
    OrgOffer,
    /// The token is asked for.
    Paste,
    /// GitHub is asked with the token.
    Check,
    /// Whether to store a token that GitHub refused.
    StoreAnyway,
    /// The file is looked for.
    Target,
    /// Whether to overwrite it.
    Overwrite,
    /// Whether to write what was shown.
    Preview,
    /// The file is written.
    Write,
    Over,
}

/// The dialogue.
#[derive(Debug)]
pub struct Wizard {
    pub stage: Stage,
    pub root: String,
    pub found: Vec<RunnerInfo>,
    /// The orgs of the runners found.
    pub orgs: Vec<String>,
    /// Which of them is asked about.
    pub at: usize,
    /// The token that is checked.
    pub token: String,
    /// The tokens to store.
    pub tokens: Vec<OrgToken>,
    pub target: String,
    /// What is to be shown before going on.
    pub said: String,
}

/// The dialogue by what it holds.
pub struct Session {
    pub stage: Stage,
    pub root: Seq<char>,
    pub found: Seq<RunnerInfo>,
    pub orgs: Seq<Seq<char>>,
    pub at: int,
    pub token: Seq<char>,
    pub tokens: Seq<Entry>,
    pub target: Seq<char>,
    pub said: Seq<char>,
}

impl View for Wizard {
    type V = Session;

    open spec fn view(&self) -> Session {
        Session {
            stage: self.stage,
            root: self.root@,
            found: self.found@,
            orgs: names(self.orgs@),
            at: self.at as int,
            token: self.token@,
            tokens: entries(self.tokens@),
            target: self.target@,
            said: self.said@,
        }
    }
}

/// What comes back from what the dialogue wanted.
#[derive(Debug)]
pub enum Answer {
    /// A yes or a no.
    Confirmed(bool),
    /// What was typed.
    Typed(String),
    /// The runners found.
    Discovered(Vec<RunnerInfo>),
    /// What GitHub said.
    Asked(Reply<ApiRunner>),
    /// Whether the file is there.
    Exists(bool),
    /// The file was written.
    Written,
}

/// What the dialogue wants next.
#[derive(Debug)]
pub enum Action {
    Confirm { prompt: String, default: bool },
    Input { prompt: String, suggestion: String },
    Password { prompt: String },
    Discover { root: String },
    Ask { org: String, token: String },
    Look { path: String },
    Write { path: String, text: String },
    Stop,
}

/// What the dialogue wants, by what it holds.
pub enum Want {
    Confirm { prompt: Seq<char>, default: bool },
    Input { prompt: Seq<char>, suggestion: Seq<char> },
    Password { prompt: Seq<char> },
    Discover { root: Seq<char> },
    Ask { org: Seq<char>, token: Seq<char> },
    Look { path: Seq<char> },
    Write { path: Seq<char>, text: Seq<char> },
    Stop,
}

impl View for Action {
    type V = Want;

    open spec fn view(&self) -> Want {
        match self {
            Action::Confirm { prompt, default } => Want::Confirm {
                prompt: prompt@,
                default: *default,
            },
            Action::Input { prompt, suggestion } => Want::Input {
                prompt: prompt@,
                suggestion: suggestion@,
            },
            Action::Password { prompt } => Want::Password { prompt: prompt@ },
            Action::Discover { root } => Want::Discover { root: root@ },
            Action::Ask { org, token } => Want::Ask { org: org@, token: token@ },
            Action::Look { path } => Want::Look { path: path@ },
            Action::Write { path, text } => Want::Write { path: path@, text: text@ },
            Action::Stop => Want::Stop,
        }
    }
}

impl Session {
    /// The org that is asked about.
    pub open spec fn org(self) -> Seq<char> {
        self.orgs[self.at]
    }

    /// What the dialogue wants next.
    pub open spec fn wants(self) -> Want {
        match self.stage {
            Stage::Proceed => Want::Confirm { prompt: "Proceed?"@, default: true },
            Stage::Root => Want::Input {
                prompt: "Runner install root"@,
                suggestion: DEFAULT_ROOT@,
            },
            Stage::Discover => Want::Discover { root: self.root },
            Stage::Offer => Want::Confirm {
                prompt: "Add read-only GitHub PATs now? (optional; needs 'Self-hosted runners: read')"@,
                default: false,
            },
            Stage::OrgOffer => Want::Confirm {
                prompt: "  Token for "@ + self.org() + "?"@,
                default: false,
            },
            Stage::Paste => Want::Password {
                prompt: "  Paste fine-grained PAT for "@ + self.org(),
            },
            Stage::Check => Want::Ask { org: self.org(), token: self.token },
            Stage::StoreAnyway => Want::Confirm { prompt: "    store it anyway?"@, default: false },
            Stage::Target => Want::Look { path: self.target },
            Stage::Overwrite => Want::Confirm {
                prompt: self.target + " exists — overwrite?"@,
                default: false,
            },
            Stage::Preview => Want::Confirm { prompt: "Write it?"@, default: true },
            Stage::Write => Want::Write {
                path: self.target,
                text: config_text(seq![self.root], self.tokens),
            },
            Stage::Over => Want::Stop,
        }
    }

    /// The dialogue at another stage, with something to show.
    pub open spec fn moved(self, stage: Stage, said: Seq<char>) -> Session {
        Session { stage, said, ..self }
    }

    /// The dialogue at the next org, or past the last of them.
    pub open spec fn next_org(self, said: Seq<char>) -> Session {
        if self.at + 1 < self.orgs.len() {
            Session { stage: Stage::OrgOffer, at: self.at + 1, said, ..self }
        } else {
            self.moved(Stage::Target, said)
        }
    }

    /// The dialogue with the token that was checked among those to store.
    pub open spec fn stored(self) -> Session {
        Session {
            tokens: self.tokens.push(Entry { org: self.org(), token: self.token }),
            ..self
        }
    }

    /// What is shown before the file is written: all of it, tokens masked.
    pub open spec fn preview(self) -> Seq<char> {
        "\nWill write "@ + self.target + " (mode 0600):\n\n"@ + config_text(
            seq![self.root],
            masked(self.tokens),
        ) + "\n"@
    }

    /// The dialogue where the preview is shown.
    pub open spec fn previewed(self) -> Session {
        self.moved(Stage::Preview, self.preview())
    }
}

/// The one sorted list of a set.
pub open spec fn listing(s: Set<Seq<char>>) -> Seq<Seq<char>> {
    choose|v: Seq<Seq<char>>| lists(v, s)
}

/// Texts with a comma between them.
pub open spec fn comma_list(v: Seq<Seq<char>>) -> Seq<char>
    decreases v.len(),
{
    if v.len() == 0 {
        seq![]
    } else if v.len() == 1 {
        v[0]
    } else {
        comma_list(v.drop_last()) + ", "@ + v.last()
    }
}

/// What is said of the runners found.
pub open spec fn found_text(root: Seq<char>, found: Seq<RunnerInfo>, orgs: Seq<Seq<char>>) -> Seq<
    char,
> {
    if found.len() == 0 {
        "⚠ no runners found under "@ + root + " (no .runner files).\n"@
    } else {
        "found "@ + dec(found.len() as int) + " runners across "@ + dec(orgs.len() as int)
            + " orgs: "@ + comma_list(orgs) + "\n"@
    }
}

/// The ids of an org's runners.
pub open spec fn local_ids(found: Seq<RunnerInfo>, org: Seq<char>) -> Set<i64>
    decreases found.len(),
{
    if found.len() == 0 {
        Set::empty()
    } else if found.last().org@ == org {
        local_ids(found.drop_last(), org).insert(found.last().agent_id)
    } else {
        local_ids(found.drop_last(), org)
    }
}

/// What is said of a token that GitHub took.
pub open spec fn valid_text(api: Seq<ApiRunner>, local: Set<i64>) -> Seq<char> {
    "    ✓ valid — "@ + dec(api.len() as int) + " runners, matched "@ + dec(
        matches_of(api, local) as int,
    ) + "/"@ + dec(local.len() as int) + " local\n"@
}

/// What is said of a token that GitHub did not take.
pub open spec fn refused_text(org: Seq<char>, reply: Reply<ApiRunner>) -> Seq<char> {
    "    ✗ "@ + ("github: "@ + match reply {
        Reply::Listed(_) => seq![],
        Reply::Undecodable(e) => org + ": decoding response: "@ + e@,
        Reply::Status(code) => status_text(org, code),
        Reply::Transport(e) => org + ": transport error: "@ + e@,
    }) + "\n"@
}

/// What is said once the file is written.
pub open spec fn done_text(target: Seq<char>) -> Seq<char> {
    "✓ wrote "@ + target
        + "\n\nNext: build + enable the collector —\n  systemctl --user enable --now ghr-stats-collector.service\n"@
}

/// The dialogue after the runners were found.
pub open spec fn after_discovery(s: Session, found: Seq<RunnerInfo>) -> Session {
    let orgs = listing(orgs_of(found).to_set());
    Session {
        stage: if orgs.len() == 0 {
            Stage::Target
        } else {
            Stage::Offer
        },
        found,
        orgs,
        said: found_text(s.root, found, orgs),
        ..s
    }
}

/// The dialogue after an answer. An answer to something else changes nothing.
pub open spec fn advance(s: Session, a: Answer) -> Session {
    match (s.stage, a) {
        (Stage::Proceed, Answer::Confirmed(yes)) => if yes {
            s.moved(Stage::Root, seq![])
        } else {
            s.moved(Stage::Over, "aborted.\n"@)
        },
        (Stage::Root, Answer::Typed(t)) => Session {
            stage: Stage::Discover,
            root: t@,
            said: seq![],
            ..s
        },
        (Stage::Discover, Answer::Discovered(found)) => after_discovery(s, found@),
        (Stage::Offer, Answer::Confirmed(yes)) => if yes {
            Session { stage: Stage::OrgOffer, at: 0, said: seq![], ..s }
        } else {
            s.moved(Stage::Target, seq![])
        },
        (Stage::OrgOffer, Answer::Confirmed(yes)) => if yes {
            s.moved(Stage::Paste, seq![])
        } else {
            s.next_org(seq![])
        },
        (Stage::Paste, Answer::Typed(t)) => if trim(t@).len() == 0 {
            s.next_org(seq![])
        } else {
            Session { stage: Stage::Check, token: trim(t@), said: seq![], ..s }
        },
        (Stage::Check, Answer::Asked(reply)) => match reply {
            Reply::Listed(api) => s.stored().next_org(
                valid_text(api@, local_ids(s.found, s.org())),
            ),
            _ => s.moved(Stage::StoreAnyway, refused_text(s.org(), reply)),
        },
        (Stage::StoreAnyway, Answer::Confirmed(yes)) => if yes {
            s.stored().next_org(seq![])
        } else {
            s.next_org(seq![])
        },
        (Stage::Target, Answer::Exists(there)) => if there {
            s.moved(Stage::Overwrite, seq![])
        } else {
            s.previewed()
        },
        (Stage::Overwrite, Answer::Confirmed(yes)) => if yes {
            s.previewed()
        } else {
            s.moved(Stage::Over, "kept existing config; nothing written.\n"@)
        },
        (Stage::Preview, Answer::Confirmed(yes)) => if yes {
            s.moved(Stage::Write, seq![])
        } else {
            s.moved(Stage::Over, "aborted; nothing written.\n"@)
        },
        (Stage::Write, Answer::Written) => s.moved(Stage::Over, done_text(s.target)),
        _ => s,
    }
}

/// Whether the dialogue speaks of an org.
pub open spec fn at_an_org(stage: Stage) -> bool {
    stage is OrgOffer || stage is Paste || stage is Check || stage is StoreAnyway
}

fn empty() -> (r: String)
    ensures
        r@ == Seq::<char>::empty(),
{
    let s = String::new();
    assert(s@ =~= Seq::<char>::empty());
    s
}

fn commas(v: &Vec<String>) -> (r: String)
    ensures
        r@ == comma_list(names(v@)),
{
    let ghost all = names(v@);
    let mut s = empty();
    let mut i: usize = 0;
    assert(all.take(0) =~= seq![]);
    while i < v.len()
        invariant
            i <= v@.len(),
            all == names(v@),
            s@ == comma_list(all.take(i as int)),
        decreases v@.len() - i,
    {
        assert(all.take(i + 1).drop_last() =~= all.take(i as int));
        assert(all.take(i + 1).last() == all[i as int]);
        if i > 0 {
            s.append(", ");
            s.append(v[i].as_str());
        } else {
            s = owned(v[i].as_str());
        }
        i = i + 1;
    }
    assert(all.take(i as int) =~= all);
    s
}

fn ids_of(found: &Vec<RunnerInfo>, org: &str) -> (r: HashSet<i64>)
    ensures
        r@ == local_ids(found@, org@),
{
    broadcast use vstd::std_specs::hash::group_hash_axioms;

    let mut ids: HashSet<i64> = HashSet::new();
    let mut i: usize = 0;
    assert(found@.take(0) =~= seq![]);
    while i < found.len()
        invariant
            i <= found@.len(),
            ids@ == local_ids(found@.take(i as int), org@),
        decreases found@.len() - i,
    {
        assert(found@.take(i + 1).drop_last() =~= found@.take(i as int));
        assert(found@.take(i + 1).last() == found@[i as int]);
        if same(found[i].org.as_str(), org) {
            ids.insert(found[i].agent_id);
        }
        i = i + 1;
    }
    assert(found@.take(i as int) =~= found@);
    ids
}

fn say_found(root: &str, found: usize, orgs: &Vec<String>) -> (r: String)
    ensures
        forall|f: Seq<RunnerInfo>|
            f.len() == found ==> r@ == #[trigger] found_text(root@, f, names(orgs@)),
{
    if found == 0 {
        let mut s = owned("⚠ no runners found under ");
        s.append(root);
        s.append(" (no .runner files).\n");
        s
    } else {
        let mut s = owned("found ");
        s.append(dec_usize(found).as_str());
        s.append(" runners across ");
        s.append(dec_usize(orgs.len()).as_str());
        s.append(" orgs: ");
        s.append(commas(orgs).as_str());
        s.append("\n");
        assert(names(orgs@).len() == orgs@.len());
        s
    }
}

fn say_valid(api: &Vec<ApiRunner>, local: &HashSet<i64>) -> (r: String)
    ensures
        r@ == valid_text(api@, local@),
{
    broadcast use vstd::std_specs::hash::group_hash_axioms;

    let mut s = owned("    ✓ valid — ");
    s.append(dec_usize(api.len()).as_str());
    s.append(" runners, matched ");
    s.append(dec_usize(count_matches(api, local)).as_str());
    s.append("/");
    s.append(dec_usize(local.len()).as_str());
    s.append(" local\n");
    s
}

impl Wizard {
    /// Where the dialogue speaks of an org, there is one.
    pub open spec fn wf(&self) -> bool {
        &&& at_an_org(self.stage) ==> self.at < self.orgs@.len()
        &&& self.stage is Offer ==> self.orgs@.len() > 0
    }

    /// A dialogue that is about to begin.
    pub fn new(target: &str) -> (r: Wizard)
        ensures
            r.wf(),
            r@ == (Session {
                stage: Stage::Proceed,
                root: seq![],
                found: seq![],
                orgs: seq![],
                at: 0,
                token: seq![],
                tokens: seq![],
                target: target@,
                said: INTRO@,
            }),
    {
        let w = Wizard {
            stage: Stage::Proceed,
            root: empty(),
            found: Vec::new(),
            orgs: Vec::new(),
            at: 0,
            token: empty(),
            tokens: Vec::new(),
            target: owned(target),
            said: owned(INTRO),
        };
        assert(w.found@ =~= Seq::<RunnerInfo>::empty());
        assert(names(w.orgs@) =~= Seq::<Seq<char>>::empty());
        assert(entries(w.tokens@) =~= Seq::<Entry>::empty());
        w
    }

    /// What the dialogue wants next.
    pub fn action(&self) -> (r: Action)
        requires
            self.wf(),
        ensures
            r@ == self@.wants(),
    {
        match self.stage {
            Stage::Proceed => Action::Confirm { prompt: owned("Proceed?"), default: true },
            Stage::Root => Action::Input {
                prompt: owned("Runner install root"),
                suggestion: owned(DEFAULT_ROOT),
            },
            Stage::Discover => Action::Discover { root: owned(self.root.as_str()) },
            Stage::Offer => Action::Confirm {
                prompt: owned(
                    "Add read-only GitHub PATs now? (optional; needs 'Self-hosted runners: read')",
                ),
                default: false,
            },
            Stage::OrgOffer => {
                let mut prompt = owned("  Token for ");
                prompt.append(self.orgs[self.at].as_str());
                prompt.append("?");
                Action::Confirm { prompt, default: false }
            },
            Stage::Paste => {
                let mut prompt = owned("  Paste fine-grained PAT for ");
                prompt.append(self.orgs[self.at].as_str());
                Action::Password { prompt }
            },
            Stage::Check => Action::Ask {
                org: owned(self.orgs[self.at].as_str()),
                token: owned(self.token.as_str()),
            },
            Stage::StoreAnyway => Action::Confirm {
                prompt: owned("    store it anyway?"),
                default: false,
            },
            Stage::Target => Action::Look { path: owned(self.target.as_str()) },
            Stage::Overwrite => {
                let mut prompt = owned(self.target.as_str());
                prompt.append(" exists — overwrite?");
                Action::Confirm { prompt, default: false }
            },
            Stage::Preview => Action::Confirm { prompt: owned("Write it?"), default: true },
            Stage::Write => Action::Write {
                path: owned(self.target.as_str()),
                text: self.rendered(&self.tokens),
            },
            Stage::Over => Action::Stop,
        }
    }

    fn rendered(&self, tokens: &Vec<OrgToken>) -> (r: String)
        ensures
            r@ == config_text(seq![self.root@], entries(tokens@)),
    {
        let mut roots: Vec<String> = Vec::new();
        roots.push(owned(self.root.as_str()));
        assert(names(roots@) =~= seq![self.root@]);
        render_config(roots.as_slice(), tokens)
    }

    fn show_preview(&mut self)
        ensures
            final(self)@ == old(self)@.previewed(),
            final(self).wf(),
    {
        let shown = mask(&self.tokens);
        let mut s = owned("\nWill write ");
        s.append(self.target.as_str());
        s.append(" (mode 0600):\n\n");
        s.append(self.rendered(&shown).as_str());
        s.append("\n");
        self.said = s;
        self.stage = Stage::Preview;
    }

    fn go(&mut self, stage: Stage, said: String)
        requires
            !at_an_org(stage) || old(self).at < old(self).orgs@.len(),
            !(stage is Offer),
        ensures
            final(self)@ == old(self)@.moved(stage, said@),
            final(self).wf(),
    {
        self.stage = stage;
        self.said = said;
    }

    fn go_to_next_org(&mut self, said: String)
        requires
            old(self).at < old(self).orgs@.len(),
        ensures
            final(self)@ == old(self)@.next_org(said@),
            final(self).wf(),
    {
        assert(names(self.orgs@).len() == self.orgs@.len());
        if self.orgs.len() - self.at > 1 {
            self.at = self.at + 1;
            self.stage = Stage::OrgOffer;
        } else {
            self.stage = Stage::Target;
        }
        self.said = said;
    }

    fn store(&mut self)
        requires
            old(self).at < old(self).orgs@.len(),
        ensures
            final(self)@ == old(self)@.stored(),
            final(self).at == old(self).at,
            final(self).orgs == old(self).orgs,
    {
        let ghost was = self.tokens@;
        let entry = OrgToken {
            org: owned(self.orgs[self.at].as_str()),
            token: owned(self.token.as_str()),
        };
        self.tokens.push(entry);
        assert(entries(self.tokens@) =~= entries(was).push(
            Entry { org: entry.org@, token: entry.token@ },
        ));
    }

    fn take_found(&mut self, found: Vec<RunnerInfo>)
        ensures
            final(self)@ == after_discovery(old(self)@, found@),
            final(self).wf(),
    {
        let orgs = orgs_found(found.as_slice());
        proof {
            let s = orgs_of(found@).to_set();
            listing_is_unique(names(orgs@), listing(s), s);
            assert(names(orgs@).len() == orgs@.len());
        }
        let said = say_found(self.root.as_str(), found.len(), &orgs);
        assert(said@ == found_text(self.root@, found@, names(orgs@)));
        self.stage = if orgs.len() == 0 {
            Stage::Target
        } else {
            Stage::Offer
        };
        self.said = said;
        self.found = found;
        self.orgs = orgs;
    }

    fn take_reply(&mut self, reply: Reply<ApiRunner>)
        requires
            old(self).wf(),
            old(self).stage is Check,
        ensures
            final(self)@ == advance(old(self)@, Answer::Asked(reply)),
            final(self).wf(),
    {
        let org = owned(self.orgs[self.at].as_str());
        match list_org_runners(org.as_str(), reply) {
            Ok(api) => {
                let ids = ids_of(&self.found, org.as_str());
                let said = say_valid(&api, &ids);
                self.store();
                self.go_to_next_org(said);
            },
            Err(e) => {
                let mut said = owned("    ✗ ");
                said.append(e.text().as_str());
                said.append("\n");
                assert(said@ == refused_text(org@, reply));
                self.go(Stage::StoreAnyway, said);
            },
        }
    }

    fn take_text(&mut self, typed: String)
        requires
            old(self).wf(),
        ensures
            final(self)@ == advance(old(self)@, Answer::Typed(typed)),
            final(self).wf(),
    {
        match self.stage {
            Stage::Root => {
                self.root = typed;
                self.go(Stage::Discover, empty());
            },
            Stage::Paste => {
                let chars = chars_of(typed.as_str());
                let t = trimmed(chars.as_slice());
                if t.len() == 0 {
                    self.go_to_next_org(empty());
                } else {
                    self.token = string_of(t);
                    self.go(Stage::Check, empty());
                }
            },
            _ => {},
        }
    }

    fn take_consent(&mut self, yes: bool)
        requires
            old(self).wf(),
        ensures
            final(self)@ == advance(old(self)@, Answer::Confirmed(yes)),
            final(self).wf(),
    {
        match self.stage {
            Stage::Proceed => if yes {
                self.go(Stage::Root, empty());
            } else {
                self.go(Stage::Over, owned("aborted.\n"));
            },
            Stage::Offer => if yes {
                self.at = 0;
                self.go(Stage::OrgOffer, empty());
            } else {
                self.go(Stage::Target, empty());
            },
            Stage::OrgOffer => if yes {
                self.go(Stage::Paste, empty());
            } else {
                self.go_to_next_org(empty());
            },
            Stage::StoreAnyway => {
                if yes {
                    self.store();
                }
                self.go_to_next_org(empty());
            },
            Stage::Overwrite => if yes {
                self.show_preview();
            } else {
                self.go(Stage::Over, owned("kept existing config; nothing written.\n"));
            },
            Stage::Preview => if yes {
                self.go(Stage::Write, empty());
            } else {
                self.go(Stage::Over, owned("aborted; nothing written.\n"));
            },
            _ => {},
        }
    }

    /// Take an answer.
    pub fn step(&mut self, answer: Answer)
        requires
            old(self).wf(),
        ensures
            final(self)@ == advance(old(self)@, answer),
            final(self).wf(),
    {
        match answer {
            Answer::Confirmed(yes) => self.take_consent(yes),
            Answer::Typed(typed) => self.take_text(typed),
            Answer::Discovered(found) => {
                if self.stage == Stage::Discover {
                    self.take_found(found);
                }
            },
            Answer::Asked(reply) => {
                if self.stage == Stage::Check {
                    self.take_reply(reply);
                }
            },
            Answer::Exists(there) => {
                if self.stage == Stage::Target {
                    if there {
                        self.go(Stage::Overwrite, empty());
                    } else {
                        self.show_preview();
                    }
                }
            },
            Answer::Written => {
                if self.stage == Stage::Write {
                    let mut said = owned("✓ wrote ");
                    said.append(self.target.as_str());
                    said.append(
                        "\n\nNext: build + enable the collector —\n  systemctl --user enable --now ghr-stats-collector.service\n",
                    );
                    self.go(Stage::Over, said);
                }
            },
        }
    }
}

// ---------------------------------------------------------------------------
// What the dialogue keeps to
// ---------------------------------------------------------------------------

/// The file is written only after a yes to the very text that was shown.
pub proof fn writing_needs_consent(s: Session, a: Answer)
    ensures
        s.wants() is Write <==> s.stage is Write,
        advance(s, a).wants() is Write && !(s.wants() is Write) ==> s.stage is Preview && a
            == Answer::Confirmed(true),
        advance(s, a).stage is Preview && !(s.stage is Preview) ==> advance(s, a).said
            == s.preview(),
        s.stage is Preview && a == Answer::Confirmed(true) ==> advance(s, a).wants()
            == (Want::Write { path: s.target, text: config_text(seq![s.root], s.tokens) }),
{
}

/// A file that is there is overwritten only after a yes of its own.
pub proof fn overwriting_needs_consent(s: Session, a: Answer)
    ensures
        s.stage is Target && a == Answer::Exists(true) ==> advance(s, a).stage is Overwrite,
        s.stage is Overwrite && advance(s, a).stage is Preview ==> a == Answer::Confirmed(true),
{
}

/// GitHub is asked only with a token that was typed for the org, after a yes to
/// giving one.
pub proof fn asking_needs_consent(s: Session, a: Answer)
    ensures
        s.wants() is Ask <==> s.stage is Check,
        advance(s, a).wants() is Ask && !(s.wants() is Ask) ==> s.stage is Paste && (a matches
            Answer::Typed(t) && advance(s, a).token == trim(t@)),
        advance(s, a).stage is Paste && !(s.stage is Paste) ==> s.stage is OrgOffer && a
            == Answer::Confirmed(true),
{
}

/// A no at the start, and the end, are final.
pub proof fn the_end_is_final(s: Session, a: Answer)
    ensures
        s.stage is Over ==> advance(s, a) == s,
        s.stage is Proceed && a == Answer::Confirmed(false) ==> advance(s, a).stage is Over,
{
}

/// Two dialogues that differ at most in what their tokens are.
pub open spec fn twins(s: Session, t: Session) -> bool {
    &&& s.stage == t.stage
    &&& s.root == t.root
    &&& s.found == t.found
    &&& s.orgs == t.orgs
    &&& s.at == t.at
    &&& masked(s.tokens) == masked(t.tokens)
    &&& s.target == t.target
    &&& s.said == t.said
}

/// No token is ever shown: dialogues that differ only in their tokens say the same,
/// prompt for the same, and stay alike, whatever is answered. Only the call to
/// GitHub and the file that is written hold a token.
pub proof fn tokens_are_never_shown(s: Session, t: Session, a: Answer)
    requires
        twins(s, t),
    ensures
        twins(advance(s, a), advance(t, a)),
        !(s.wants() is Ask) && !(s.wants() is Write) ==> s.wants() == t.wants(),
{
    let x = Entry { org: s.org(), token: s.token };
    let y = Entry { org: t.org(), token: t.token };
    assert(masked(s.tokens.push(x)) =~= masked(s.tokens).push(Entry { org: x.org, token: "***"@ }));
    assert(masked(t.tokens.push(y)) =~= masked(t.tokens).push(Entry { org: y.org, token: "***"@ }));
}

/// What is typed for a token is not shown either: any two tokens that are not blank
/// lead to dialogues that are alike.
pub proof fn typed_tokens_are_not_shown(s: Session, one: String, other: String)
    requires
        s.stage is Paste,
        trim(one@).len() > 0,
        trim(other@).len() > 0,
    ensures
        twins(advance(s, Answer::Typed(one)), advance(s, Answer::Typed(other))),
{
}

/// The dialogue goes on with the next org, or with the file after the last; what was
/// found, and where to write, stay.
pub open spec fn goes_on(s: Session, t: Session) -> bool {
    &&& if s.at + 1 < s.orgs.len() {
        t.stage is OrgOffer && t.at == s.at + 1
    } else {
        t.stage is Target
    }
    &&& t.root == s.root && t.found == s.found && t.orgs == s.orgs && t.target == s.target
}

/// Where each answer leads: a yes at the start to the root, what is found there to
/// the offer of tokens or, where there is nothing, to the file; each org is offered
/// in turn, and a token is kept where GitHub took it, or where it is to be kept
/// anyway; then the file is shown, and written.
pub proof fn each_answer_leads_on(s: Session, a: Answer)
    ensures
        ({
            let t = advance(s, a);
            match (s.stage, a) {
                (Stage::Proceed, Answer::Confirmed(yes)) => if yes {
                    t.stage is Root
                } else {
                    t.stage is Over
                },
                (Stage::Root, Answer::Typed(p)) => t.stage is Discover && t.root == p@,
                (Stage::Discover, Answer::Discovered(found)) => {
                    &&& t.found == found@
                    &&& t.root == s.root && t.tokens == s.tokens && t.target == s.target
                    &&& t.stage is Offer || t.stage is Target
                    &&& t.stage is Offer <==> t.orgs.len() > 0
                },
                (Stage::Offer, Answer::Confirmed(yes)) => if yes {
                    t.stage is OrgOffer && t.at == 0 && t.orgs == s.orgs
                } else {
                    t.stage is Target && t.tokens == s.tokens
                },
                (Stage::OrgOffer, Answer::Confirmed(yes)) => if yes {
                    t.stage is Paste && t.at == s.at
                } else {
                    goes_on(s, t) && t.tokens == s.tokens
                },
                (Stage::Paste, Answer::Typed(p)) => if trim(p@) == Seq::<char>::empty() {
                    goes_on(s, t) && t.tokens == s.tokens
                } else {
                    t.stage is Check && t.token == trim(p@) && t.at == s.at && t.tokens == s.tokens
                },
                (Stage::Check, Answer::Asked(reply)) => if reply is Listed {
                    goes_on(s, t) && t.tokens == s.tokens.push(
                        Entry { org: s.orgs[s.at], token: s.token },
                    )
                } else {
                    t.stage is StoreAnyway && t.tokens == s.tokens && t.token == s.token && t.at
                        == s.at
                },
                (Stage::StoreAnyway, Answer::Confirmed(yes)) => goes_on(s, t) && t.tokens == (
                if yes {
                    s.tokens.push(Entry { org: s.orgs[s.at], token: s.token })
                } else {
                    s.tokens
                }),
                (Stage::Target, Answer::Exists(there)) => (if there {
                    t.stage is Overwrite
                } else {
                    t.stage is Preview
                }) && t.tokens == s.tokens && t.target == s.target && t.root == s.root,
                (Stage::Overwrite, Answer::Confirmed(yes)) => (if yes {
                    t.stage is Preview
                } else {
                    t.stage is Over
                }) && t.tokens == s.tokens && t.target == s.target && t.root == s.root,
                (Stage::Preview, Answer::Confirmed(yes)) => (if yes {
                    t.stage is Write
                } else {
                    t.stage is Over
                }) && t.tokens == s.tokens && t.target == s.target && t.root == s.root,
                (Stage::Write, Answer::Written) => t.stage is Over,
                _ => t == s,
            }
        }),
{
    if let Answer::Typed(p) = a {
        if trim(p@).len() == 0 {
            assert(trim(p@) =~= Seq::<char>::empty());
        }
    }
}

/// The runners that are known of an org are those that were found of it.
pub proof fn known_runners_were_found(found: Seq<RunnerInfo>, org: Seq<char>, id: i64)
    ensures
        local_ids(found, org).contains(id) <==> exists|i: int|
            0 <= i < found.len() && (#[trigger] found[i]).org@ == org && found[i].agent_id == id,
    decreases found.len(),
{
    if found.len() > 0 {
        let init = found.drop_last();
        known_runners_were_found(init, org, id);
        assert(found[found.len() - 1] == found.last());
        if local_ids(init, org).contains(id) {
            let i = choose|i: int|
                0 <= i < init.len() && (#[trigger] init[i]).org@ == org && init[i].agent_id == id;
            assert(found[i].org@ == org && found[i].agent_id == id);
        }
        if exists|i: int|
            0 <= i < found.len() && (#[trigger] found[i]).org@ == org && found[i].agent_id == id {
            let i = choose|i: int|
                0 <= i < found.len() && (#[trigger] found[i]).org@ == org && found[i].agent_id
                    == id;
            if i < init.len() {
                assert(init[i].org@ == org);
            }
        }
    }
}

/// Each org's token is written under its name, the last that was given for it, and
/// nothing else is.
pub proof fn tokens_are_written_by_org(v: Seq<Entry>)
    ensures
        forall|i: int|
            0 <= i < v.len() && (forall|j: int| i < j < v.len() ==> (#[trigger] v[j]).org
                != v[i].org) ==> token_table(v).dom().contains((#[trigger] v[i]).org)
                && token_table(v)[v[i].org] == Toml::Text(v[i].token),
        forall|org: Seq<char>| #[trigger]
            token_table(v).dom().contains(org) ==> exists|i: int|
                0 <= i < v.len() && (#[trigger] v[i]).org == org,
    decreases v.len(),
{
    if v.len() > 0 {
        let init = v.drop_last();
        tokens_are_written_by_org(init);
        assert(v[v.len() - 1] == v.last());
        assert forall|i: int|
            0 <= i < v.len() && (forall|j: int| i < j < v.len() ==> (#[trigger] v[j]).org
                != v[i].org) implies token_table(v).dom().contains((#[trigger] v[i]).org)
            && token_table(v)[v[i].org] == Toml::Text(v[i].token) by {
            if i < init.len() {
                assert(init[i] == v[i]);
                assert(v[v.len() - 1].org != v[i].org);
                assert forall|j: int| i < j < init.len() implies (#[trigger] init[j]).org
                    != init[i].org by {
                    assert(init[j] == v[j]);
                }
            }
        }
        assert forall|org: Seq<char>| #[trigger] token_table(v).dom().contains(org) implies exists|
            i: int,
        | 0 <= i < v.len() && (#[trigger] v[i]).org == org by {
            if org == v.last().org {
                assert(v[v.len() - 1].org == org);
            } else {
                assert(token_table(init).dom().contains(org));
                let i = choose|i: int| 0 <= i < init.len() && (#[trigger] init[i]).org == org;
                assert(v[i].org == org);
            }
        }
    }
}

/// The file goes where it was told to; else below the directory that the environment
/// names; else below the home directory.
pub proof fn the_target_is_where_it_was_told(
    explicit: Option<Seq<char>>,
    xdg: Option<Seq<char>>,
    home: Option<Seq<char>>,
)
    ensures
        explicit matches Some(p) ==> target_path(explicit, xdg, home) == p,
        explicit is None ==> (xdg matches Some(base) ==> target_path(explicit, xdg, home) == joined(
            base,
            "ghr-stats/config.toml"@,
        )),
        explicit is None && xdg is None ==> (home matches Some(h) ==> target_path(
            explicit,
            xdg,
            home,
        ) == joined(joined(h, ".config"@), "ghr-stats/config.toml"@)),
{
}

/// What is said of what was found: how many runners, of how many orgs, and which.
pub proof fn what_was_found_is_counted(
    root: Seq<char>,
    found: Seq<RunnerInfo>,
    orgs: Seq<Seq<char>>,
)
    ensures
        found.len() == 0 ==> found_text(root, found, orgs) == "⚠ no runners found under "@ + root
            + " (no .runner files).\n"@,
        found.len() > 0 ==> found_text(root, found, orgs) == "found "@ + dec(found.len() as int)
            + " runners across "@ + dec(orgs.len() as int) + " orgs: "@ + comma_list(orgs) + "\n"@,
{
}

/// Names in a list stand in their order, with a comma and a space between them.
pub proof fn names_are_listed_in_order(v: Seq<Seq<char>>, last: Seq<char>)
    ensures
        comma_list(Seq::<Seq<char>>::empty()) == Seq::<char>::empty(),
        comma_list(seq![last]) == last,
        v.len() > 0 ==> comma_list(v.push(last)) == comma_list(v) + ", "@ + last,
{
    assert(v.push(last).drop_last() =~= v);
}

/// What is said of a token that GitHub took: how many runners it lists, and how many
/// of those that were found here are among them.
pub proof fn a_taken_token_is_counted(api: Seq<ApiRunner>, local: Set<i64>)
    ensures
        valid_text(api, local) == "    ✓ valid — "@ + dec(api.len() as int) + " runners, matched "@
            + dec(
            Set::new(|i: int| 0 <= i < api.len() && local.contains(api[i].id)).len() as int,
        ) + "/"@ + dec(local.len() as int) + " local\n"@,
{
    crate::github::laws::matches_are_the_known(api, local);
}

/// The file holds the roots and, where tokens were given, the tokens behind them; it
/// holds neither where one of them cannot be written.
pub proof fn the_file_holds_what_was_given(roots: Seq<Seq<char>>, tokens: Seq<Entry>)
    ensures
        ({
            let head = toml_printed(roots_doc(roots));
            let tail = toml_printed(tokens_doc(tokens));
            let usual = "\n[intervals]\nlocal_secs = 5\napi_secs = 60\n"@;
            &&& head is Err ==> settings(roots, tokens) is None
            &&& head is Ok && tokens.len() == 0 ==> settings(roots, tokens) == Some(
                head->Ok_0 + usual,
            )
            &&& head is Ok && tokens.len() > 0 && tail is Ok ==> settings(roots, tokens) == Some(
                head->Ok_0 + usual + "\n"@ + tail->Ok_0,
            )
            &&& head is Ok && tokens.len() > 0 && tail is Err ==> settings(roots, tokens) is None
        }),
        ({
            &&& roots_doc(roots).dom().contains("runner_roots"@)
            &&& roots_doc(roots)["runner_roots"@] matches Toml::List(l)
            &&& l.len() == roots.len()
            &&& forall|i: int| 0 <= i < roots.len() ==> l[i] == Toml::Text(#[trigger] roots[i])
        }),
        ({
            &&& tokens_doc(tokens).dom().contains("github"@)
            &&& tokens_doc(tokens)["github"@] matches Toml::Table(g)
            &&& g.dom().contains("tokens"@)
            &&& g["tokens"@] == Toml::Table(token_table(tokens))
        }),
{
}

} // verus!
