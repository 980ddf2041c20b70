//! Runtime configuration: its shape, its defaults, and which token is used for an
//! org. Every setting has a default, so the tool runs with no file at all.

use std::sync::Arc;

use vstd::prelude::*;
use vstd::string::*;

use crate::error::{config_error, Error};
use crate::paths::{Places, Scope};
use crate::path::joined;
use crate::store::rows::{find_row, first_where};
use crate::text::{lists, names, owned, same};

pub mod document;
pub mod laws;
pub mod persist;

use document::{
    table_keys, table_model, table_take, toml_model, toml_models, toml_parse, toml_parsed,
    value_into_list, value_into_table, value_is_time, Toml,
};

verus! {

/// A token: read with [`Secret::expose`] alone.
pub struct Secret {
    value: String,
}

impl Secret {
    /// The characters of the token.
    pub closed spec fn text(&self) -> Seq<char> {
        self.value@
    }

    pub fn new(value: String) -> (r: Secret)
        ensures
            r.text() == value@,
    {
        Secret { value }
    }

    /// The token itself.
    pub fn expose(&self) -> (r: &str)
        ensures
            r@ == self.text(),
    {
        self.value.as_str()
    }
}

/// The configuration.
pub struct Config {
    /// Path of the database.
    pub db_path: String,
    /// Roots that are scanned for runner install directories.
    pub runner_roots: Vec<String>,
    /// Orgs to ask GitHub about. Empty: those of the runners found.
    pub orgs: Vec<String>,
    pub intervals: Intervals,
    pub github: GithubConfig,
    pub metrics: MetricsConfig,
}

pub struct Intervals {
    /// Cadence of local sampling.
    pub local_secs: u64,
    /// Cadence of asking GitHub.
    pub api_secs: u64,
}

pub struct GithubConfig {
    /// Token for any org without one of its own.
    pub token: Option<Secret>,
    /// Tokens by org.
    pub tokens: Vec<(String, Secret)>,
}

/// Metrics export: two independent ways, both off unless switched on.
pub struct MetricsConfig {
    pub pull: PullConfig,
    pub push: PushConfig,
}

/// An endpoint that scrapers read.
pub struct PullConfig {
    pub enabled: bool,
    /// Bind address. Loopback unless set otherwise.
    pub addr: String,
}

/// A sink that metrics are posted to.
pub struct PushConfig {
    pub enabled: bool,
    /// Full URL of the sink.
    pub endpoint: String,
    /// Value of the `Authorization` header.
    pub auth: Option<Secret>,
    pub interval_secs: u64,
}

// ---------------------------------------------------------------------------
// Copies
// ---------------------------------------------------------------------------

impl Clone for Secret {
    fn clone(&self) -> (r: Self)
        ensures
            r == *self,
    {
        Secret { value: self.value.clone() }
    }
}

fn copy_secret(s: &Option<Secret>) -> (r: Option<Secret>)
    ensures
        r == *s,
{
    match s {
        Some(v) => Some(v.clone()),
        None => None,
    }
}

fn copy_texts(v: &Vec<String>) -> (r: Vec<String>)
    ensures
        r@ == v@,
{
    let mut out: Vec<String> = Vec::new();
    let mut i: usize = 0;
    while i < v.len()
        invariant
            i <= v@.len(),
            out@ == v@.take(i as int),
        decreases v@.len() - i,
    {
        out.push(v[i].clone());
        assert(out@ =~= v@.take(i + 1));
        i = i + 1;
    }
    assert(v@.take(i as int) =~= v@);
    out
}

impl Clone for Intervals {
    fn clone(&self) -> (r: Self)
        ensures
            r == *self,
    {
        Intervals { local_secs: self.local_secs, api_secs: self.api_secs }
    }
}

impl Clone for GithubConfig {
    fn clone(&self) -> (r: Self)
        ensures
            r.token == self.token,
            r.tokens@ == self.tokens@,
    {
        let mut tokens: Vec<(String, Secret)> = Vec::new();
        let mut i: usize = 0;
        while i < self.tokens.len()
            invariant
                i <= self.tokens@.len(),
                tokens@ == self.tokens@.take(i as int),
            decreases self.tokens@.len() - i,
        {
            tokens.push((self.tokens[i].0.clone(), self.tokens[i].1.clone()));
            assert(tokens@ =~= self.tokens@.take(i + 1));
            i = i + 1;
        }
        assert(self.tokens@.take(i as int) =~= self.tokens@);
        GithubConfig { token: copy_secret(&self.token), tokens }
    }
}

impl Clone for PullConfig {
    fn clone(&self) -> (r: Self)
        ensures
            r == *self,
    {
        PullConfig { enabled: self.enabled, addr: self.addr.clone() }
    }
}

impl Clone for PushConfig {
    fn clone(&self) -> (r: Self)
        ensures
            r == *self,
    {
        PushConfig {
            enabled: self.enabled,
            endpoint: self.endpoint.clone(),
            auth: copy_secret(&self.auth),
            interval_secs: self.interval_secs,
        }
    }
}

impl Clone for MetricsConfig {
    fn clone(&self) -> (r: Self)
        ensures
            r == *self,
    {
        MetricsConfig { pull: self.pull.clone(), push: self.push.clone() }
    }
}

impl Clone for Config {
    fn clone(&self) -> (r: Self)
        ensures
            r.db_path == self.db_path,
            r.runner_roots@ == self.runner_roots@,
            r.orgs@ == self.orgs@,
            r.intervals == self.intervals,
            r.github.token == self.github.token,
            r.github.tokens@ == self.github.tokens@,
            r.metrics == self.metrics,
    {
        Config {
            db_path: self.db_path.clone(),
            runner_roots: copy_texts(&self.runner_roots),
            orgs: copy_texts(&self.orgs),
            intervals: self.intervals.clone(),
            github: self.github.clone(),
            metrics: self.metrics.clone(),
        }
    }
}

// ---------------------------------------------------------------------------
// Defaults
// ---------------------------------------------------------------------------

/// The default database: the one of the user's scope.
pub fn db_path(env: &Places) -> (r: String)
    ensures
        r@ == joined(Scope::of(env.uid).data_at(*env), "ghr-stats.db"@),
{
    Scope::of_uid(env.uid).db_path(env)
}

/// No root is assumed.
pub fn runner_roots() -> (r: Vec<String>)
    ensures
        r@.len() == 0,
{
    Vec::new()
}

pub fn local_secs() -> (r: u64)
    ensures
        r == 5,
{
    5
}

pub fn api_secs() -> (r: u64)
    ensures
        r == 60,
{
    60
}

/// The metrics endpoint binds to loopback.
pub fn metrics_addr() -> (r: String)
    ensures
        r@ == "127.0.0.1:9477"@,
{
    owned("127.0.0.1:9477")
}

pub fn push_interval() -> (r: u64)
    ensures
        r == 30,
{
    30
}

impl Intervals {
    /// For how long what GitHub said counts as current: three polls.
    pub open spec fn max_age(&self) -> int {
        if 3 * self.api_secs <= u64::MAX {
            3 * self.api_secs
        } else {
            u64::MAX as int
        }
    }

    /// For how long what GitHub said counts as current, in seconds.
    pub fn api_max_age(&self) -> (r: u64)
        ensures
            r == self.max_age(),
    {
        if self.api_secs <= u64::MAX / 3 {
            3 * self.api_secs
        } else {
            u64::MAX
        }
    }
}

impl Default for Intervals {
    fn default() -> (r: Self)
        ensures
            r.local_secs == 5,
            r.api_secs == 60,
    {
        Intervals { local_secs: local_secs(), api_secs: api_secs() }
    }
}

impl Default for GithubConfig {
    fn default() -> (r: Self)
        ensures
            r.token is None,
            r.tokens@.len() == 0,
    {
        GithubConfig { token: None, tokens: Vec::new() }
    }
}

impl Default for PullConfig {
    fn default() -> (r: Self)
        ensures
            !r.enabled,
            r.addr@ == "127.0.0.1:9477"@,
    {
        PullConfig { enabled: false, addr: metrics_addr() }
    }
}

impl Default for PushConfig {
    fn default() -> (r: Self)
        ensures
            !r.enabled,
            r.endpoint@.len() == 0,
            r.auth is None,
            r.interval_secs == 30,
    {
        PushConfig {
            enabled: false,
            endpoint: String::new(),
            auth: None,
            interval_secs: push_interval(),
        }
    }
}

impl Default for MetricsConfig {
    fn default() -> (r: Self)
        ensures
            !r.pull.enabled,
            r.pull.addr@ == "127.0.0.1:9477"@,
            !r.push.enabled,
            r.push.endpoint@.len() == 0,
            r.push.auth is None,
            r.push.interval_secs == 30,
    {
        MetricsConfig { pull: PullConfig::default(), push: PushConfig::default() }
    }
}

/// Which entries are of an org.
pub open spec fn token_of(tokens: Seq<(String, Secret)>, org: Seq<char>) -> spec_fn(int) -> bool {
    |i: int| tokens[i].0@ == org
}

/// The token of an org: its own, else the environment's where that is not empty,
/// else the fallback.
pub open spec fn token_for(g: GithubConfig, variable: Option<&str>, org: Seq<char>) -> Option<
    Seq<char>,
> {
    let k = first_where(token_of(g.tokens@, org), g.tokens@.len() as int);
    if k < g.tokens@.len() {
        Some(g.tokens@[k].1.text())
    } else if variable is Some && variable->0@.len() > 0 {
        Some(variable->0@)
    } else {
        match g.token {
            Some(t) => Some(t.text()),
            None => None,
        }
    }
}

impl Config {
    /// What every setting is where no file says otherwise.
    pub open spec fn is_default(&self, env: Places) -> bool {
        &&& self.db_path@ == joined(Scope::of(env.uid).data_at(env), "ghr-stats.db"@)
        &&& self.runner_roots@.len() == 0
        &&& self.orgs@.len() == 0
        &&& self.intervals.local_secs == 5
        &&& self.intervals.api_secs == 60
        &&& self.github.token is None
        &&& self.github.tokens@.len() == 0
        &&& !self.metrics.pull.enabled
        &&& self.metrics.pull.addr@ == "127.0.0.1:9477"@
        &&& !self.metrics.push.enabled
        &&& self.metrics.push.endpoint@.len() == 0
        &&& self.metrics.push.auth is None
        &&& self.metrics.push.interval_secs == 30
    }

    /// The defaults.
    pub fn defaults(env: &Places) -> (r: Config)
        ensures
            r.is_default(*env),
    {
        Config {
            db_path: db_path(env),
            runner_roots: runner_roots(),
            orgs: Vec::new(),
            intervals: Intervals::default(),
            github: GithubConfig::default(),
            metrics: MetricsConfig::default(),
        }
    }

    /// The token to use for an org. `variable` is what the environment names.
    pub fn github_token_for(&self, variable: Option<&str>, org: &str) -> (r: Option<String>)
        ensures
            r is Some == (token_for(self.github, variable, org@) is Some),
            r matches Some(t) ==> token_for(self.github, variable, org@) == Some(t@),
    {
        let tokens = &self.github.tokens;
        let hit = |i: usize| -> (b: bool)
            requires
                i < tokens@.len(),
            ensures
                b == (tokens@[i as int].0@ == org@),
        {
            same(tokens[i].0.as_str(), org)
        };
        let k: usize = find_row(tokens.len(), hit, Ghost(token_of(tokens@, org@)));
        if k < tokens.len() {
            return Some(owned(tokens[k].1.expose()));
        }
        match variable {
            Some(t) => {
                if !t.is_empty() {
                    return Some(owned(t));
                }
            },
            None => {},
        }
        match &self.github.token {
            Some(t) => Some(owned(t.expose())),
            None => None,
        }
    }

    /// What reading the configuration comes to. No file, or one that may not be
    /// read, gives the defaults; any other failure is an error that names the file.
    pub fn load(env: &Places, path: &str, found: ConfigFile) -> (r: Result<Config, Error>)
        ensures
            match found {
                ConfigFile::Absent | ConfigFile::Denied => r matches Ok(c) && c.is_default(*env),
                ConfigFile::Parsed(c) => r == Ok::<Config, Error>(c),
                ConfigFile::Malformed(e) => r matches Err(err) && err@ == config_error(
                    "parsing "@ + path@ + ": "@ + e@,
                ),
                ConfigFile::Unreadable(e) => r matches Err(err) && err@ == config_error(
                    "reading "@ + path@ + ": "@ + e@,
                ),
            },
    {
        match found {
            ConfigFile::Absent | ConfigFile::Denied => Ok(Config::defaults(env)),
            ConfigFile::Parsed(c) => Ok(c),
            ConfigFile::Malformed(e) => {
                let mut m = owned("parsing ");
                m.append(path);
                m.append(": ");
                m.append(e.as_str());
                Err(Error::Config(m))
            },
            ConfigFile::Unreadable(e) => {
                let mut m = owned("reading ");
                m.append(path);
                m.append(": ");
                m.append(e.as_str());
                Err(Error::Config(m))
            },
        }
    }
}

/// What was found where the configuration should be.
pub enum ConfigFile {
    /// No file.
    Absent,
    /// A file that this user may not read.
    Denied,
    /// A file that could not be read, and why.
    Unreadable(String),
    /// A file that does not parse, and why.
    Malformed(String),
    /// A configuration.
    Parsed(Config),
}

/// An org's own token wins over the environment and the fallback; an empty
/// variable counts as none.
pub proof fn own_token_takes_precedence(
    g: GithubConfig,
    variable: Option<&str>,
    org: Seq<char>,
    k: int,
)
    requires
        0 <= k < g.tokens@.len(),
        g.tokens@[k].0@ == org,
    ensures
        token_for(g, variable, org) is Some,
        token_for(g, variable, org) == token_for(g, None, org),
{
    let p = token_of(g.tokens@, org);
    crate::store::rows::first_where_is_least(p, g.tokens@.len() as int);
    assert(p(k));
}

/// A configuration that can be swapped: a reader takes the current one, and a
/// swap is seen by every later reader; what was taken before stays as it was.
/// Threads share one behind a lock around it. That a swap by one of them is seen by
/// the others rests on that lock, and is left unsaid here.
pub struct SharedConfig {
    current: Arc<Config>,
}

impl SharedConfig {
    /// The current configuration.
    pub closed spec fn now(&self) -> Config {
        *self.current
    }

    pub fn new(cfg: Config) -> (r: Self)
        ensures
            r.now() == cfg,
    {
        SharedConfig { current: Arc::new(cfg) }
    }

    /// The current configuration, shared.
    pub fn snapshot(&self) -> (r: Arc<Config>)
        ensures
            *r == self.now(),
    {
        Arc::clone(&self.current)
    }

    /// Swap in a new configuration.
    pub fn store(&mut self, cfg: Config)
        ensures
            final(self).now() == cfg,
    {
        self.current = Arc::new(cfg);
    }
}

// ---------------------------------------------------------------------------
// Peeking
// ---------------------------------------------------------------------------

/// What a text says of tokens: the orgs that have one, and whether there is a
/// fallback.
pub struct Peek {
    pub orgs: Set<Seq<char>>,
    pub fallback: bool,
}

/// The key under which a date-time stands where a table is read.
pub const TIME_KEY: &'static str = "$__toml_private_datetime";

/// The keys of a value that is read as a map: those of a table, or the one of a
/// date-time.
pub open spec fn keys_in(v: Toml) -> Option<Set<Seq<char>>> {
    match v {
        Toml::Table(t) => Some(t.dom()),
        Toml::Time(_) => Some(set![TIME_KEY@]),
        _ => None,
    }
}

/// The orgs with a token, from what is written for them, if anything.
pub open spec fn orgs_in(tokens: Option<Toml>) -> Option<Set<Seq<char>>> {
    match tokens {
        Some(v) => keys_in(v),
        None => Some(Set::empty()),
    }
}

/// What is written for the tokens by org, and whether a fallback is, where `github`
/// is read as a record: by name in a table, by position in a list. A date-time has
/// neither.
pub open spec fn github_fields(v: Toml) -> Option<(Option<Toml>, bool)> {
    match v {
        Toml::Table(g) => Some(
            (
                if g.dom().contains("tokens"@) {
                    Some(g["tokens"@])
                } else {
                    None
                },
                g.dom().contains("token"@),
            ),
        ),
        Toml::List(l) => Some(
            (
                if l.len() > 0 {
                    Some(l[0])
                } else {
                    None
                },
                l.len() > 1,
            ),
        ),
        Toml::Time(_) => Some((None, false)),
        _ => None,
    }
}

/// The tokens by org of a document, and whether it has a fallback: `None` where
/// `github` is no record, or its tokens are no map.
pub open spec fn peek_in(m: Map<Seq<char>, Toml>) -> Option<Peek> {
    if m.dom().contains("github"@) {
        match github_fields(m["github"@]) {
            None => None,
            Some((tokens, fallback)) => match orgs_in(tokens) {
                None => None,
                Some(orgs) => Some(Peek { orgs, fallback }),
            },
        }
    } else {
        Some(Peek { orgs: Set::empty(), fallback: false })
    }
}

/// The tokens by org of a text, and whether it has a fallback: `None` where the
/// text does not parse, or the document does not say.
pub open spec fn peek(text: Seq<char>) -> Option<Peek> {
    match toml_parsed(text) {
        Err(_) => None,
        Ok(m) => peek_in(m),
    }
}

/// The keys of a value that is read as a map, in text order.
fn map_keys(v: toml::Value) -> (r: Option<Vec<String>>)
    ensures
        r is Some == (keys_in(toml_model(v)) is Some),
        r matches Some(keys) ==> lists(names(keys@), keys_in(toml_model(v))->0),
{
    match value_into_table(v) {
        Ok(t) => {
            let keys = table_keys(&t);
            proof {
                let s = table_model(t).dom();
                let v = names(keys@);
                assert forall|x: Seq<char>| #[trigger] s.contains(x) <==> v.contains(x) by {
                    if v.contains(x) {
                        let i = choose|i: int| 0 <= i < v.len() && v[i] == x;
                        assert(s.contains(names(keys@)[i]));
                    }
                }
            }
            Some(keys)
        },
        Err(other) => if value_is_time(&other) {
            let mut keys: Vec<String> = Vec::new();
            keys.push(owned(TIME_KEY));
            proof {
                let v = names(keys@);
                assert(v =~= seq![TIME_KEY@]);
                assert(v[0] == TIME_KEY@);
            }
            Some(keys)
        } else {
            None
        },
    }
}

/// What is written for the tokens by org, and whether a fallback is.
fn read_github(v: toml::Value) -> (r: Option<(Option<toml::Value>, bool)>)
    ensures
        r is Some == (github_fields(toml_model(v)) is Some),
        r matches Some(f) ==> {
            let fields = github_fields(toml_model(v))->0;
            &&& f.0 is Some == (fields.0 is Some)
            &&& f.0 matches Some(t) ==> fields.0 == Some(toml_model(t))
            &&& f.1 == fields.1
        },
{
    match value_into_table(v) {
        Ok(github) => {
            let mut github = github;
            let tokens = table_take(&mut github, "tokens");
            let fallback = table_take(&mut github, "token").is_some();
            proof {
                reveal_strlit("token");
                reveal_strlit("tokens");
                assert("token"@.len() != "tokens"@.len());
            }
            Some((tokens, fallback))
        },
        Err(other) => match value_into_list(other) {
            Ok(list) => {
                let mut list = list;
                assert(toml_models(list@).len() == list@.len());
                let fallback = list.len() > 1;
                if list.len() == 0 {
                    Some((None, fallback))
                } else {
                    let ghost first = toml_models(list@)[0];
                    let tokens = list.remove(0);
                    assert(toml_model(tokens) == first);
                    Some((Some(tokens), fallback))
                }
            },
            Err(other) => if value_is_time(&other) {
                Some((None, false))
            } else {
                None
            },
        },
    }
}

/// The orgs with a token in a document, in text order, and whether there is a
/// fallback token: presence only, never a value.
pub fn tokens_in(doc: toml::map::Map<String, toml::Value>) -> (r: Option<(Vec<String>, bool)>)
    ensures
        r is Some == (peek_in(table_model(doc)) is Some),
        r matches Some(p) ==> lists(names(p.0@), (peek_in(table_model(doc))->0).orgs) && p.1 == (
        peek_in(table_model(doc))->0).fallback,
{
    let mut doc = doc;
    let (tokens, fallback) = match table_take(&mut doc, "github") {
        None => (None, false),
        Some(v) => match read_github(v) {
            Some(fields) => fields,
            None => return None,
        },
    };
    match tokens {
        None => {
            let none: Vec<String> = Vec::new();
            assert(names(none@).len() == 0);
            Some((none, fallback))
        },
        Some(v) => match map_keys(v) {
            Some(keys) => Some((keys, fallback)),
            None => None,
        },
    }
}

/// Read the orgs with a token, and whether there is a fallback token.
fn peek_tokens(text: &str) -> (r: Option<(Vec<String>, bool)>)
    ensures
        r is Some == (peek(text@) is Some),
        r matches Some(p) ==> lists(names(p.0@), (peek(text@)->0).orgs) && p.1 == (peek(text@)->0).fallback,
{
    match toml_parse(text) {
        Ok(doc) => tokens_in(doc),
        Err(_) => None,
    }
}

/// How many tokens a configuration's text holds, the fallback counted: `None`
/// where the text does not say.
pub fn count_tokens(config_text: &str) -> (r: Option<usize>)
    ensures
        r is Some == (peek(config_text@) is Some),
        r matches Some(n) ==> exists|orgs: Seq<Seq<char>>| #[trigger]
            lists(orgs, (peek(config_text@)->0).orgs) && n == clip_count(
                orgs.len() + if (peek(config_text@)->0).fallback {
                    1int
                } else {
                    0
                },
            ),
{
    match peek_tokens(config_text) {
        None => None,
        Some((orgs, fallback)) => {
            assert(lists(names(orgs@), (peek(config_text@)->0).orgs));
            assert(names(orgs@).len() == orgs@.len());
            if fallback {
                Some(orgs.len().saturating_add(1))
            } else {
                Some(orgs.len())
            }
        },
    }
}

/// A count as it is reported.
pub open spec fn clip_count(n: int) -> usize {
    if n > usize::MAX {
        usize::MAX
    } else {
        n as usize
    }
}

/// The orgs with a token of their own, in text order: empty where the text does
/// not say.
pub fn token_orgs(config_text: &str) -> (r: Vec<String>)
    ensures
        match peek(config_text@) {
            Some(p) => lists(names(r@), p.orgs),
            None => r@.len() == 0,
        },
{
    match peek_tokens(config_text) {
        None => Vec::new(),
        Some((orgs, _)) => orgs,
    }
}

} // verus!
