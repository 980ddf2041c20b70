//! The single owner of where files live.
//!
//! A privilege [`Scope`] maps to a configuration directory and a data directory.
//! The configuration itself is always the system file, unless one is pointed at.

use vstd::prelude::*;
use vstd::string::*;

use crate::path::{join, joined};
use crate::text::{dec, dec_u64, owned};

verus! {

/// The group whose members, beside root, may change the configuration.
pub const ADMIN_GROUP: &'static str = "ghr-stats";

/// What the environment says about places: the variables that are set, and the
/// effective user.
#[derive(Debug)]
pub struct Places {
    pub home: Option<String>,
    pub xdg_config_home: Option<String>,
    pub xdg_data_home: Option<String>,
    pub xdg_runtime_dir: Option<String>,
    pub uid: u32,
}

/// Which layout a run uses.
#[derive(Debug, Clone, Copy, PartialEq, Eq, Structural)]
pub enum Scope {
    /// Per user, under the XDG directories.
    User,
    /// System-wide, under `/etc` and `/var/lib`.
    System,
}

/// A place from the environment, or else its default.
pub open spec fn place_or(place: Option<String>, default: Seq<char>) -> Seq<char> {
    match place {
        Some(p) => p@,
        None => default,
    }
}

impl Places {
    /// The home directory: the current one where it is not set.
    pub open spec fn home_dir(&self) -> Seq<char> {
        place_or(self.home, "."@)
    }

    /// The user's configuration directory.
    pub open spec fn config_home(&self) -> Seq<char> {
        place_or(self.xdg_config_home, joined(self.home_dir(), ".config"@))
    }

    /// The user's data directory.
    pub open spec fn data_home(&self) -> Seq<char> {
        place_or(self.xdg_data_home, joined(self.home_dir(), ".local/share"@))
    }

    /// The user's runtime directory.
    pub open spec fn runtime_home(&self) -> Seq<char> {
        place_or(self.xdg_runtime_dir, "/run/user/"@ + dec(self.uid as int))
    }

    fn home_text(&self) -> (r: String)
        ensures
            r@ == self.home_dir(),
    {
        match &self.home {
            Some(p) => p.clone(),
            None => owned("."),
        }
    }

    fn config_text(&self) -> (r: String)
        ensures
            r@ == self.config_home(),
    {
        match &self.xdg_config_home {
            Some(p) => p.clone(),
            None => join(self.home_text().as_str(), ".config"),
        }
    }

    fn data_text(&self) -> (r: String)
        ensures
            r@ == self.data_home(),
    {
        match &self.xdg_data_home {
            Some(p) => p.clone(),
            None => join(self.home_text().as_str(), ".local/share"),
        }
    }

    fn runtime_text(&self) -> (r: String)
        ensures
            r@ == self.runtime_home(),
    {
        match &self.xdg_runtime_dir {
            Some(p) => p.clone(),
            None => {
                let mut s = owned("/run/user/");
                s.append(dec_u64(self.uid as u64).as_str());
                s
            },
        }
    }
}

/// `uzers::get_effective_uid`: the effective user of this process. The process
/// decides the result, so nothing is claimed of it.
#[verifier::external_body]
pub(crate) fn effective_uid() -> u32 {
    uzers::get_effective_uid()
}

impl Scope {
    /// The layout of a user: root's is the system's.
    pub open spec fn of(uid: u32) -> Scope {
        if uid == 0 {
            Scope::System
        } else {
            Scope::User
        }
    }

    /// The layout for a user.
    pub fn of_uid(uid: u32) -> (r: Scope)
        ensures
            r == Scope::of(uid),
    {
        if uid == 0 {
            Scope::System
        } else {
            Scope::User
        }
    }

    /// Pick the layout from the effective user.
    pub fn detect() -> (r: Scope)
        ensures
            exists|uid: u32| r == #[trigger] Scope::of(uid),
    {
        let uid: u32 = effective_uid();
        Scope::of_uid(uid)
    }

    /// The scope's short name.
    pub open spec fn word(self) -> Seq<char> {
        match self {
            Scope::System => "system"@,
            Scope::User => "user"@,
        }
    }

    pub fn label(self) -> (r: &'static str)
        ensures
            r@ == self.word(),
    {
        match self {
            Scope::System => "system",
            Scope::User => "user",
        }
    }

    /// Where the configuration lives.
    pub open spec fn config_at(self, env: Places) -> Seq<char> {
        match self {
            Scope::System => "/etc/ghr-stats"@,
            Scope::User => joined(env.config_home(), "ghr-stats"@),
        }
    }

    /// Where the data lives.
    pub open spec fn data_at(self, env: Places) -> Seq<char> {
        match self {
            Scope::System => "/var/lib/ghr-stats"@,
            Scope::User => joined(env.data_home(), "ghr-stats"@),
        }
    }

    /// Where the socket lives.
    pub open spec fn runtime_at(self, env: Places) -> Seq<char> {
        match self {
            Scope::System => "/run/ghr-stats"@,
            Scope::User => joined(env.runtime_home(), "ghr-stats"@),
        }
    }

    /// Directory of `config.toml`.
    pub fn config_dir(self, env: &Places) -> (r: String)
        ensures
            r@ == self.config_at(*env),
    {
        match self {
            Scope::System => owned("/etc/ghr-stats"),
            Scope::User => join(env.config_text().as_str(), "ghr-stats"),
        }
    }

    /// Directory of the database and the event log.
    pub fn data_dir(self, env: &Places) -> (r: String)
        ensures
            r@ == self.data_at(*env),
    {
        match self {
            Scope::System => owned("/var/lib/ghr-stats"),
            Scope::User => join(env.data_text().as_str(), "ghr-stats"),
        }
    }

    /// The scope's `config.toml`.
    pub fn config_file(self, env: &Places) -> (r: String)
        ensures
            r@ == joined(self.config_at(*env), "config.toml"@),
    {
        join(self.config_dir(env).as_str(), "config.toml")
    }

    /// The scope's database.
    pub fn db_path(self, env: &Places) -> (r: String)
        ensures
            r@ == joined(self.data_at(*env), "ghr-stats.db"@),
    {
        join(self.data_dir(env).as_str(), "ghr-stats.db")
    }

    /// The scope's append-only job-event log.
    pub fn event_log(self, env: &Places) -> (r: String)
        ensures
            r@ == joined(self.data_at(*env), "events.ndjson"@),
    {
        join(self.data_dir(env).as_str(), "events.ndjson")
    }

    /// Absolute install path of the binary.
    pub fn bin_path(self, env: &Places) -> (r: String)
        ensures
            r@ == (match self {
                Scope::System => "/usr/local/bin/ghr-stats"@,
                Scope::User => joined(env.home_dir(), ".local/bin/ghr-stats"@),
            }),
    {
        match self {
            Scope::System => owned("/usr/local/bin/ghr-stats"),
            Scope::User => join(env.home_text().as_str(), ".local/bin/ghr-stats"),
        }
    }

    /// Where the service unit is written.
    pub fn systemd_unit_path(self, env: &Places) -> (r: String)
        ensures
            r@ == (match self {
                Scope::System => "/etc/systemd/system/ghr-stats.service"@,
                Scope::User => joined(env.config_home(), "systemd/user/ghr-stats.service"@),
            }),
    {
        match self {
            Scope::System => owned("/etc/systemd/system/ghr-stats.service"),
            Scope::User => join(env.config_text().as_str(), "systemd/user/ghr-stats.service"),
        }
    }

    /// The directory of the collector's socket.
    pub fn runtime_dir(self, env: &Places) -> (r: String)
        ensures
            r@ == self.runtime_at(*env),
    {
        match self {
            Scope::System => owned("/run/ghr-stats"),
            Scope::User => join(env.runtime_text().as_str(), "ghr-stats"),
        }
    }

    /// The collector's socket.
    pub fn socket_path(self, env: &Places) -> (r: String)
        ensures
            r@ == joined(self.runtime_at(*env), "serve.sock"@),
    {
        join(self.runtime_dir(env).as_str(), "serve.sock")
    }
}

// ---------------------------------------------------------------------------
// The configuration file
// ---------------------------------------------------------------------------

/// The canonical configuration file.
pub open spec fn system_config() -> Seq<char> {
    joined("/etc/ghr-stats"@, "config.toml"@)
}

/// The file that was pointed at: by argument first, then by environment.
pub open spec fn pointed_at(explicit: Option<&str>, variable: Option<&str>) -> Option<Seq<char>> {
    match explicit {
        Some(p) => Some(p@),
        None => match variable {
            Some(p) => Some(p@),
            None => None,
        },
    }
}

/// An explicitly pointed-at configuration, shared by reading and writing.
pub fn explicit_config_target(explicit: Option<&str>, variable: Option<&str>) -> (r: Option<String>)
    ensures
        r is Some == (pointed_at(explicit, variable) is Some),
        r matches Some(p) ==> pointed_at(explicit, variable) == Some(p@),
{
    match explicit {
        Some(p) => Some(owned(p)),
        None => match variable {
            Some(p) => Some(owned(p)),
            None => None,
        },
    }
}

fn system_config_file() -> (r: String)
    ensures
        r@ == system_config(),
{
    join("/etc/ghr-stats", "config.toml")
}

/// The configuration to read.
pub open spec fn config_read(
    explicit: Option<&str>,
    variable: Option<&str>,
    system_exists: bool,
) -> Option<Seq<char>> {
    match pointed_at(explicit, variable) {
        Some(p) => Some(p),
        None => if system_exists {
            Some(system_config())
        } else {
            None
        },
    }
}

/// The configuration to write.
pub open spec fn config_written(explicit: Option<&str>, variable: Option<&str>) -> Seq<char> {
    match pointed_at(explicit, variable) {
        Some(p) => p,
        None => system_config(),
    }
}

/// The file that the configuration is read from: the one pointed at, else the
/// system file where it exists.
pub fn resolve_config(explicit: Option<&str>, variable: Option<&str>, system_exists: bool) -> (r:
    Option<String>)
    ensures
        r is Some == (config_read(explicit, variable, system_exists) is Some),
        r matches Some(p) ==> config_read(explicit, variable, system_exists) == Some(p@),
{
    match explicit_config_target(explicit, variable) {
        Some(p) => Some(p),
        None => if system_exists {
            Some(system_config_file())
        } else {
            None
        },
    }
}

/// The file that the configuration is written to: the one pointed at, else the
/// system file.
pub fn config_write_target(explicit: Option<&str>, variable: Option<&str>) -> (r: String)
    ensures
        r@ == config_written(explicit, variable),
{
    match explicit_config_target(explicit, variable) {
        Some(p) => p,
        None => system_config_file(),
    }
}

/// An edit lands in the file it was read from: whatever is read is also what is
/// written.
pub proof fn reads_and_writes_agree(
    explicit: Option<&str>,
    variable: Option<&str>,
    system_exists: bool,
)
    ensures
        config_read(explicit, variable, system_exists) matches Some(p) ==> p == config_written(
            explicit,
            variable,
        ),
{
}

/// The superuser's places are the system's, whatever the environment says; a user's
/// lie in the directories that the environment names, and in the usual ones below
/// the home directory where it names none.
pub proof fn places_follow_the_scope(env: Places)
    ensures
        Scope::System.config_at(env) == "/etc/ghr-stats"@,
        Scope::System.data_at(env) == "/var/lib/ghr-stats"@,
        Scope::System.runtime_at(env) == "/run/ghr-stats"@,
        env.xdg_config_home matches Some(p) ==> Scope::User.config_at(env) == joined(
            p@,
            "ghr-stats"@,
        ),
        env.xdg_data_home matches Some(p) ==> Scope::User.data_at(env) == joined(p@, "ghr-stats"@),
        env.xdg_runtime_dir matches Some(p) ==> Scope::User.runtime_at(env) == joined(
            p@,
            "ghr-stats"@,
        ),
        ({
            let home = if let Some(h) = env.home {
                h@
            } else {
                "."@
            };
            &&& env.xdg_config_home is None ==> Scope::User.config_at(env) == joined(
                joined(home, ".config"@),
                "ghr-stats"@,
            )
            &&& env.xdg_data_home is None ==> Scope::User.data_at(env) == joined(
                joined(home, ".local/share"@),
                "ghr-stats"@,
            )
        }),
        env.xdg_runtime_dir is None ==> Scope::User.runtime_at(env) == joined(
            "/run/user/"@ + dec(env.uid as int),
            "ghr-stats"@,
        ),
{
}

/// The superuser has the system's scope, and everybody else their own.
pub proof fn only_the_superuser_is_the_system(uid: u32)
    ensures
        Scope::of(uid) is System <==> uid == 0,
        Scope::System.word() == "system"@ && Scope::User.word() == "user"@,
{
}

/// A configuration that is named is the one that counts: on the command line before
/// the environment; where none is named, the system's, if it is there.
pub proof fn a_named_configuration_counts(
    explicit: Option<&str>,
    variable: Option<&str>,
    system_exists: bool,
)
    ensures
        explicit matches Some(p) ==> config_read(explicit, variable, system_exists) == Some(p@)
            && config_written(explicit, variable) == p@,
        explicit is None ==> (variable matches Some(p) ==> config_read(
            explicit,
            variable,
            system_exists,
        ) == Some(p@) && config_written(explicit, variable) == p@),
        explicit is None && variable is None ==> {
            let usual = joined("/etc/ghr-stats"@, "config.toml"@);
            &&& config_written(explicit, variable) == usual
            &&& config_read(explicit, variable, system_exists) == (if system_exists {
                Some(usual)
            } else {
                None
            })
        },
{
}

} // verus!
