//! The service unit: what it says, and the commands that manage it.

use vstd::prelude::*;
use vstd::string::*;

use crate::metrics::laws::{has_line, line_between, lines_stay};
use crate::paths::Scope;
use crate::privileged::{hint, require_root};
use crate::text::{names, owned};

verus! {

pub const UNIT_NAME: &'static str = "ghr-stats.service";

/// What is asked of the service.
#[derive(Debug, Clone, Copy, PartialEq, Eq, Structural)]
pub enum SystemdAction {
    Install { system: bool, user: bool },
    Uninstall,
}

/// What is done about it.
#[derive(Debug, Clone, Copy, PartialEq, Eq, Structural)]
pub enum SystemdPlan {
    Install(Scope),
    Uninstall(Scope),
}

/// The scope that was asked for, else the user's own.
pub open spec fn scope_for(system: bool, user: bool, uid: u32) -> Scope {
    if system {
        Scope::System
    } else if user {
        Scope::User
    } else {
        Scope::of(uid)
    }
}

/// Explicit choices win; otherwise the effective user decides.
pub fn resolve_scope(system: bool, user: bool, uid: u32) -> (r: Scope)
    ensures
        r == scope_for(system, user, uid),
{
    match (system, user) {
        (true, _) => Scope::System,
        (_, true) => Scope::User,
        _ => Scope::of_uid(uid),
    }
}

/// What to do about an action. A system install needs a root process: the message
/// with the hint to run it again where it is not.
pub fn run(action: SystemdAction, uid: u32, exe: Option<&str>) -> (r: Result<SystemdPlan, String>)
    ensures
        r is Err <==> (action matches SystemdAction::Install { system, user } && scope_for(
            system,
            user,
            uid,
        ) == Scope::System && uid != 0),
        r matches Err(m) ==> m@ == "system install needs root — re-run `"@ + hint(
            exe,
            "systemd install --system"@,
        ) + "`"@,
        r matches Ok(plan) ==> match action {
            SystemdAction::Install { system, user } => plan == SystemdPlan::Install(
                scope_for(system, user, uid),
            ),
            SystemdAction::Uninstall => plan == SystemdPlan::Uninstall(Scope::of(uid)),
        },
{
    match action {
        SystemdAction::Install { system, user } => {
            let scope = resolve_scope(system, user, uid);
            if scope == Scope::System {
                match require_root(uid == 0, exe, "systemd install --system") {
                    Ok(()) => {},
                    Err(h) => {
                        let mut m = owned("system install needs root — re-run `");
                        m.append(h.as_str());
                        m.append("`");
                        return Err(m);
                    },
                }
            }
            Ok(SystemdPlan::Install(scope))
        },
        SystemdAction::Uninstall => Ok(SystemdPlan::Uninstall(resolve_scope(false, false, uid))),
    }
}

/// What a scope's services are wanted by.
pub open spec fn wanted_by(scope: Scope) -> Seq<char> {
    match scope {
        Scope::System => "multi-user.target"@,
        Scope::User => "default.target"@,
    }
}

/// The service unit.
pub open spec fn unit(bin: Seq<char>, scope: Scope) -> Seq<char> {
    "[Unit]\nDescription=ghr-stats — sample self-hosted runners + expose metrics\nAfter=network-online.target\nWants=network-online.target\n\n[Service]\nType=simple\nExecStart="@
        + bin
        + " serve\nRestart=on-failure\nRestartSec=5\nNoNewPrivileges=true\n\n[Install]\nWantedBy="@
        + wanted_by(scope) + "\n"@
}

/// Render the service unit.
pub fn render_unit(bin: &str, scope: Scope) -> (r: String)
    ensures
        r@ == unit(bin@, scope),
{
    let target = match scope {
        Scope::System => "multi-user.target",
        Scope::User => "default.target",
    };
    let mut s = owned(
        "[Unit]\nDescription=ghr-stats — sample self-hosted runners + expose metrics\nAfter=network-online.target\nWants=network-online.target\n\n[Service]\nType=simple\nExecStart=",
    );
    s.append(bin);
    s.append(
        " serve\nRestart=on-failure\nRestartSec=5\nNoNewPrivileges=true\n\n[Install]\nWantedBy=",
    );
    s.append(target);
    s.append("\n");
    s
}

/// The arguments of `systemctl` in a scope.
pub open spec fn scoped(scope: Scope, args: Seq<Seq<char>>) -> Seq<Seq<char>> {
    match scope {
        Scope::User => seq!["--user"@] + args,
        Scope::System => args,
    }
}

/// The arguments of `systemctl` in a scope.
pub fn systemctl(scope: Scope, args: &[String]) -> (r: Vec<String>)
    ensures
        names(r@) == scoped(scope, names(args@)),
{
    let mut out: Vec<String> = Vec::new();
    if scope == Scope::User {
        out.push(owned("--user"));
    }
    let ghost first = names(out@);
    let ghost all = names(args@);
    let mut i: usize = 0;
    assert(first + all.take(0) =~= first);
    while i < args.len()
        invariant
            i <= args@.len(),
            all == names(args@),
            names(out@) == first + all.take(i as int),
        decreases args@.len() - i,
    {
        let ghost was = out@;
        out.push(args[i].clone());
        assert(names(out@) =~= names(was).push(all[i as int]));
        assert(first + all.take(i + 1) =~= (first + all.take(i as int)).push(all[i as int]));
        i = i + 1;
    }
    assert(all.take(i as int) =~= all);
    assert(scope == Scope::User ==> first =~= seq!["--user"@]);
    assert(scope == Scope::System ==> first + all =~= all);
    out
}

/// The commands that enable the service: reload the units, then enable and start
/// ours.
pub fn enable(scope: Scope) -> (r: Vec<Vec<String>>)
    ensures
        r@.len() == 2,
        names(r@[0]@) == scoped(scope, seq!["daemon-reload"@]),
        names(r@[1]@) == scoped(scope, seq!["enable"@, "--now"@, UNIT_NAME@]),
{
    let mut reload: Vec<String> = Vec::new();
    reload.push(owned("daemon-reload"));
    assert(names(reload@) =~= seq!["daemon-reload"@]);
    let mut start: Vec<String> = Vec::new();
    start.push(owned("enable"));
    start.push(owned("--now"));
    start.push(owned(UNIT_NAME));
    assert(names(start@) =~= seq!["enable"@, "--now"@, UNIT_NAME@]);
    let mut out: Vec<Vec<String>> = Vec::new();
    out.push(systemctl(scope, reload.as_slice()));
    out.push(systemctl(scope, start.as_slice()));
    out
}

/// The commands that disable the service before its unit is removed.
pub fn disable(scope: Scope) -> (r: Vec<String>)
    ensures
        names(r@) == scoped(scope, seq!["disable"@, "--now"@, UNIT_NAME@]),
{
    let mut stop: Vec<String> = Vec::new();
    stop.push(owned("disable"));
    stop.push(owned("--now"));
    stop.push(owned(UNIT_NAME));
    assert(names(stop@) =~= seq!["disable"@, "--now"@, UNIT_NAME@]);
    systemctl(scope, stop.as_slice())
}

/// What is asked for decides the scope; where nothing is, who asks does.
pub proof fn the_scope_is_as_asked(system: bool, user: bool, uid: u32)
    ensures
        system ==> scope_for(system, user, uid) is System,
        !system && user ==> scope_for(system, user, uid) is User,
        !system && !user ==> (scope_for(system, user, uid) is System <==> uid == 0),
{
}

/// The unit runs the collector with the program that it names, and is wanted by the
/// target of its scope. A user's service manager is spoken to as such.
pub proof fn the_unit_runs_the_collector(bin: Seq<char>, scope: Scope, args: Seq<Seq<char>>)
    ensures
        has_line(unit(bin, scope), "ExecStart="@ + bin + " serve"@),
        scope is System ==> has_line(unit(bin, scope), "WantedBy="@ + "multi-user.target"@),
        scope is User ==> has_line(unit(bin, scope), "WantedBy="@ + "default.target"@),
        scope is System ==> scoped(scope, args) == args,
        scope is User ==> scoped(scope, args).len() == args.len() + 1 && scoped(scope, args)[0]
            == "--user"@ && forall|i: int|
            0 <= i < args.len() ==> scoped(scope, args)[i + 1] == #[trigger] args[i],
{
    reveal_strlit(
        "[Unit]\nDescription=ghr-stats — sample self-hosted runners + expose metrics\nAfter=network-online.target\nWants=network-online.target\n\n[Service]\nType=simple\nExecStart=",
    );
    reveal_strlit(
        " serve\nRestart=on-failure\nRestartSec=5\nNoNewPrivileges=true\n\n[Install]\nWantedBy=",
    );
    reveal_strlit("ExecStart=");
    reveal_strlit(" serve");
    reveal_strlit("WantedBy=");
    reveal_strlit("\n");
    let a =
        "[Unit]\nDescription=ghr-stats — sample self-hosted runners + expose metrics\nAfter=network-online.target\nWants=network-online.target\n\n[Service]\nType=simple\nExecStart="@;
    let b =
        " serve\nRestart=on-failure\nRestartSec=5\nNoNewPrivileges=true\n\n[Install]\nWantedBy="@;
    let w = wanted_by(scope);
    let i = 154;
    let j = 71;
    assert(a.skip(i) =~= "ExecStart="@);
    assert(b.take(6) =~= " serve"@);
    assert(b =~= b.take(6) + b.skip(6));
    line_between(seq![], a, i, bin + b.take(6), b.skip(6));
    assert(seq![] + a + (bin + b.take(6)) + b.skip(6) =~= a + bin + b);
    assert(a.skip(i) + (bin + b.take(6)) =~= "ExecStart="@ + bin + " serve"@);
    lines_stay(a + bin + b, w);
    lines_stay(a + bin + b + w, "\n"@);
    assert(b.skip(j) =~= "WantedBy="@);
    line_between(a + bin, b, j, w, "\n"@);
}

} // verus!
