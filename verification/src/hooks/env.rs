//! Writing a runner's own environment file, which belongs to the runner's user.

use vstd::prelude::*;
use vstd::string::*;

use crate::privileged::Outcome;
use crate::text::{names, owned};

verus! {

/// The command that installs a staged file as a runner's environment file, owned
/// by the runner's user and readable by all.
pub fn install_command(staged: &str, env_path: &str, user: &str) -> (r: Vec<String>)
    ensures
        names(r@) == seq![
            "install"@,
            "-o"@,
            user@,
            "-g"@,
            user@,
            "-m"@,
            "0644"@,
            staged@,
            env_path@,
        ],
{
    let mut v: Vec<String> = Vec::new();
    v.push(owned("install"));
    v.push(owned("-o"));
    v.push(owned(user));
    v.push(owned("-g"));
    v.push(owned(user));
    v.push(owned("-m"));
    v.push(owned("0644"));
    v.push(owned(staged));
    v.push(owned(env_path));
    assert(names(v@) =~= seq![
        "install"@,
        "-o"@,
        user@,
        "-g"@,
        user@,
        "-m"@,
        "0644"@,
        staged@,
        env_path@,
    ]);
    v
}

/// What is reported when the new text could not be staged.
pub fn stage_failed() -> (r: Outcome)
    ensures
        r matches Outcome::Failed { code, stderr } && code is None && stderr@
            == "could not stage .env update"@,
{
    Outcome::Failed { code: None, stderr: owned("could not stage .env update") }
}

} // verus!
