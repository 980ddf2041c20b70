//! Operations that need root: how they are run, what came of them, and what to
//! tell someone who is not root.

use vstd::prelude::*;
use vstd::string::*;
use vstd::utf8::{encode_utf8, valid_utf8};

use crate::paths::effective_uid;
use crate::scan::{lines, lines_of, texts, trim, trim_end, trimmed, trimmed_end};
use crate::text::{chars_of, dec, dec_i64, names, owned, string_of};

verus! {

/// The result of a privileged command.
#[derive(Debug, PartialEq, Eq)]
pub enum Outcome {
    Done,
    /// The command ran but failed: its exit code and first line of error output.
    Failed { code: Option<i32>, stderr: String },
    /// The command could not be started.
    Spawn(String),
}

impl Outcome {
    /// What is said of a failure: its error output, else its exit code.
    pub open spec fn detail(code: Option<i32>, stderr: Seq<char>) -> Seq<char> {
        if stderr.len() > 0 {
            stderr
        } else {
            match code {
                Some(c) => "exit "@ + dec(c as int),
                None => "failed"@,
            }
        }
    }

    /// The line that describes an outcome.
    pub open spec fn line(self, what: Seq<char>) -> Seq<char> {
        match self {
            Outcome::Done => what + ": done"@,
            Outcome::Failed { code, stderr } => what + ": "@ + Outcome::detail(code, stderr@),
            Outcome::Spawn(e) => what + ": could not run ("@ + e@ + ") — is `sudo` installed?"@,
        }
    }

    pub fn is_ok(&self) -> (r: bool)
        ensures
            r == (*self is Done),
    {
        matches!(self, Outcome::Done)
    }

    /// A short, actionable line on the result of `what`.
    pub fn describe(&self, what: &str) -> (r: String)
        ensures
            r@ == self.line(what@),
    {
        let mut s = owned(what);
        match self {
            Outcome::Done => {
                s.append(": done");
            },
            Outcome::Failed { code, stderr } => {
                let detail = if stderr.as_str().is_empty() {
                    match code {
                        Some(c) => {
                            let mut d = owned("exit ");
                            d.append(dec_i64(*c as i64).as_str());
                            d
                        },
                        None => owned("failed"),
                    }
                } else {
                    stderr.clone()
                };
                s.append(": ");
                s.append(detail.as_str());
            },
            Outcome::Spawn(e) => {
                s.append(": could not run (");
                s.append(e.as_str());
                s.append(") — is `sudo` installed?");
            },
        }
        s
    }
}

/// The user that is root.
pub open spec fn root(uid: u32) -> bool {
    uid == 0
}

/// Whether a user is root.
pub fn is_root_uid(uid: u32) -> (r: bool)
    ensures
        r == root(uid),
{
    uid == 0
}

/// Whether the process runs as root. The process decides.
pub fn is_root() -> (r: bool)
    ensures
        exists|uid: u32| r == root(uid),
{
    let uid: u32 = effective_uid();
    is_root_uid(uid)
}

/// The program by its path, or by its bare name where that is unknown.
pub open spec fn program(exe: Option<&str>) -> Seq<char> {
    match exe {
        Some(p) => p@,
        None => "ghr-stats"@,
    }
}

/// The hint to run a subcommand as root.
pub open spec fn hint(exe: Option<&str>, subcommand: Seq<char>) -> Seq<char> {
    trim_end("sudo "@ + program(exe) + " "@ + subcommand)
}

/// This program's path, or its bare name where that is unknown.
pub fn exe_path(exe: Option<&str>) -> (r: String)
    ensures
        r@ == program(exe),
{
    match exe {
        Some(p) => owned(p),
        None => owned("ghr-stats"),
    }
}

/// A hint to run the program as root, by its absolute path: a user-wide install is
/// not on sudo's path.
pub fn sudo_hint(exe: Option<&str>, subcommand: &str) -> (r: String)
    ensures
        r@ == hint(exe, subcommand@),
{
    let mut s = owned("sudo ");
    s.append(exe_path(exe).as_str());
    s.append(" ");
    s.append(subcommand);
    let c = chars_of(s.as_str());
    string_of(trimmed_end(c.as_slice()))
}

/// Require a root process: the hint to run again as root where it is not.
pub fn require_root(root: bool, exe: Option<&str>, resume: &str) -> (r: Result<(), String>)
    ensures
        r is Ok <==> root,
        r matches Err(h) ==> h@ == hint(exe, resume@),
{
    if root {
        Ok(())
    } else {
        Err(sudo_hint(exe, resume))
    }
}

/// The guidance for running the whole tool as root.
pub open spec fn guidance(exe: Option<&str>) -> Seq<char> {
    "Installing runner hooks edits each runner's root-owned .env and writes shared scripts, so the whole process must run as root.\n\nRe-run the dashboard as root:\n  sudo "@
        + program(exe)
        + "\n\nIf `sudo ghr-stats` says \"command not found\", that is expected: sudo resets PATH to a secure default that excludes ~/.cargo/bin and ~/.local/bin, so a user-wide install is not on it. Use the absolute path above, or install system-wide with\n  "@
        + program(exe)
        + " systemd install --system\nwhich copies the binary to /usr/local/bin (on sudo's path)."@
}

/// Guidance for running the whole tool as root.
pub fn root_guidance(exe: Option<&str>) -> (r: String)
    ensures
        r@ == guidance(exe),
{
    let exe = exe_path(exe);
    let mut s = owned(
        "Installing runner hooks edits each runner's root-owned .env and writes shared scripts, so the whole process must run as root.\n\nRe-run the dashboard as root:\n  sudo ",
    );
    s.append(exe.as_str());
    s.append(
        "\n\nIf `sudo ghr-stats` says \"command not found\", that is expected: sudo resets PATH to a secure default that excludes ~/.cargo/bin and ~/.local/bin, so a user-wide install is not on it. Use the absolute path above, or install system-wide with\n  ",
    );
    s.append(exe.as_str());
    s.append(
        " systemd install --system\nwhich copies the binary to /usr/local/bin (on sudo's path).",
    );
    s
}

/// The text of bytes that may not be UTF-8, by `String::from_utf8_lossy`.
pub uninterp spec fn lossy_text(bytes: Seq<u8>) -> Seq<char>;

/// `String::from_utf8_lossy`: bytes that are UTF-8 are decoded as they stand; what
/// stands in place of the others is std's own.
#[verifier::external_body]
pub(crate) fn from_utf8_lossy(bytes: &[u8]) -> (r: String)
    ensures
        r@ == lossy_text(bytes@),
        valid_utf8(bytes@) ==> encode_utf8(r@) == bytes@,
{
    String::from_utf8_lossy(bytes).into_owned()
}

/// The first line of a text that is not blank, trimmed; empty where every line is.
pub open spec fn first_text(ls: Seq<Seq<char>>) -> Seq<char>
    decreases ls.len(),
{
    if ls.len() == 0 {
        seq![]
    } else if trim(ls[0]).len() > 0 {
        trim(ls[0])
    } else {
        first_text(ls.drop_first())
    }
}

/// The first line of a text that is not blank, trimmed.
pub fn first_line_of(text: &str) -> (r: String)
    ensures
        r@ == first_text(lines(text@)),
{
    let c = chars_of(text);
    let ls = lines_of(c.as_slice());
    let ghost all = lines(text@);
    assert(texts(ls@).len() == ls@.len());
    let mut i: usize = 0;
    assert(all.skip(0) =~= all);
    while i < ls.len()
        invariant
            i <= ls@.len(),
            texts(ls@) == all,
            all == lines(text@),
            all.len() == ls@.len(),
            first_text(all) == first_text(all.skip(i as int)),
        decreases ls@.len() - i,
    {
        assert(texts(ls@)[i as int] == ls@[i as int]@);
        let t = trimmed(ls[i].as_slice());
        if t.len() > 0 {
            return string_of(t);
        }
        assert(all.skip(i as int).drop_first() =~= all.skip(i + 1));
        i = i + 1;
    }
    String::new()
}

/// The first line of captured error output that is not blank, trimmed.
pub fn first_line(bytes: &[u8]) -> (r: String)
    ensures
        r@ == first_text(lines(lossy_text(bytes@))),
{
    let text = from_utf8_lossy(bytes);
    first_line_of(text.as_str())
}

/// The program and the arguments that run a command with privilege: directly as
/// root, else through `sudo`.
pub fn command_line(argv: &[String], root: bool) -> (r: Result<(String, Vec<String>), Outcome>)
    ensures
        r is Ok <==> argv@.len() > 0,
        r matches Err(o) ==> o is Spawn && o->Spawn_0@ == "empty command"@,
        r matches Ok(line) ==> {
            if root {
                line.0@ == argv@[0]@ && names(line.1@) == names(argv@).skip(1)
            } else {
                line.0@ == "sudo"@ && names(line.1@) == names(argv@)
            }
        },
{
    if argv.len() == 0 {
        return Err(Outcome::Spawn(owned("empty command")));
    }
    let start: usize = if root {
        1
    } else {
        0
    };
    let ghost all = names(argv@);
    let mut rest: Vec<String> = Vec::new();
    let mut i: usize = start;
    while i < argv.len()
        invariant
            start <= i <= argv@.len(),
            all == names(argv@),
            names(rest@) == all.subrange(start as int, i as int),
        decreases argv@.len() - i,
    {
        let ghost was = rest@;
        rest.push(argv[i].clone());
        assert(names(rest@) =~= names(was).push(all[i as int]));
        assert(all.subrange(start as int, i + 1) =~= all.subrange(start as int, i as int).push(
            all[i as int],
        ));
        i = i + 1;
    }
    assert(all.subrange(start as int, i as int) =~= all.skip(start as int));
    assert(all.skip(0) =~= all);
    if root {
        Ok((argv[0].clone(), rest))
    } else {
        Ok((owned("sudo"), rest))
    }
}

/// What a finished command came to: done, or failed with its exit code and the
/// first line of its error output.
pub fn finished(success: bool, code: Option<i32>, stderr: &[u8]) -> (r: Outcome)
    ensures
        r is Done <==> success,
        !success ==> r is Failed && r->code == code && r->stderr@ == first_text(
            lines(lossy_text(stderr@)),
        ),
{
    if success {
        Outcome::Done
    } else {
        Outcome::Failed { code, stderr: first_line(stderr) }
    }
}

/// What is shown of an output is its first line that is not blank, trimmed; nothing
/// where all are.
pub proof fn the_first_text_is_shown(ls: Seq<Seq<char>>)
    ensures
        forall|k: int|
            0 <= k < ls.len() && trim(#[trigger] ls[k]).len() > 0 && (forall|i: int|
                0 <= i < k ==> trim(#[trigger] ls[i]).len() == 0) ==> first_text(ls) == trim(ls[k]),
        (forall|i: int| 0 <= i < ls.len() ==> trim(#[trigger] ls[i]).len() == 0) ==> first_text(
            ls,
        ).len() == 0,
    decreases ls.len(),
{
    if ls.len() > 0 {
        let more = ls.drop_first();
        the_first_text_is_shown(more);
        assert forall|k: int|
            0 <= k < ls.len() && trim(#[trigger] ls[k]).len() > 0 && (forall|i: int|
                0 <= i < k ==> trim(#[trigger] ls[i]).len() == 0) implies first_text(ls) == trim(
            ls[k],
        ) by {
            if k > 0 {
                assert(trim(ls[0]).len() == 0);
                assert(more[k - 1] == ls[k]);
                assert forall|i: int| 0 <= i < k - 1 implies trim(#[trigger] more[i]).len() == 0 by {
                    assert(more[i] == ls[i + 1]);
                }
            }
        }
        if forall|i: int| 0 <= i < ls.len() ==> trim(#[trigger] ls[i]).len() == 0 {
            assert(trim(ls[0]).len() == 0);
            assert forall|i: int| 0 <= i < more.len() implies trim(#[trigger] more[i]).len() == 0 by {
                assert(more[i] == ls[i + 1]);
            }
        }
    }
}

/// What is said of a command: that it is done; what it complained of, or else how it
/// ended; or that it could not be run.
pub proof fn an_outcome_says_what_happened(o: Outcome, what: Seq<char>)
    ensures
        o is Done ==> o.line(what) == what + ": done"@,
        o matches Outcome::Failed { code, stderr } ==> {
            &&& stderr@.len() > 0 ==> o.line(what) == what + ": "@ + stderr@
            &&& stderr@.len() == 0 && code is Some ==> o.line(what) == what + ": "@ + ("exit "@
                + dec(code->0 as int))
            &&& stderr@.len() == 0 && code is None ==> o.line(what) == what + ": "@ + "failed"@
        },
        o matches Outcome::Spawn(e) ==> o.line(what) == what + ": could not run ("@ + e@
            + ") — is `sudo` installed?"@,
{
}

/// Only the superuser is root; and a hint to become it names the program as it was
/// found, or by its name.
pub proof fn a_hint_names_the_program(exe: Option<&str>, sub: Seq<char>, uid: u32)
    ensures
        root(uid) <==> uid == 0,
        exe matches Some(p) ==> hint(exe, sub) == trim_end("sudo "@ + p@ + " "@ + sub),
        exe is None ==> hint(exe, sub) == trim_end("sudo "@ + "ghr-stats"@ + " "@ + sub),
{
}

} // verus!
