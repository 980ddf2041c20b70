//! GitHub's API: what is asked, and what is made of the answers. Tokens are
//! read-only and never logged.

use vstd::prelude::*;
use vstd::string::*;

use crate::error::{github_error, Error};
use crate::models::ApiErrorKind;
use crate::text::{dec, dec_i64, dec_u64, owned};

pub mod laws;
pub mod validate;

verus! {

/// Seconds after which a call is given up.
pub const HTTP_TIMEOUT_SECS: u64 = 20;

/// A runner as GitHub sees it.
#[derive(Debug, Clone, PartialEq, Eq)]
pub struct ApiRunner {
    pub id: i64,
    pub name: String,
    /// `online` or `offline`.
    pub status: String,
    pub busy: bool,
}

/// One job of a workflow run. It has no conclusion until it has finished.
#[derive(Debug, Clone, PartialEq, Eq)]
pub struct RunJob {
    pub name: String,
    pub conclusion: Option<String>,
}

/// What came of a call.
#[derive(Debug, PartialEq, Eq)]
pub enum Reply<T> {
    /// The list that was asked for.
    Listed(Vec<T>),
    /// An answer that did not decode, and why.
    Undecodable(String),
    /// A refusal.
    Status(u16),
    /// No answer, and why.
    Transport(String),
}

/// Where an org's runners are listed.
pub fn runners_url(org: &str) -> (r: String)
    ensures
        r@ == "https://api.github.com/orgs/"@ + org@ + "/actions/runners?per_page=100"@,
{
    let mut s = owned("https://api.github.com/orgs/");
    s.append(org);
    s.append("/actions/runners?per_page=100");
    s
}

/// Where the jobs of a workflow run are listed.
pub fn jobs_url(repo: &str, run_id: i64) -> (r: String)
    ensures
        r@ == "https://api.github.com/repos/"@ + repo@ + "/actions/runs/"@ + dec(run_id as int)
            + "/jobs?per_page=100"@,
{
    let mut s = owned("https://api.github.com/repos/");
    s.append(repo);
    s.append("/actions/runs/");
    s.append(dec_i64(run_id).as_str());
    s.append("/jobs?per_page=100");
    s
}

/// The header that carries a token.
pub fn bearer(token: &str) -> (r: String)
    ensures
        r@ == "Bearer "@ + token@,
{
    let mut s = owned("Bearer ");
    s.append(token);
    s
}

/// What a refusal says of an org.
pub open spec fn status_text(org: Seq<char>, code: u16) -> Seq<char> {
    org + ": HTTP "@ + dec(code as int) + " — "@ + ApiErrorKind::of_status(code).hint_text()
}

/// An actionable message for a refusal.
pub fn describe_status(org: &str, code: u16) -> (r: String)
    ensures
        r@ == status_text(org@, code),
{
    let mut s = owned(org);
    s.append(": HTTP ");
    s.append(dec_u64(code as u64).as_str());
    s.append(" — ");
    s.append(ApiErrorKind::from_status(code).hint());
    s
}

/// The runners that GitHub listed for an org, or what stood in the way.
pub fn list_org_runners(org: &str, reply: Reply<ApiRunner>) -> (r: Result<Vec<ApiRunner>, Error>)
    ensures
        match reply {
            Reply::Listed(v) => r == Ok::<Vec<ApiRunner>, Error>(v),
            Reply::Undecodable(e) => r matches Err(err) && err@ == github_error(
                org@ + ": decoding response: "@ + e@,
            ),
            Reply::Status(code) => r matches Err(err) && err@ == github_error(
                status_text(org@, code),
            ),
            Reply::Transport(e) => r matches Err(err) && err@ == github_error(
                org@ + ": transport error: "@ + e@,
            ),
        },
{
    match reply {
        Reply::Listed(v) => Ok(v),
        Reply::Undecodable(e) => {
            let mut s = owned(org);
            s.append(": decoding response: ");
            s.append(e.as_str());
            Err(Error::Github(s))
        },
        Reply::Status(code) => Err(Error::Github(describe_status(org, code))),
        Reply::Transport(e) => {
            let mut s = owned(org);
            s.append(": transport error: ");
            s.append(e.as_str());
            Err(Error::Github(s))
        },
    }
}

/// The runners that GitHub listed, or the kind of failure.
pub fn list_org_runners_classified(reply: Reply<ApiRunner>) -> (r: Result<
    Vec<ApiRunner>,
    ApiErrorKind,
>)
    ensures
        match reply {
            Reply::Listed(v) => r == Ok::<Vec<ApiRunner>, ApiErrorKind>(v),
            Reply::Undecodable(_) => r == Err::<Vec<ApiRunner>, ApiErrorKind>(ApiErrorKind::Decode),
            Reply::Status(code) => r == Err::<Vec<ApiRunner>, ApiErrorKind>(
                ApiErrorKind::of_status(code),
            ),
            Reply::Transport(_) => r == Err::<Vec<ApiRunner>, ApiErrorKind>(
                ApiErrorKind::Transport,
            ),
        },
{
    match reply {
        Reply::Listed(v) => Ok(v),
        Reply::Undecodable(_) => Err(ApiErrorKind::Decode),
        Reply::Status(code) => Err(ApiErrorKind::from_status(code)),
        Reply::Transport(_) => Err(ApiErrorKind::Transport),
    }
}

/// How a workflow run is named in an error.
pub open spec fn run_text(repo: Seq<char>, run_id: i64) -> Seq<char> {
    repo + " run "@ + dec(run_id as int)
}

fn run_name(repo: &str, run_id: i64) -> (r: String)
    ensures
        r@ == run_text(repo@, run_id),
{
    let mut s = owned(repo);
    s.append(" run ");
    s.append(dec_i64(run_id).as_str());
    s
}

/// The jobs that GitHub listed for a workflow run, or what stood in the way. A
/// token without the permission is refused here, which only leaves conclusions
/// open.
pub fn list_run_jobs(repo: &str, run_id: i64, reply: Reply<RunJob>) -> (r: Result<
    Vec<RunJob>,
    Error,
>)
    ensures
        match reply {
            Reply::Listed(v) => r == Ok::<Vec<RunJob>, Error>(v),
            Reply::Undecodable(e) => r matches Err(err) && err@ == github_error(
                run_text(repo@, run_id) + ": decoding jobs: "@ + e@,
            ),
            Reply::Status(code) => r matches Err(err) && err@ == github_error(
                run_text(repo@, run_id) + ": HTTP "@ + dec(code as int),
            ),
            Reply::Transport(e) => r matches Err(err) && err@ == github_error(
                run_text(repo@, run_id) + ": transport error: "@ + e@,
            ),
        },
{
    match reply {
        Reply::Listed(v) => Ok(v),
        Reply::Undecodable(e) => {
            let mut s = run_name(repo, run_id);
            s.append(": decoding jobs: ");
            s.append(e.as_str());
            Err(Error::Github(s))
        },
        Reply::Status(code) => {
            let mut s = run_name(repo, run_id);
            s.append(": HTTP ");
            s.append(dec_u64(code as u64).as_str());
            Err(Error::Github(s))
        },
        Reply::Transport(e) => {
            let mut s = run_name(repo, run_id);
            s.append(": transport error: ");
            s.append(e.as_str());
            Err(Error::Github(s))
        },
    }
}

} // verus!
