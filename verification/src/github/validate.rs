//! Checking a token: it must be fine-grained, and able to read the org's runners;
//! those are then matched against the runners found here.

use std::collections::HashSet;

use vstd::prelude::*;
use vstd::string::*;

use crate::github::{list_org_runners, status_text, ApiRunner, Reply};
use crate::scan::{has_prefix, trim, trimmed};
use crate::store::rows::{at, select, select_rows};
use crate::text::{chars_of, owned};

verus! {

/// What a fine-grained token starts with.
pub const FINE_PREFIX: &'static str = "github_pat_";

/// What to use instead of a token that is refused.
pub const GUIDANCE: &'static str = "use a FINE-GRAINED token (github_pat_…) with Organization → Self-hosted runners: Read (+ Repository → Actions: Read for job results)";

/// What came of checking a token.
#[derive(Debug, PartialEq, Eq)]
pub enum Verdict {
    /// It reads the org's runners; `matched` of them are among the `local` ones.
    Valid { runners: usize, matched: usize, local: usize },
    Rejected(String),
}

/// Whether a token is fine-grained.
pub open spec fn is_fine(token: Seq<char>) -> bool {
    FINE_PREFIX@.is_prefix_of(trim(token))
}

/// Whether a token is of a classic kind.
pub open spec fn is_classic(token: Seq<char>) -> bool {
    let t = trim(token);
    "ghp_"@.is_prefix_of(t) || "gho_"@.is_prefix_of(t) || "ghu_"@.is_prefix_of(t)
        || "ghs_"@.is_prefix_of(t) || "ghr_"@.is_prefix_of(t)
}

/// Why a token is refused without asking.
pub open spec fn refusal(token: Seq<char>) -> Option<Seq<char>> {
    if is_fine(token) {
        None
    } else if is_classic(token) {
        Some("classic token detected — "@ + GUIDANCE@)
    } else {
        Some("unrecognized token — "@ + GUIDANCE@)
    }
}

fn starts(t: &[char], prefix: &str) -> (r: bool)
    ensures
        r == prefix@.is_prefix_of(t@),
{
    let p = chars_of(prefix);
    has_prefix(t, p.as_slice())
}

/// The first test, before any call: only a fine-grained token passes.
pub fn prefix_check(token: &str) -> (r: Result<(), String>)
    ensures
        r is Ok <==> refusal(token@) is None,
        r matches Err(m) ==> refusal(token@) == Some(m@),
{
    let chars = chars_of(token);
    let t = trimmed(chars.as_slice());
    if starts(t, FINE_PREFIX) {
        return Ok(());
    }
    if starts(t, "ghp_") || starts(t, "gho_") || starts(t, "ghu_") || starts(t, "ghs_") || starts(
        t,
        "ghr_",
    ) {
        let mut m = owned("classic token detected — ");
        m.append(GUIDANCE);
        return Err(m);
    }
    let mut m = owned("unrecognized token — ");
    m.append(GUIDANCE);
    Err(m)
}

/// Which of GitHub's runners are among the local ones.
pub open spec fn is_local(api: Seq<ApiRunner>, local: Set<i64>) -> spec_fn(int) -> bool {
    |i: int| local.contains(api[i].id)
}

/// How many of GitHub's runners are among the local ones.
pub open spec fn matches_of(api: Seq<ApiRunner>, local: Set<i64>) -> nat {
    select(is_local(api, local), api.len() as int).len()
}

/// How many of GitHub's runners are among the local ones.
pub fn count_matches(api: &Vec<ApiRunner>, local_ids: &HashSet<i64>) -> (r: usize)
    ensures
        r == matches_of(api@, local_ids@),
{
    broadcast use vstd::std_specs::hash::group_hash_axioms;

    let hit = |i: usize| -> (b: bool)
        requires
            i < api@.len(),
        ensures
            b == local_ids@.contains(api@[i as int].id),
    {
        local_ids.contains(&api[i].id)
    };
    let found = select_rows(api.len(), hit, Ghost(is_local(api@, local_ids@)));
    assert(at(found@).len() == found@.len());
    found.len()
}

/// Check a token for an org against GitHub's answer. A token that does not pass the
/// first test is refused whatever the answer, which need not be asked for then.
pub fn validate(token: &str, org: &str, local_ids: &HashSet<i64>, reply: Reply<ApiRunner>) -> (r:
    Verdict)
    ensures
        refusal(token@) matches Some(g) ==> (r matches Verdict::Rejected(m) && m@ == g),
        refusal(token@) is None ==> match reply {
            Reply::Listed(api) => r matches Verdict::Valid { runners, matched, local } && runners
                == api@.len() && matched == matches_of(api@, local_ids@) && local
                == local_ids@.len(),
            Reply::Undecodable(e) => r matches Verdict::Rejected(m) && m@ == "github: "@ + (org@
                + ": decoding response: "@ + e@),
            Reply::Status(code) => r matches Verdict::Rejected(m) && m@ == "github: "@
                + status_text(org@, code),
            Reply::Transport(e) => r matches Verdict::Rejected(m) && m@ == "github: "@ + (org@
                + ": transport error: "@ + e@),
        },
{
    broadcast use vstd::std_specs::hash::group_hash_axioms;

    match prefix_check(token) {
        Err(g) => Verdict::Rejected(g),
        Ok(_) => match list_org_runners(org, reply) {
            Ok(api) => {
                let matched = count_matches(&api, local_ids);
                Verdict::Valid { runners: api.len(), matched, local: local_ids.len() }
            },
            Err(e) => Verdict::Rejected(e.text()),
        },
    }
}

/// No more runners match than GitHub listed.
pub proof fn matches_are_listed(api: Seq<ApiRunner>, local: Set<i64>)
    ensures
        matches_of(api, local) <= api.len(),
{
    at_most(is_local(api, local), api.len() as int);
}

proof fn at_most(p: spec_fn(int) -> bool, n: int)
    requires
        n >= 0,
    ensures
        select(p, n).len() <= n,
    decreases n,
{
    if n > 0 {
        at_most(p, n - 1);
    }
}

/// A token of the accepted kind is not of a classic kind.
pub proof fn fine_is_not_classic(token: Seq<char>)
    requires
        is_fine(token),
    ensures
        !is_classic(token),
{
    reveal_strlit("github_pat_");
    reveal_strlit("ghp_");
    reveal_strlit("gho_");
    reveal_strlit("ghu_");
    reveal_strlit("ghs_");
    reveal_strlit("ghr_");
    let t = trim(token);
    assert(t[1] == FINE_PREFIX@[1]);
    if is_classic(token) {
        assert(t[1] == 'h');
    }
}

} // verus!
