//! What is said of a token and of an answer, value by value.

use vstd::prelude::*;

use crate::github::status_text;
use crate::github::validate::{is_local, matches_of, refusal};
use crate::github::ApiRunner;
use crate::models::ApiErrorKind;
use crate::scan::trim;
use crate::store::rows::selected_are_counted;
use crate::text::dec;

verus! {

/// A token is taken exactly where it is fine-grained; one of the classic kinds is
/// told apart from one of no kind that is known.
pub proof fn only_fine_tokens_are_taken(token: Seq<char>)
    ensures
        refusal(token) is None <==> "github_pat_"@.is_prefix_of(trim(token)),
        ("ghp_"@.is_prefix_of(trim(token)) || "gho_"@.is_prefix_of(trim(token))
            || "ghu_"@.is_prefix_of(trim(token)) || "ghs_"@.is_prefix_of(trim(token))
            || "ghr_"@.is_prefix_of(trim(token))) && !"github_pat_"@.is_prefix_of(trim(token)) ==> (
        refusal(token) matches Some(m) && "classic token detected — "@.is_prefix_of(m)),
        !("ghp_"@.is_prefix_of(trim(token)) || "gho_"@.is_prefix_of(trim(token))
            || "ghu_"@.is_prefix_of(trim(token)) || "ghs_"@.is_prefix_of(trim(token))
            || "ghr_"@.is_prefix_of(trim(token))) && !"github_pat_"@.is_prefix_of(trim(token)) ==> (
        refusal(token) matches Some(m) && "unrecognized token — "@.is_prefix_of(m)),
{
    let a = "classic token detected — "@;
    let b = "unrecognized token — "@;
    let g = crate::github::validate::GUIDANCE@;
    assert((a + g).subrange(0, a.len() as int) =~= a);
    assert((b + g).subrange(0, b.len() as int) =~= b);
}

/// The runners that count as found here are those of the list whose id is known
/// here.
pub proof fn matches_are_the_known(api: Seq<ApiRunner>, local: Set<i64>)
    ensures
        matches_of(api, local) == Set::new(
            |i: int| 0 <= i < api.len() && local.contains(api[i].id),
        ).len(),
{
    let p = is_local(api, local);
    let n = api.len() as int;
    selected_are_counted(p, n);
    assert(Set::new(|i: int| 0 <= i < n && p(i)) =~= Set::new(
        |i: int| 0 <= i < api.len() && local.contains(api[i].id),
    ));
}

/// What is said of a refused request names the org and the status, and says what can
/// be done: about the token, about what it may do, or about the org.
pub proof fn a_refusal_says_what_to_do(org: Seq<char>, code: u16)
    ensures
        status_text(org, code) == org + ": HTTP "@ + dec(code as int) + " — "@ + (if code == 401 {
            "token is invalid or expired"@
        } else if code == 403 {
            "token lacks 'Self-hosted runners: read', or org approval is pending"@
        } else if code == 404 {
            "org not found, or this token cannot see it (wrong resource owner?)"@
        } else {
            "unexpected status"@
        }),
        ApiErrorKind::Transport.hint_text() == "could not reach GitHub"@,
        ApiErrorKind::Decode.hint_text() == "response did not decode"@,
{
}

} // verus!
