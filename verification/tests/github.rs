use std::collections::HashSet;

use ghr_stats::github::validate::{count_matches, prefix_check, validate, Verdict};
use ghr_stats::github::{
    bearer, describe_status, jobs_url, list_org_runners, list_org_runners_classified,
    list_run_jobs, runners_url, ApiRunner, Reply, RunJob,
};
use ghr_stats::models::ApiErrorKind;

fn runner(id: i64) -> ApiRunner {
    ApiRunner { id, name: format!("r{id}"), status: "online".to_string(), busy: false }
}

#[test]
fn fine_grained_passes_prefix() {
    assert!(prefix_check("github_pat_ABC").is_ok());
    assert!(prefix_check("  github_pat_ABC  ").is_ok());
}

#[test]
fn classic_is_rejected_with_guidance() {
    for p in ["ghp_x", "gho_x", "ghu_x", "ghs_x", "ghr_x"] {
        let e = prefix_check(p).unwrap_err();
        assert!(e.contains("classic"), "{e}");
        assert!(e.contains("github_pat_"));
        assert!(e.contains("Self-hosted runners: Read"));
    }
}

#[test]
fn garbage_is_rejected() {
    let e = prefix_check("hunter2").unwrap_err();
    assert!(e.contains("unrecognized"));
    assert!(e.contains("github_pat_"));
}

#[test]
fn a_token_is_checked_against_the_local_runners() {
    let local: HashSet<i64> = [1, 2, 9].into_iter().collect();
    let api = || Reply::Listed(vec![runner(1), runner(2), runner(3)]);
    assert_eq!(
        validate("github_pat_x", "acme", &local, api()),
        Verdict::Valid { runners: 3, matched: 2, local: 3 }
    );
    // The prefix decides before the answer.
    assert!(matches!(validate("ghp_x", "acme", &local, api()), Verdict::Rejected(m) if m.contains("classic")));
    assert_eq!(
        validate("github_pat_x", "acme", &local, Reply::Status(401)),
        Verdict::Rejected("github: acme: HTTP 401 \u{2014} token is invalid or expired".to_string())
    );
    assert_eq!(count_matches(&vec![runner(9), runner(9)], &local), 2);
}

#[test]
fn calls_are_addressed() {
    assert_eq!(
        runners_url("acme"),
        "https://api.github.com/orgs/acme/actions/runners?per_page=100"
    );
    assert_eq!(
        jobs_url("acme/app", 77),
        "https://api.github.com/repos/acme/app/actions/runs/77/jobs?per_page=100"
    );
    assert_eq!(bearer("t"), "Bearer t");
}

#[test]
fn refusals_are_actionable() {
    assert_eq!(
        describe_status("o", 403),
        "o: HTTP 403 \u{2014} token lacks 'Self-hosted runners: read', or org approval is pending"
    );
    assert_eq!(
        describe_status("o", 404),
        "o: HTTP 404 \u{2014} org not found, or this token cannot see it (wrong resource owner?)"
    );
    assert_eq!(describe_status("o", 500), "o: HTTP 500 \u{2014} unexpected status");
}

#[test]
fn answers_are_told_apart() {
    assert_eq!(list_org_runners("o", Reply::Listed(vec![runner(1)])).unwrap().len(), 1);
    let text = |reply| list_org_runners("o", reply).unwrap_err().text();
    assert_eq!(text(Reply::Undecodable("x".to_string())), "github: o: decoding response: x");
    assert_eq!(text(Reply::Transport("y".to_string())), "github: o: transport error: y");
    let kind = |reply| list_org_runners_classified(reply).unwrap_err();
    assert_eq!(kind(Reply::Status(404)), ApiErrorKind::NotFound);
    assert_eq!(kind(Reply::Undecodable("x".to_string())), ApiErrorKind::Decode);
    assert_eq!(kind(Reply::Transport("x".to_string())), ApiErrorKind::Transport);
    let job = RunJob { name: "a".to_string(), conclusion: None };
    assert_eq!(list_run_jobs("o/x", 5, Reply::Listed(vec![job])).unwrap().len(), 1);
    let text = |reply| list_run_jobs("o/x", 5, reply).unwrap_err().text();
    assert_eq!(text(Reply::Status(403)), "github: o/x run 5: HTTP 403");
    assert_eq!(text(Reply::Undecodable("e".to_string())), "github: o/x run 5: decoding jobs: e");
    assert_eq!(text(Reply::Transport("e".to_string())), "github: o/x run 5: transport error: e");
}
