use ghr_stats::models::timeline::Bounded;
use ghr_stats::models::{
    divergent, ApiErrorKind, ApiOrgOutcome, ApiState, GhCount, GhView, Liveness, Mode, Verdict,
};

#[test]
fn newest_keeps_the_tail_and_reports_the_cut() {
    // Rows arrive newest first.
    let b = Bounded::newest(vec![5, 4, 3, 2, 1], 3);
    // The three newest, oldest to newest.
    assert_eq!(b.items, vec![3, 4, 5]);
    assert!(b.limited);
}

#[test]
fn newest_under_the_limit_is_not_marked_limited() {
    let b = Bounded::newest(vec![3, 2, 1], 10);
    assert_eq!(b.items, vec![1, 2, 3]);
    assert!(!b.limited);
}

#[test]
fn newest_at_exactly_the_limit_is_complete() {
    let b = Bounded::newest(vec![3, 2, 1], 3);
    assert_eq!(b.items, vec![1, 2, 3]);
    assert!(!b.limited);
}

#[test]
fn words_of_liveness_round_trip() {
    for l in [Liveness::Idle, Liveness::Busy, Liveness::Offline] {
        assert_eq!(Liveness::from_db(l.as_str()), l);
    }
    assert_eq!(Liveness::from_db("asleep"), Liveness::Offline);
}

#[test]
fn a_reading_is_fresh_stale_or_unknown() {
    let state = ApiState { online: true, busy: false };
    let fresh = GhView::observed(state, 180, 180);
    assert_eq!((fresh.online(), fresh.busy(), fresh.age_s()), (Some(true), Some(false), Some(180)));
    let stale = GhView::observed(state, 181, 180);
    assert_eq!((stale.online(), stale.age_s()), (None, Some(181)));
    assert_eq!(GhView::Unknown.age_s(), None);
    // A window beyond all ages keeps everything fresh.
    assert!(matches!(GhView::observed(state, i64::MAX, u64::MAX), GhView::Fresh { .. }));
}

#[test]
fn only_a_fresh_view_can_diverge() {
    let off = ApiState { online: false, busy: false };
    assert_eq!(divergent(Liveness::Idle, GhView::observed(off, 0, 10)), Some(true));
    assert_eq!(divergent(Liveness::Idle, GhView::observed(off, 11, 10)), None);
    assert_eq!(divergent(Liveness::Busy, GhView::Unknown), None);
    assert_eq!(divergent(Liveness::Offline, GhView::observed(off, 0, 10)), Some(false));
}

#[test]
fn failures_have_a_label_a_hint_and_perhaps_a_status() {
    for (code, label) in [(401, "http_401"), (403, "http_403"), (404, "http_404"), (502, "http_502")]
    {
        let kind = ApiErrorKind::from_status(code);
        assert_eq!(kind.label(), label);
        assert_eq!(kind.http_status(), Some(code));
    }
    assert_eq!(ApiErrorKind::Transport.http_status(), None);
    assert_eq!(ApiErrorKind::Decode.label(), "decode");
    assert_eq!(ApiErrorKind::from_status(401).hint(), "token is invalid or expired");
}

#[test]
fn an_outcome_names_its_org() {
    let o = ApiOrgOutcome::Unconfigured { org: "acme".to_string() };
    assert_eq!(o.org(), "acme");
    assert_eq!(o.org_owned(), "acme");
}

#[test]
fn a_count_of_nothing_is_no_count() {
    assert!(GhCount::new(0, 0).is_none());
    assert_eq!(GhCount::new(0, 3).map(|c| (c.online, c.known)), Some((0, 3)));
}

#[test]
fn verdicts_have_exit_codes() {
    assert_eq!(Verdict::Healthy.exit_code(), 0);
    assert_eq!(Verdict::Degraded.exit_code(), 1);
    assert_eq!(Verdict::Unknown.exit_code(), 2);
    assert_eq!(Mode::Persistent.as_str(), "persistent");
    assert_eq!(Mode::Ephemeral.as_str(), "ephemeral");
}
