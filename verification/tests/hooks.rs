use ghr_stats::hooks::chain::{
    original_from_wrapper, plan_chain_slot, render_chain_wrapper, WRAP_MARKER,
};
use ghr_stats::hooks::env::{install_command, stage_failed};
use ghr_stats::hooks::install::{
    classify, classify_in, current_hook_paths, detect, detect_in, ensure_event_log, env_value,
    hooks_dir, instruct_snippet, remove_hook_vars, rewrite_env, HookStatus,
};
use ghr_stats::hooks::runner_event_log;
use ghr_stats::path::{join, starts_with};
use ghr_stats::privileged::Outcome;

fn our() -> String {
    "/var/lib/ghr-stats/hooks".to_string()
}

#[test]
fn classify_unset_ours_foreign() {
    assert_eq!(classify("", &our()), HookStatus::Unset);
    let ours = "ACTIONS_RUNNER_HOOK_JOB_STARTED=/var/lib/ghr-stats/hooks/job-started.sh\n\
                ACTIONS_RUNNER_HOOK_JOB_COMPLETED=/var/lib/ghr-stats/hooks/job-completed.sh\n";
    assert_eq!(classify(ours, &our()), HookStatus::Ours);
    let foreign = "ACTIONS_RUNNER_HOOK_JOB_STARTED=/usr/local/sbin/cleanup-started.sh\n\
                   ACTIONS_RUNNER_HOOK_JOB_COMPLETED=/usr/local/sbin/cleanup-completed.sh\n";
    assert_eq!(classify(foreign, &our()), HookStatus::Foreign);
    // one ours and one missing: not fully ours
    let half = "ACTIONS_RUNNER_HOOK_JOB_STARTED=/var/lib/ghr-stats/hooks/job-started.sh\n";
    assert_eq!(classify(half, &our()), HookStatus::Foreign);
}

#[test]
fn classify_in_treats_any_scope_dir_as_ours() {
    let sys = "/var/lib/ghr-stats/hooks".to_string();
    let usr = "/home/u/.local/share/ghr-stats/hooks".to_string();
    let dirs = [usr.clone(), sys.clone()];
    let clean = "ACTIONS_RUNNER_HOOK_JOB_STARTED=/var/lib/ghr-stats/hooks/job-started.sh\n\
                 ACTIONS_RUNNER_HOOK_JOB_COMPLETED=/var/lib/ghr-stats/hooks/job-completed.sh\n";
    assert_eq!(classify_in(clean, &dirs), HookStatus::Ours);
    // Chained: the wrappers lie inside our hooks directory.
    let chained = "ACTIONS_RUNNER_HOOK_JOB_STARTED=/var/lib/ghr-stats/hooks/chain-r1-started.sh\n\
         ACTIONS_RUNNER_HOOK_JOB_COMPLETED=/var/lib/ghr-stats/hooks/chain-r1-completed.sh\n";
    assert_eq!(classify_in(chained, &dirs), HookStatus::Ours);
    // Against the user's directory alone it is foreign.
    assert_eq!(classify_in(clean, std::slice::from_ref(&usr)), HookStatus::Foreign);
    // A foreign hook is foreign against both.
    let foreign = "ACTIONS_RUNNER_HOOK_JOB_STARTED=/usr/local/sbin/cleanup.sh\n\
                   ACTIONS_RUNNER_HOOK_JOB_COMPLETED=/usr/local/sbin/cleanup.sh\n";
    assert_eq!(classify_in(foreign, &[usr, sys]), HookStatus::Foreign);
}

#[test]
fn env_value_last_wins_and_strips_quotes() {
    let env = "FOO=bar\nKEY=\"a\"\nKEY=b\n# KEY=c\nTMPDIR=/x\n";
    assert_eq!(env_value(env, "KEY").as_deref(), Some("b"));
    assert_eq!(env_value(env, "MISSING"), None);
}

#[test]
fn rewrite_env_replaces_and_preserves() {
    let existing =
        "TMPDIR=/var/tmp/runner\nACTIONS_RUNNER_HOOK_JOB_STARTED=/old/start.sh\nKEEP=1\n";
    let out = rewrite_env(
        existing,
        "/h/job-started.sh",
        "/h/job-completed.sh",
        Some("/srv/actions-runner/runner-01/.ghr-stats-events.ndjson"),
    );
    assert!(out.contains("TMPDIR=/var/tmp/runner"));
    assert!(out.contains("KEEP=1"));
    assert!(!out.contains("/old/start.sh"));
    assert!(out.contains("ACTIONS_RUNNER_HOOK_JOB_STARTED=/h/job-started.sh"));
    assert!(out.contains("ACTIONS_RUNNER_HOOK_JOB_COMPLETED=/h/job-completed.sh"));
    // The runner's own event log is wired.
    assert!(out.contains(
        "GHR_STATS_EVENT_LOG=/srv/actions-runner/runner-01/.ghr-stats-events.ndjson"
    ));
}

#[test]
fn rewrite_env_none_strips_our_event_log_var() {
    let existing = "KEEP=1\n\
                    GHR_STATS_EVENT_LOG=/srv/actions-runner/runner-01/.ghr-stats-events.ndjson\n";
    let out = rewrite_env(
        existing,
        "/usr/local/sbin/orig-started.sh",
        "/usr/local/sbin/orig-completed.sh",
        None,
    );
    assert!(out.contains("KEEP=1"));
    assert!(!out.contains("GHR_STATS_EVENT_LOG"));
}

#[test]
fn remove_hook_vars_drops_all_three_and_preserves_others() {
    let existing = "TMPDIR=/var/tmp/runner\n\
                    ACTIONS_RUNNER_HOOK_JOB_STARTED=/h/job-started.sh\n\
                    KEEP=1\n\
                    GHR_STATS_EVENT_LOG=/srv/actions-runner/runner-01/.ghr-stats-events.ndjson\n\
                    ACTIONS_RUNNER_HOOK_JOB_COMPLETED=/h/job-completed.sh\n";
    let out = remove_hook_vars(existing);
    assert_eq!(out, "TMPDIR=/var/tmp/runner\nKEEP=1\n");
    // A file of nothing but our three variables becomes empty.
    let only = "ACTIONS_RUNNER_HOOK_JOB_STARTED=/h/job-started.sh\n\
                ACTIONS_RUNNER_HOOK_JOB_COMPLETED=/h/job-completed.sh\n\
                GHR_STATS_EVENT_LOG=/srv/actions-runner/runner-01/.ghr-stats-events.ndjson\n";
    assert_eq!(remove_hook_vars(only), "");
}

#[test]
fn ensure_event_log_adds_when_missing_fixes_stale_noops_when_correct() {
    let log = "/srv/actions-runner/runner-01/.ghr-stats-events.ndjson";
    // Missing: it is added, and the hook variables stay.
    let missing = "ACTIONS_RUNNER_HOOK_JOB_STARTED=/var/lib/ghr-stats/hooks/chain-r1-started.sh\n\
                   ACTIONS_RUNNER_HOOK_JOB_COMPLETED=/var/lib/ghr-stats/hooks/chain-r1-completed.sh\n";
    let out = ensure_event_log(missing, log).expect("a change was needed");
    assert!(out.contains(
        "GHR_STATS_EVENT_LOG=/srv/actions-runner/runner-01/.ghr-stats-events.ndjson"
    ));
    assert!(out.contains("chain-r1-started.sh")); // hook variables kept
    // A stale value is replaced: one line, the right one.
    let stale = "GHR_STATS_EVENT_LOG=/old/path.ndjson\nKEEP=1\n";
    let fixed = ensure_event_log(stale, log).expect("a change was needed");
    assert!(!fixed.contains("/old/path.ndjson"));
    assert_eq!(fixed.matches("GHR_STATS_EVENT_LOG=").count(), 1);
    assert!(fixed.contains("KEEP=1"));
    // Already right: no change.
    assert!(ensure_event_log(&out, log).is_none());
}

#[test]
fn fresh_install_reverses_to_unset() {
    let original = "TMPDIR=/var/tmp/runner\nKEEP=1\n";
    let installed = rewrite_env(
        original,
        "/var/lib/ghr-stats/hooks/job-started.sh",
        "/var/lib/ghr-stats/hooks/job-completed.sh",
        Some("/srv/actions-runner/runner-01/.ghr-stats-events.ndjson"),
    );
    assert_eq!(classify(&installed, &our()), HookStatus::Ours);
    assert!(installed.contains("GHR_STATS_EVENT_LOG="));
    assert_eq!(remove_hook_vars(&installed), original);
}

#[test]
fn install_chain_wrapper_runs_both_and_preserves_rc() {
    let orig = "/usr/local/sbin/cleanup-started.sh";
    let w = render_chain_wrapper(orig, "/var/lib/ghr-stats/hooks/job-started.sh");
    assert!(w.contains("/usr/local/sbin/cleanup-started.sh"));
    assert!(w.contains("/var/lib/ghr-stats/hooks/job-started.sh"));
    assert!(w.contains("exit \"$rc\""));
    // The marker is there, and gives back the original.
    assert!(w.contains(WRAP_MARKER));
    assert_eq!(original_from_wrapper(&w).as_deref(), Some(orig));
}

#[test]
fn chain_chain_wrapper_runs_both_and_preserves_rc() {
    let orig = "/usr/local/sbin/cleanup-started.sh";
    let w = render_chain_wrapper(orig, "/var/lib/ghr-stats/hooks/job-started.sh");
    assert!(w.contains("/usr/local/sbin/cleanup-started.sh"));
    assert!(w.contains("/var/lib/ghr-stats/hooks/job-started.sh"));
    assert!(w.contains("exit \"$rc\""));
    // The marker is there, and gives back the original.
    assert!(w.contains(WRAP_MARKER));
    assert_eq!(original_from_wrapper(&w).as_deref(), Some(orig));
}

#[test]
fn install_plan_chain_slot_wraps_when_original_present_else_wires_our_script() {
    let our = "/var/lib/ghr-stats/hooks/job-started.sh";
    let wrapper = "/var/lib/ghr-stats/hooks/chain-r1-started.sh";
    // With an original: a wrapper is written and wired.
    let (target, w) = plan_chain_slot(Some("/opt/orig.sh"), our, wrapper);
    assert_eq!(target, wrapper);
    let (wp, content) = w.expect("a wrapper to write");
    assert_eq!(wp, wrapper);
    assert!(content.contains("/opt/orig.sh"));
    assert!(content.contains("job-started.sh"));
    // Without one: our script is wired, and no wrapper written.
    let (target, w) = plan_chain_slot(None, our, wrapper);
    assert_eq!(target, our);
    assert!(w.is_none(), "must not fabricate a wrapper with nothing to chain");
}

#[test]
fn chain_plan_chain_slot_wraps_when_original_present_else_wires_our_script() {
    let our = "/var/lib/ghr-stats/hooks/job-started.sh";
    let wrapper = "/var/lib/ghr-stats/hooks/chain-r1-started.sh";
    // With an original: a wrapper is written and wired.
    let (target, w) = plan_chain_slot(Some("/opt/orig.sh"), our, wrapper);
    assert_eq!(target, wrapper);
    let (wp, content) = w.expect("a wrapper to write");
    assert_eq!(wp, wrapper);
    assert!(content.contains("/opt/orig.sh"));
    assert!(content.contains("job-started.sh"));
    // Without one: our script is wired, and no wrapper written.
    let (target, w) = plan_chain_slot(None, our, wrapper);
    assert_eq!(target, our);
    assert!(w.is_none(), "must not fabricate a wrapper with nothing to chain");
}

#[test]
fn install_original_from_wrapper_reads_marker_then_falls_back() {
    // With the marker.
    let w = render_chain_wrapper(
        "/opt/hooks/foreign.sh",
        "/var/lib/ghr-stats/hooks/job-started.sh",
    );
    assert_eq!(original_from_wrapper(&w).as_deref(), Some("/opt/hooks/foreign.sh"));
    // Without it: the first quoted part of a command line.
    let legacy =
        "#!/usr/bin/env bash\n# old\n\"/opt/hooks/foreign.sh\" \"$@\"; rc=$?\nexit \"$rc\"\n";
    assert_eq!(original_from_wrapper(legacy).as_deref(), Some("/opt/hooks/foreign.sh"));
    assert_eq!(original_from_wrapper("not a wrapper\n"), None);
}

#[test]
fn chain_original_from_wrapper_reads_marker_then_falls_back() {
    // With the marker.
    let w = render_chain_wrapper(
        "/opt/hooks/foreign.sh",
        "/var/lib/ghr-stats/hooks/job-started.sh",
    );
    assert_eq!(original_from_wrapper(&w).as_deref(), Some("/opt/hooks/foreign.sh"));
    // Without it: the first quoted part of a command line.
    let legacy =
        "#!/usr/bin/env bash\n# old\n\"/opt/hooks/foreign.sh\" \"$@\"; rc=$?\nexit \"$rc\"\n";
    assert_eq!(original_from_wrapper(legacy).as_deref(), Some("/opt/hooks/foreign.sh"));
    assert_eq!(original_from_wrapper("not a wrapper\n"), None);
}

#[test]
fn install_chained_install_reverses_to_original_foreign() {
    let original = "TMPDIR=/var/tmp/runner\n\
                    ACTIONS_RUNNER_HOOK_JOB_STARTED=/usr/local/sbin/cleanup-started.sh\n\
                    ACTIONS_RUNNER_HOOK_JOB_COMPLETED=/usr/local/sbin/cleanup-completed.sh\n";
    let (orig_started, orig_completed) = current_hook_paths(original);
    let wrap_started = join(&our(), "chain-runner-01-started.sh");
    let wrap_completed = join(&our(), "chain-runner-01-completed.sh");
    let ws = render_chain_wrapper(&orig_started.unwrap(), &wrap_started);
    let wc = render_chain_wrapper(&orig_completed.unwrap(), &wrap_completed);
    let event_log = join(&our(), "../runner-01/.ghr-stats-events.ndjson");
    let installed = rewrite_env(original, &wrap_started, &wrap_completed, Some(&event_log));
    assert_eq!(classify(&installed, &our()), HookStatus::Ours);

    // The originals come back from the wrappers, and the file with them.
    let restored = rewrite_env(
        &installed,
        &original_from_wrapper(&ws).unwrap(),
        &original_from_wrapper(&wc).unwrap(),
        None,
    );
    assert_eq!(restored, original);
}

#[test]
fn chain_chained_install_reverses_to_original_foreign() {
    let original = "TMPDIR=/var/tmp/runner\n\
                    ACTIONS_RUNNER_HOOK_JOB_STARTED=/usr/local/sbin/cleanup-started.sh\n\
                    ACTIONS_RUNNER_HOOK_JOB_COMPLETED=/usr/local/sbin/cleanup-completed.sh\n";
    let (orig_started, orig_completed) = current_hook_paths(original);
    let wrap_started = join(&our(), "chain-runner-01-started.sh");
    let wrap_completed = join(&our(), "chain-runner-01-completed.sh");
    let ws = render_chain_wrapper(&orig_started.unwrap(), &wrap_started);
    let wc = render_chain_wrapper(&orig_completed.unwrap(), &wrap_completed);
    let event_log = join(&our(), "../runner-01/.ghr-stats-events.ndjson");
    let installed = rewrite_env(original, &wrap_started, &wrap_completed, Some(&event_log));
    assert_eq!(classify(&installed, &our()), HookStatus::Ours);

    // The originals come back from the wrappers, and the file with them.
    let restored = rewrite_env(
        &installed,
        &original_from_wrapper(&ws).unwrap(),
        &original_from_wrapper(&wc).unwrap(),
        None,
    );
    assert_eq!(restored, original);
}

#[test]
fn runner_event_log_is_a_dotfile_in_the_install_dir() {
    let dir = "/srv/actions-runner/runner-01";
    let log = runner_event_log(dir);
    assert_eq!(log, join(dir, ".ghr-stats-events.ndjson"));
    assert!(starts_with(&log, dir));
    assert!(!log.contains("_work"));
    assert_eq!(log, "/srv/actions-runner/runner-01/.ghr-stats-events.ndjson");
}

#[test]
fn the_marks_of_a_status() {
    assert_eq!(HookStatus::Ours.glyph(), "\u{2713}");
    assert_eq!(HookStatus::Foreign.glyph(), "\u{2717}");
    assert_eq!(HookStatus::Unset.glyph(), "\u{2717}");
    assert_eq!(HookStatus::Unreadable.glyph(), "?");
}

#[test]
fn an_unreadable_file_is_neither_ours_nor_foreign() {
    assert_eq!(detect(None, &our()), HookStatus::Unreadable);
    assert_eq!(detect(Some(""), &our()), HookStatus::Unset);
    assert_eq!(detect_in(None, &[our()]), HookStatus::Unreadable);
    assert_eq!(hooks_dir("/var/lib/ghr-stats"), our());
}

#[test]
fn values_lose_white_space_and_quotes() {
    assert_eq!(env_value("  KEY = x", "KEY"), None);
    assert_eq!(env_value("KEY= '/a b' \r\n", "KEY").as_deref(), Some("/a b"));
    assert_eq!(env_value("KEY=", "KEY").as_deref(), Some(""));
    assert_eq!(env_value("KEYS=1", "KEY"), None);
}

#[test]
fn a_neighbour_of_our_directory_is_foreign() {
    let env = "ACTIONS_RUNNER_HOOK_JOB_STARTED=/var/lib/ghr-stats/hooks-old/a.sh\n\
               ACTIONS_RUNNER_HOOK_JOB_COMPLETED=/var/lib/ghr-stats/hooks/b.sh\n";
    assert_eq!(classify(env, &our()), HookStatus::Foreign);
}

#[test]
fn rewiring_replaces_what_was_wired() {
    let once = rewrite_env("KEEP=1\n", "/a/s.sh", "/a/c.sh", Some("/a/log"));
    let twice = rewrite_env(&once, "/b/s.sh", "/b/c.sh", None);
    assert_eq!(twice, rewrite_env("KEEP=1\n", "/b/s.sh", "/b/c.sh", None));
    assert_eq!(
        twice,
        "KEEP=1\nACTIONS_RUNNER_HOOK_JOB_STARTED=/b/s.sh\nACTIONS_RUNNER_HOOK_JOB_COMPLETED=/b/c.sh\n"
    );
    assert_eq!(remove_hook_vars(&remove_hook_vars(&once)), "KEEP=1\n");
}

#[test]
fn the_snippet_names_both_scripts() {
    let s = instruct_snippet("/h");
    assert_eq!(
        s,
        "Keep your existing hooks and add ghr-stats event logging by appending one\n\
         line to each (it always exits 0, so it cannot fail a job):\n\
         \n  # in your JOB_STARTED hook:\n  \"/h/job-started.sh\" \"$@\" || true\n\
         \n  # in your JOB_COMPLETED hook:\n  \"/h/job-completed.sh\" \"$@\" || true\n"
    );
}

#[test]
fn a_wrapper_is_written_line_by_line() {
    let w = render_chain_wrapper("/opt/a.sh", "/h/s.sh");
    assert_eq!(
        w,
        "#!/usr/bin/env bash\n\
         # ghr-stats hook chain wrapper \u{2014} runs the existing hook, then records\n\
         # the ghr-stats event (best-effort). Preserves the original's exit code.\n\
         # ghr-stats-wraps: /opt/a.sh\n\
         \"/opt/a.sh\" \"$@\"; rc=$?\n\
         \"/h/s.sh\" \"$@\" >/dev/null 2>&1 || true\n\
         exit \"$rc\"\n"
    );
}

#[test]
fn an_environment_file_is_installed_for_its_owner() {
    assert_eq!(
        install_command("/tmp/x", "/srv/r1/.env", "runner"),
        vec!["install", "-o", "runner", "-g", "runner", "-m", "0644", "/tmp/x", "/srv/r1/.env"]
    );
    assert!(matches!(
        stage_failed(),
        Outcome::Failed { code: None, stderr } if stderr == "could not stage .env update"
    ));
}

#[test]
fn a_variable_whose_name_begins_like_ours_is_not_ours() {
    let env = "GHR_STATS_EVENT_LOG_LEVEL=debug\nKEEP=1\n";
    assert_eq!(remove_hook_vars(env), env);
    assert_eq!(
        rewrite_env(env, "/h/s", "/h/c", None),
        "GHR_STATS_EVENT_LOG_LEVEL=debug\nKEEP=1\n\
         ACTIONS_RUNNER_HOOK_JOB_STARTED=/h/s\n\
         ACTIONS_RUNNER_HOOK_JOB_COMPLETED=/h/c\n"
    );
    assert_eq!(
        ensure_event_log(env, "/l").as_deref(),
        Some("GHR_STATS_EVENT_LOG_LEVEL=debug\nKEEP=1\nGHR_STATS_EVENT_LOG=/l\n")
    );
    // Nor is one that follows a hook variable's name.
    let env = "ACTIONS_RUNNER_HOOK_JOB_STARTED_BY=me\nACTIONS_RUNNER_HOOK_JOB_STARTED=/x\n";
    assert_eq!(remove_hook_vars(env), "ACTIONS_RUNNER_HOOK_JOB_STARTED_BY=me\n");
}

#[test]
fn wiring_reads_back_from_any_file() {
    // Lines that end in carriage returns, and no line feed at the end.
    let env = "A=1\r\r\nACTIONS_RUNNER_HOOK_JOB_STARTED=/old\r\nB=2\r";
    let wired = rewrite_env(env, "/h/s", "/h/c", Some("/l"));
    let (s, c) = current_hook_paths(&wired);
    assert_eq!((s.as_deref(), c.as_deref()), (Some("/h/s"), Some("/h/c")));
    assert_eq!(env_value(&wired, "GHR_STATS_EVENT_LOG").as_deref(), Some("/l"));
    assert_eq!(current_hook_paths(&remove_hook_vars(&wired)), (None, None));
    // A script's path may hold anything: the wrapper still names its original.
    let odd = render_chain_wrapper("/o/s.sh", "/with\nfeed");
    assert_eq!(original_from_wrapper(&odd).as_deref(), Some("/o/s.sh"));
}
