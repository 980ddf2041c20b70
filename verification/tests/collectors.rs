use ghr_stats::collectors::cgroup::{
    cpu_usage_usec, dir_for_pid, memory_current, memory_working_set, parse_unified_path,
    parse_usage_usec, parse_working_set, working_set_fits,
};
use ghr_stats::collectors::cpu::{CpuDelta, CpuRateTracker};
use ghr_stats::collectors::procscan::{
    boot_time, parse_btime, parse_starttime, pid_of, read_proc, uptime_secs, ProcInfo,
};
use ghr_stats::collectors::runners::{
    clock_ticks, discover, discover_roots, effective_roots, listener_of, liveness_for, liveness_of,
    org_from_github_url, probe_all, read_runner, roots_from_workdirs, strip_bom,
    systemd_runner_units, unit_name, CgroupFiles, DotRunner, LISTENER_COMM, WORKER_COMM,
};
use ghr_stats::collectors::work_dirs;
use ghr_stats::models::{Liveness, RunnerInfo};

fn proc(uid: u32, comm: &str) -> ProcInfo {
    ProcInfo { pid: 1, uid, comm: comm.to_string(), starttime_ticks: 0 }
}

fn info(name: &str, org: &str, uid: u32) -> RunnerInfo {
    RunnerInfo {
        agent_id: 1,
        name: name.to_string(),
        org: org.to_string(),
        group: None,
        dir: format!("/srv/{name}"),
        work_folder: "_work".to_string(),
        uid,
        user: "runner".to_string(),
    }
}

/// The use in percent.
fn percent(d: CpuDelta) -> f32 {
    (d.usec as f64 / 1_000_000.0 / (d.nanos as f64 / 1_000_000_000.0) * 100.0) as f32
}

const SECOND: u64 = 1_000_000_000;

#[test]
fn unified_path_extracted() {
    let c = "0::/system.slice/actions.runner.example-org.runner-01.service\n";
    assert_eq!(
        parse_unified_path(c).as_deref(),
        Some("/system.slice/actions.runner.example-org.runner-01.service")
    );
}

#[test]
fn unified_path_ignores_v1_lines() {
    let c = "12:pids:/foo\n0::/system.slice/x.service\n5:cpu:/bar\n";
    assert_eq!(parse_unified_path(c).as_deref(), Some("/system.slice/x.service"));
    assert_eq!(parse_unified_path("3:cpu:/only-v1"), None);
}

#[test]
fn usage_usec_parsed() {
    let stat = "usage_usec 123456789\nuser_usec 100\nsystem_usec 200\n";
    assert_eq!(parse_usage_usec(stat), Some(123_456_789));
    assert_eq!(parse_usage_usec("nr_periods 0"), None);
}

#[test]
fn working_set_is_anon_plus_shmem() {
    let stat = "anon 157286400\n\
                file 10855808000\n\
                shmem 4194304\n\
                anon_thp 0\n\
                inactive_anon 1048576\n\
                active_file 10000000000\n\
                inactive_file 855808000\n";
    assert_eq!(parse_working_set(stat), Some(157_286_400 + 4_194_304));
    // A longer key is not taken for a shorter.
    assert_eq!(parse_working_set("anon_thp 999\ninactive_anon 999"), None);
    // Shared memory may be missing.
    assert_eq!(parse_working_set("anon 4096\n"), Some(4096));
}

#[test]
fn working_set_falls_back_to_memory_current_without_stat() {
    assert_eq!(memory_working_set(None, Some("4096\n")), Some(4096));
    assert_eq!(memory_working_set(Some("file 1\n"), Some("4096\n")), None);
    assert_eq!(memory_working_set(Some("anon 7\n"), Some("4096\n")), Some(7));
}

#[test]
fn a_working_set_that_does_not_fit_is_told() {
    assert!(working_set_fits("anon 1\nshmem 2\n"));
    assert!(!working_set_fits("anon 18446744073709551615\nshmem 1\n"));
    assert!(working_set_fits("anon 18446744073709551615\n"));
    assert!(working_set_fits(""));
}

#[test]
fn a_group_leads_to_its_directory() {
    assert_eq!(
        dir_for_pid(Some("0::/system.slice/x.service\n")).as_deref(),
        Some("/sys/fs/cgroup/system.slice/x.service")
    );
    assert_eq!(dir_for_pid(Some("3:cpu:/x\n")), None);
    assert_eq!(dir_for_pid(None), None);
    assert_eq!(memory_current(Some(" 12 \n")), Some(12));
    assert_eq!(memory_current(Some("max\n")), None);
    assert_eq!(memory_current(None), None);
    assert_eq!(cpu_usage_usec(Some("usage_usec 5\n")), Some(5));
    assert_eq!(cpu_usage_usec(None), None);
}

#[test]
fn first_sample_is_none_then_percent_is_computed() {
    let mut t = CpuRateTracker::new();
    let t0 = 0;
    assert_eq!(t.rate("1", Some(0), t0), None);

    // 500_000 microseconds over one second: 50%.
    let t1 = t0 + SECOND;
    let pct = percent(t.rate("1", Some(500_000), t1).expect("second sample"));
    assert!((pct - 50.0).abs() < 0.01, "got {pct}");
}

#[test]
fn counter_reset_and_missing_usage_yield_none() {
    let mut t = CpuRateTracker::new();
    let t0 = 0;
    t.rate("1", Some(1_000_000), t0);
    // A lower value than before counts as a reset.
    assert_eq!(t.rate("1", Some(10), t0 + SECOND), None);
    // A missing value forgets.
    assert_eq!(t.rate("1", None, t0 + 2 * SECOND), None);
    assert_eq!(t.rate("1", Some(20), t0 + 3 * SECOND), None);
}

#[test]
fn distinct_keys_never_cross_contaminate_within_a_tick() {
    let mut t = CpuRateTracker::new();
    let a = "/srv/runners/org-a-runner-1";
    let b = "/srv/runners/org-b-runner-1";
    let t0 = 0;

    // First tick: both seed.
    assert_eq!(t.rate(a, Some(20_000_000), t0), None);
    assert_eq!(t.rate(b, Some(99_000_000), t0 + 50_000), None);

    // Five seconds later each has moved by 250_000 of its own: 5% each.
    let t1 = t0 + 5 * SECOND;
    let ra = percent(t.rate(a, Some(20_250_000), t1).expect("a second"));
    let rb = percent(t.rate(b, Some(99_250_000), t1 + 50_000).expect("b second"));
    assert!((ra - 5.0).abs() < 0.1, "runner a cpu% = {ra}");
    assert!((rb - 5.0).abs() < 0.1, "runner b cpu% = {rb}");
}

#[test]
fn no_time_no_rate() {
    let mut t = CpuRateTracker::new();
    t.rate("x", Some(1), 10);
    assert_eq!(t.rate("x", Some(5), 10), None);
    assert_eq!(t.rate("x", Some(9), 12), Some(CpuDelta { usec: 4, nanos: 2 }));
}

#[test]
fn starttime_handles_comm_with_spaces_and_parens() {
    let line = "1234 (weird ) name) S 1 1 1 0 -1 0 0 0 0 0 0 0 0 0 0 0 0 0 4242 99999";
    assert_eq!(parse_starttime(line), Some(4242));
}

#[test]
fn starttime_simple() {
    let line = "451837 (Runner.Listener) S 451762 451762 451762 0 -1 \
                4194304 0 0 0 0 10 5 0 0 20 0 30 0 8675309 0 0";
    assert_eq!(parse_starttime(line), Some(8675309));
    assert_eq!(parse_starttime("no name"), None);
    assert_eq!(parse_starttime("1 (x) S 1"), None);
}

#[test]
fn uptime_computation() {
    // boot at 1000, 100 ticks a second, started 5000 ticks later: at 1050.
    assert_eq!(uptime_secs(1200, 1000, 100, 5000), Some(150));
    // a negative age is none
    assert_eq!(uptime_secs(1000, 1000, 100, 500_000), None);
    assert_eq!(uptime_secs(1200, 1000, 0, 5000), None);
    assert_eq!(uptime_secs(i64::MAX, i64::MIN, 1, 0), Some(u64::MAX));
}

#[test]
fn btime_parsed() {
    let s = "cpu  1 2 3\nbtime 1700000000\nprocesses 42\n";
    assert_eq!(parse_btime(s), Some(1_700_000_000));
    assert_eq!(parse_btime("no btime here"), None);
    assert_eq!(boot_time(Some(s)), Some(1_700_000_000));
    assert_eq!(boot_time(None), None);
}

#[test]
fn a_process_needs_an_owner_and_a_name() {
    assert_eq!(pid_of("451"), Some(451));
    assert_eq!(pid_of("self"), None);
    assert_eq!(pid_of("4294967296"), None);
    let p = read_proc(7, Some(1000), Some("node\n"), None).unwrap();
    assert_eq!((p.pid, p.uid, p.comm.as_str(), p.starttime_ticks), (7, 1000, "node", 0));
    assert!(read_proc(7, None, Some("node\n"), None).is_none());
    assert!(read_proc(7, Some(1000), None, None).is_none());
}

#[test]
fn roots_from_workdirs_dedups_parents_and_skips_junk() {
    let out = "WorkingDirectory=/srv/runners/r0\n\
               WorkingDirectory=/srv/runners/r1\n\
               WorkingDirectory=\n\
               WorkingDirectory=/\n\
               WorkingDirectory=/opt/actions/solo\n";
    let roots = roots_from_workdirs(out);
    assert_eq!(roots, vec!["/opt/actions".to_string(), "/srv/runners".to_string()]);
}

#[test]
fn paths_sort_by_their_components() {
    let out = "WorkingDirectory=/a-b/x\nWorkingDirectory=/a/b/x\nWorkingDirectory=/a/x/\n\
               WorkingDirectory=/a/./b//y\n";
    assert_eq!(roots_from_workdirs(out), vec!["/a", "/a/b", "/a-b"]);
}

#[test]
fn org_from_url_variants() {
    assert_eq!(
        org_from_github_url("https://github.com/example-org").as_deref(),
        Some("example-org")
    );
    assert_eq!(org_from_github_url("https://github.com/owner/repo").as_deref(), Some("owner"));
    assert_eq!(
        org_from_github_url("https://github.com/example-org/").as_deref(),
        Some("example-org")
    );
    assert_eq!(org_from_github_url("https://github.com/"), None);
    assert_eq!(org_from_github_url("https://github.com"), None);
}

#[test]
fn an_address_is_read_between_the_first_two_schemes() {
    assert_eq!(org_from_github_url("github.com/x").as_deref(), Some("x"));
    assert_eq!(org_from_github_url("a://b/c://d").as_deref(), Some("c"));
    assert_eq!(org_from_github_url("a://b//c"), None);
}

#[test]
fn bom_is_stripped() {
    let with_bom = "\u{feff}{\"x\":1}";
    assert_eq!(strip_bom(with_bom), "{\"x\":1}");
    assert_eq!(strip_bom("{\"x\":1}"), "{\"x\":1}");
}

#[test]
fn dotrunner_parses_real_shape_with_bom() {
    let raw = "\u{feff}{\
        \"agentId\":42,\"agentName\":\"runner-01\",\"poolId\":5,\
        \"poolName\":\"Default Group\",\"gitHubUrl\":\"https://github.com/example-org\",\
        \"workFolder\":\"_work\"}";
    let v: serde_json::Value = serde_json::from_str(&strip_bom(raw)).unwrap();
    let p = DotRunner {
        agent_id: v["agentId"].as_i64().unwrap(),
        agent_name: v["agentName"].as_str().unwrap().to_string(),
        github_url: v["gitHubUrl"].as_str().unwrap().to_string(),
        pool_name: v["poolName"].as_str().map(str::to_string),
        work_folder: v["workFolder"].as_str().map(str::to_string),
    };
    assert_eq!(p.agent_id, 42);
    assert_eq!(p.agent_name, "runner-01");
    assert_eq!(org_from_github_url(&p.github_url).as_deref(), Some("example-org"));
    assert_eq!(p.pool_name.as_deref(), Some("Default Group"));
    let r = read_runner("/srv/runner-01", p, 1000, Some("gh")).unwrap();
    assert_eq!((r.org.as_str(), r.dir.as_str(), r.user.as_str()), ("example-org", "/srv/runner-01", "gh"));
}

#[test]
fn a_runner_without_an_org_is_refused() {
    let parsed = |url: &str| DotRunner {
        agent_id: 1,
        agent_name: "r".to_string(),
        github_url: url.to_string(),
        pool_name: None,
        work_folder: None,
    };
    assert_eq!(
        read_runner("/d", parsed("https://github.com"), 7, None).unwrap_err().github_url,
        "https://github.com"
    );
    let r = read_runner("/d", parsed("https://github.com/o"), 7, None).unwrap();
    assert_eq!((r.work_folder.as_str(), r.user.as_str()), ("_work", "7"));
}

#[test]
fn liveness_precedence() {
    assert_eq!(
        liveness_of(&[&proc(5, LISTENER_COMM), &proc(5, WORKER_COMM)]),
        Liveness::Busy
    );
    assert_eq!(liveness_of(&[&proc(5, LISTENER_COMM)]), Liveness::Idle);
    assert_eq!(liveness_of(&[&proc(5, "node")]), Liveness::Offline);
    assert_eq!(liveness_of(&[]), Liveness::Offline);
}

#[test]
fn liveness_looks_at_the_owners_processes_alone() {
    let procs = vec![proc(5, LISTENER_COMM), proc(6, WORKER_COMM), proc(6, LISTENER_COMM)];
    assert_eq!(liveness_for(5, &procs), Liveness::Idle);
    assert_eq!(liveness_for(6, &procs), Liveness::Busy);
    assert_eq!(liveness_for(7, &procs), Liveness::Offline);
    assert_eq!(listener_of(6, &procs).unwrap().comm, "Runner.Listener");
    assert!(listener_of(7, &procs).is_none());
}

#[test]
fn a_probe_reads_the_group_of_the_listener() {
    let mut listener = proc(5, LISTENER_COMM);
    listener.starttime_ticks = 5000;
    let procs = vec![listener];
    let files = |stat: Option<&str>| {
        Some(CgroupFiles {
            memory_current: Some("100\n".to_string()),
            memory_stat: stat.map(str::to_string),
            cpu_stat: Some("usage_usec 9\n".to_string()),
        })
    };
    let infos = vec![info("a", "o", 5), info("b", "o", 6)];
    let probes = probe_all(
        &infos,
        &procs,
        1200,
        Some(1000),
        100,
        &[files(Some("anon 60\nshmem 4\n")), files(None)],
    );
    assert_eq!(probes.len(), 2);
    assert_eq!((probes[0].mem_bytes, probes[0].mem_current_bytes), (Some(64), Some(100)));
    assert_eq!((probes[0].cpu_usage_usec, probes[0].uptime_s), (Some(9), Some(150)));
    assert_eq!(probes[0].liveness, Liveness::Idle);
    // Without a listener nothing is known of the group.
    assert_eq!((probes[1].mem_bytes, probes[1].cpu_usage_usec), (None, None));
    assert_eq!((probes[1].liveness, probes[1].uptime_s), (Liveness::Offline, None));
}

#[test]
fn runners_are_found_by_name() {
    let found = discover(&[Some(info("b", "o", 1)), None, Some(info("a", "p", 2))]);
    assert_eq!(found.iter().map(|r| r.name.as_str()).collect::<Vec<_>>(), vec!["a", "b"]);
    assert_eq!(work_dirs(&found), vec!["/srv/a/_work", "/srv/b/_work"]);
}

#[test]
fn configured_roots_come_before_discovered_ones() {
    let a = vec!["/a".to_string()];
    let b = vec!["/b".to_string(), "/c".to_string()];
    assert_eq!(effective_roots(&a, &b), a);
    assert_eq!(effective_roots(&[], &b), b);
}

#[test]
fn only_services_are_runner_units() {
    let units = systemd_runner_units(&[
        "actions.runner.o.r1.service".to_string(),
        "actions.runner.o.r1.timer".to_string(),
    ]);
    assert_eq!(units, vec!["actions.runner.o.r1.service"]);
    assert_eq!(
        discover_roots(&units, Some(b"WorkingDirectory=/srv/r/r1\n".as_slice())),
        vec!["/srv/r"]
    );
    assert!(discover_roots(&units, None).is_empty());
    assert!(discover_roots(&[], Some(b"WorkingDirectory=/srv/r/r1\n".as_slice())).is_empty());
    // What is not text is replaced, and does not hide the rest.
    assert_eq!(
        discover_roots(&units, Some(b"\xff\nWorkingDirectory=/srv/\xffr/r1\n".as_slice())),
        vec!["/srv/\u{fffd}r"]
    );
}

#[test]
fn a_unit_name_is_trimmed() {
    assert_eq!(unit_name(Some(" a.service\n")).as_deref(), Some("a.service"));
    assert_eq!(unit_name(Some(" \n")), None);
    assert_eq!(unit_name(None), None);
}

#[test]
fn an_unknown_clock_has_the_usual_rate() {
    assert_eq!(clock_ticks(Some(250)), 250);
    assert_eq!(clock_ticks(Some(0)), 100);
    assert_eq!(clock_ticks(Some(-1)), 100);
    assert_eq!(clock_ticks(None), 100);
}

#[test]
fn a_directory_is_one_runner_however_it_is_spelled() {
    let mut t = CpuRateTracker::new();
    assert_eq!(t.rate("/srv//r1", Some(1), 10), None);
    assert_eq!(t.rate("/srv/./r1/", Some(5), 12), Some(CpuDelta { usec: 4, nanos: 2 }));
    assert_eq!(t.prev.len(), 1);
    // A name is no path of the same spelling from elsewhere.
    assert_eq!(t.rate("srv/r1", Some(9), 14), None);
}
