use ghr_stats::paths::{
    config_write_target, explicit_config_target, resolve_config, Places, Scope,
};
use ghr_stats::privileged::{
    command_line, exe_path, finished, first_line, is_root, is_root_uid, require_root,
    root_guidance, sudo_hint, Outcome,
};
use ghr_stats::systemd::{disable, enable, render_unit, resolve_scope, systemctl};
use ghr_stats::util::{civil_from_days, epoch_of_clock, now_epoch, to_rfc3339_utc};

fn places() -> Places {
    Places {
        home: Some("/home/u".to_string()),
        xdg_config_home: None,
        xdg_data_home: None,
        xdg_runtime_dir: None,
        uid: 1000,
    }
}

#[test]
fn system_scope_uses_etc_and_var_lib() {
    let env = places();
    assert_eq!(Scope::System.config_file(&env), "/etc/ghr-stats/config.toml");
    assert_eq!(Scope::System.db_path(&env), "/var/lib/ghr-stats/ghr-stats.db");
    assert_eq!(Scope::System.event_log(&env), "/var/lib/ghr-stats/events.ndjson");
    assert_eq!(Scope::System.bin_path(&env), "/usr/local/bin/ghr-stats");
}

#[test]
fn system_ipc_socket_lives_on_run_tmpfs() {
    let env = places();
    assert_eq!(Scope::System.runtime_dir(&env), "/run/ghr-stats");
    assert_eq!(Scope::System.socket_path(&env), "/run/ghr-stats/serve.sock");
}

#[test]
fn explicit_config_target_is_shared_by_load_and_write() {
    let p = "/etc/ghr-stats/pinned.toml";
    assert_eq!(explicit_config_target(Some(p), None), Some(p.to_string()));
    assert_eq!(resolve_config(Some(p), None, true), Some(p.to_string()));
    // An explicit file wins over the usual one.
    assert_eq!(config_write_target(Some(p), None), p.to_string());
}

#[test]
fn detect_matches_effective_uid() {
    let expected = if uzers::get_effective_uid() == 0 { Scope::System } else { Scope::User };
    assert_eq!(Scope::detect(), expected);
    assert_eq!(is_root(), uzers::get_effective_uid() == 0);
}

#[test]
fn root_is_user_zero() {
    assert!(is_root_uid(0));
    assert!(!is_root_uid(1000));
    assert!(!is_root_uid(u32::MAX));
}

#[test]
fn instants_sort_as_they_follow_one_another() {
    let instants = [
        (-62_167_219_200, "0000-01-01T00:00:00Z"),
        (-1, "1969-12-31T23:59:59Z"),
        (0, "1970-01-01T00:00:00Z"),
        (951_782_400, "2000-02-29T00:00:00Z"),
        (1_785_000_000, "2026-07-25T17:20:00Z"),
        (253_402_300_799, "9999-12-31T23:59:59Z"),
    ];
    for (epoch, text) in instants {
        assert_eq!(to_rfc3339_utc(epoch), text);
        assert_eq!(to_rfc3339_utc(epoch).len(), 20);
    }
    for pair in instants.windows(2) {
        assert!(to_rfc3339_utc(pair[0].0) < to_rfc3339_utc(pair[1].0));
    }
}

#[test]
fn first_line_picks_first_nonempty() {
    assert_eq!(first_line(b"\n  boom: nope \nmore\n"), "boom: nope");
    assert_eq!(first_line(b""), "");
    assert_eq!(first_line(b"\xffx\n"), "\u{fffd}x");
}

#[test]
fn describe_is_actionable() {
    assert_eq!(Outcome::Done.describe("restart"), "restart: done");
    assert_eq!(
        Outcome::Failed { code: Some(1), stderr: "Unit not found".into() }.describe("restart"),
        "restart: Unit not found"
    );
    assert!(Outcome::Spawn("x".into()).describe("restart").contains("sudo"));
}

#[test]
fn sudo_hint_carries_an_absolute_path() {
    let hint = sudo_hint(Some("/home/u/.cargo/bin/ghr-stats"), "uninstall");
    assert!(hint.starts_with("sudo /"), "not absolute: {hint}");
    assert!(hint.ends_with(" uninstall"));
}

#[test]
fn sudo_hint_has_no_trailing_space_for_the_bare_binary() {
    let exe = Some("/home/u/.cargo/bin/ghr-stats");
    assert_eq!(sudo_hint(exe, ""), format!("sudo {}", exe_path(exe)));
    assert_eq!(exe_path(None), "ghr-stats");
}

#[test]
fn root_is_asked_for_with_a_hint() {
    let exe = Some("/x/ghr-stats");
    assert!(require_root(true, exe, "config").is_ok());
    assert_eq!(require_root(false, exe, "config").unwrap_err(), sudo_hint(exe, "config"));
    assert!(root_guidance(exe).contains("sudo /x/ghr-stats"));
}

#[test]
fn commands_go_through_sudo_unless_root() {
    let argv: Vec<String> = vec!["systemctl".into(), "restart".into(), "x".into()];
    let (program, args) = command_line(&argv, true).unwrap();
    assert_eq!((program.as_str(), args), ("systemctl", argv[1..].to_vec()));
    let (program, args) = command_line(&argv, false).unwrap();
    assert_eq!((program.as_str(), args), ("sudo", argv.clone()));
    assert!(matches!(command_line(&[], true), Err(Outcome::Spawn(m)) if m == "empty command"));
    assert!(finished(true, Some(0), b"").is_ok());
    assert!(matches!(
        finished(false, Some(5), b"\nno\n"),
        Outcome::Failed { code: Some(5), stderr } if stderr == "no"
    ));
}

#[test]
fn rfc3339_matches_known_instants() {
    assert_eq!(to_rfc3339_utc(0), "1970-01-01T00:00:00Z");
    assert_eq!(to_rfc3339_utc(1_784_998_498), "2026-07-25T16:54:58Z");
    // A leap day, and the rule of the century.
    assert_eq!(to_rfc3339_utc(951_782_400), "2000-02-29T00:00:00Z");
    // The end of a year.
    assert_eq!(to_rfc3339_utc(1_735_689_599), "2024-12-31T23:59:59Z");
    assert_eq!(to_rfc3339_utc(1_735_689_600), "2025-01-01T00:00:00Z");
}

#[test]
fn rfc3339_handles_pre_epoch_without_panicking() {
    assert_eq!(to_rfc3339_utc(-1), "1969-12-31T23:59:59Z");
}

#[test]
fn days_are_dates() {
    assert_eq!(civil_from_days(0), (1970, 1, 1));
    assert_eq!(civil_from_days(-1), (1969, 12, 31));
    assert_eq!(civil_from_days(11_016), (2000, 2, 29));
    assert_eq!(civil_from_days(-25_508), (1900, 3, 1));
}

#[test]
fn the_clock_is_past_the_epoch() {
    assert!(now_epoch() > 1_600_000_000);
    assert_eq!(epoch_of_clock(None), 0);
    assert_eq!(epoch_of_clock(Some(5)), 5);
}

#[test]
fn system_unit_runs_serve_and_wants_multi_user() {
    let u = render_unit("/usr/local/bin/ghr-stats", Scope::System);
    assert!(u.contains("ExecStart=/usr/local/bin/ghr-stats serve"));
    assert!(u.contains("WantedBy=multi-user.target"));
    assert!(u.contains("Type=simple"));
}

#[test]
fn user_unit_wants_default_target() {
    let u = render_unit("/home/x/.local/bin/ghr-stats", Scope::User);
    assert!(u.contains("ExecStart=/home/x/.local/bin/ghr-stats serve"));
    assert!(u.contains("WantedBy=default.target"));
}

#[test]
fn units_are_managed_in_their_scope() {
    assert_eq!(resolve_scope(true, true, 1000), Scope::System);
    assert_eq!(resolve_scope(false, true, 0), Scope::User);
    assert_eq!(resolve_scope(false, false, 0), Scope::System);
    assert_eq!(resolve_scope(false, false, 1000), Scope::User);
    assert_eq!(systemctl(Scope::User, &["x".to_string()]), vec!["--user", "x"]);
    assert_eq!(systemctl(Scope::System, &["x".to_string()]), vec!["x"]);
    assert_eq!(enable(Scope::System)[0], vec!["daemon-reload"]);
    assert_eq!(disable(Scope::System)[0], "disable");
}

#[test]
fn a_users_files_follow_the_environment() {
    let mut env = places();
    assert_eq!(Scope::User.config_file(&env), "/home/u/.config/ghr-stats/config.toml");
    assert_eq!(Scope::User.db_path(&env), "/home/u/.local/share/ghr-stats/ghr-stats.db");
    env.xdg_config_home = Some("/cfg".to_string());
    env.xdg_data_home = Some("/data".to_string());
    assert_eq!(Scope::User.config_file(&env), "/cfg/ghr-stats/config.toml");
    assert_eq!(Scope::User.data_dir(&env), "/data/ghr-stats");
    assert_eq!(Scope::of_uid(0), Scope::System);
    assert_eq!(Scope::User.label(), "user");
}

#[test]
fn reads_and_writes_use_the_same_named_file() {
    assert_eq!(resolve_config(None, Some("/v.toml"), true).as_deref(), Some("/v.toml"));
    assert_eq!(config_write_target(None, Some("/v.toml")), "/v.toml");
    assert_eq!(resolve_config(None, None, true).as_deref(), Some("/etc/ghr-stats/config.toml"));
    assert_eq!(resolve_config(None, None, false), None);
    assert_eq!(config_write_target(None, None), "/etc/ghr-stats/config.toml");
}
