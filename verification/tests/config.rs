use ghr_stats::config::persist::{
    remove_org_token, set_metrics_pull, set_org_token, set_runner_roots, stage_err,
};
use ghr_stats::config::{
    count_tokens, db_path, token_orgs, Config, ConfigFile, Secret, SharedConfig,
};
use ghr_stats::paths::Places;

fn places() -> Places {
    Places {
        home: Some("/home/u".to_string()),
        xdg_config_home: None,
        xdg_data_home: None,
        xdg_runtime_dir: None,
        uid: 1000,
    }
}

fn doc(text: &str) -> toml::Table {
    toml::from_str(text).unwrap()
}

fn token<'a>(doc: &'a toml::Table, org: &str) -> Option<&'a str> {
    doc.get("github")?.get("tokens")?.get(org)?.as_str()
}

#[test]
fn defaults_are_populated() {
    let c = Config::defaults(&places());
    assert_eq!(c.intervals.local_secs, 5);
    assert_eq!(c.intervals.api_secs, 60);
    // No host's runner root is taken for granted.
    assert!(c.runner_roots.is_empty());
    assert!(c.orgs.is_empty());
}

#[test]
fn empty_toml_yields_defaults() {
    let c = Config::load(&places(), "/x", ConfigFile::Absent).unwrap();
    assert_eq!(c.db_path, db_path(&places()));
    assert_eq!(c.intervals.api_secs, 60);
}

#[test]
fn count_tokens_counts_without_exposing_values() {
    let cfg = "runner_roots = []\n\n[github.tokens]\nacme = \"github_pat_SECRET_VALUE\"\nwidgets = \"github_pat_OTHER\"\n";
    assert_eq!(count_tokens(cfg), Some(2));
    // A fallback token counts too.
    let one = "[github]\ntoken = \"github_pat_x\"\n";
    assert_eq!(count_tokens(one), Some(1));
    // No tokens.
    assert_eq!(count_tokens("runner_roots = []\n"), Some(0));
    // Malformed.
    assert_eq!(count_tokens("this is not = = toml ["), None);
}

#[test]
fn token_orgs_returns_sorted_keys_without_exposing_values() {
    let cfg = "runner_roots = []\n\n[github.tokens]\nwidgets = \"github_pat_SECRET\"\nacme = \"github_pat_OTHER\"\n";
    assert_eq!(token_orgs(cfg), vec!["acme", "widgets"]);
    // A fallback alone, or no token of an org's own.
    assert!(token_orgs("[github]\ntoken = \"github_pat_x\"\n").is_empty());
    assert!(token_orgs("runner_roots = []\n").is_empty());
    // Malformed.
    assert!(token_orgs("this is not = = toml [").is_empty());
}

#[test]
fn per_org_token_takes_precedence() {
    let mut c = Config::defaults(&places());
    c.github.tokens.push(("example-org".to_string(), Secret::new("github_pat_xyz".to_string())));
    assert_eq!(c.github_token_for(None, "example-org").as_deref(), Some("github_pat_xyz"));
    assert_eq!(c.github_token_for(Some("env"), "example-org").as_deref(), Some("github_pat_xyz"));
}

#[test]
fn the_environment_comes_before_the_fallback() {
    let mut c = Config::defaults(&places());
    assert_eq!(c.github_token_for(None, "o"), None);
    c.github.token = Some(Secret::new("fallback".to_string()));
    assert_eq!(c.github_token_for(None, "o").as_deref(), Some("fallback"));
    assert_eq!(c.github_token_for(Some(""), "o").as_deref(), Some("fallback"));
    assert_eq!(c.github_token_for(Some("env"), "o").as_deref(), Some("env"));
}

#[test]
fn what_was_found_decides_what_is_loaded() {
    let env = places();
    assert_eq!(Config::load(&env, "/c", ConfigFile::Denied).unwrap().intervals.local_secs, 5);
    let mut c = Config::defaults(&env);
    c.intervals.local_secs = 9;
    assert_eq!(Config::load(&env, "/c", ConfigFile::Parsed(c)).unwrap().intervals.local_secs, 9);
    let e = Config::load(&env, "/c", ConfigFile::Malformed("bad".to_string())).err().unwrap();
    assert_eq!(e.text(), "config: parsing /c: bad");
    let e = Config::load(&env, "/c", ConfigFile::Unreadable("io".to_string())).err().unwrap();
    assert_eq!(e.text(), "config: reading /c: io");
}

#[test]
fn a_shared_configuration_is_replaced_whole() {
    let mut shared = SharedConfig::new(Config::defaults(&places()));
    let before = shared.snapshot();
    let mut c = Config::defaults(&places());
    c.intervals.api_secs = 90;
    shared.store(c);
    assert_eq!(shared.snapshot().intervals.api_secs, 90);
    // A snapshot stays what it was.
    assert_eq!(before.intervals.api_secs, 60);
}

#[test]
fn set_org_token_adds_and_preserves_everything_else() {
    let text = "runner_roots = [\"/srv/r\"]\n\
         [intervals]\nlocal_secs = 9\n\
         [metrics.push]\nenabled = true\nendpoint = \"http://x\"\n";
    let after = set_org_token("config.toml", Some(text), "acme", "github_pat_ABC").unwrap();
    let cfg = doc(&after);
    assert_eq!(token(&cfg, "acme"), Some("github_pat_ABC"));
    // What was not touched survives.
    assert_eq!(cfg["intervals"]["local_secs"].as_integer(), Some(9));
    assert_eq!(cfg["metrics"]["push"]["enabled"].as_bool(), Some(true));
    assert_eq!(cfg["runner_roots"][0].as_str(), Some("/srv/r"));
}

#[test]
fn set_runner_roots_preserves_existing_pats_and_push() {
    let text = "runner_roots = [\"/old\"]\n\
         [github.tokens]\nacme = \"github_pat_KEEP\"\n\
         [metrics.push]\nenabled = true\nendpoint = \"http://x\"\n";
    let roots = ["/srv/a".to_string(), "/srv/b".to_string()];
    let cfg = doc(&set_runner_roots("config.toml", Some(text), &roots).unwrap());
    assert_eq!(
        cfg["runner_roots"].as_array().unwrap().iter().map(|v| v.as_str().unwrap()).collect::<Vec<_>>(),
        vec!["/srv/a", "/srv/b"]
    );
    assert_eq!(token(&cfg, "acme"), Some("github_pat_KEEP"));
    assert_eq!(cfg["metrics"]["push"]["enabled"].as_bool(), Some(true));
}

#[test]
fn remove_org_token_drops_pat_forgets_org_and_preserves_others() {
    let text = "runner_roots = [\"/srv/r\"]\norgs = [\"acme\", \"widgets\"]\n\
         [github.tokens]\nacme = \"github_pat_A\"\nwidgets = \"github_pat_W\"\n\
         [metrics.push]\nenabled = true\n";
    let text = remove_org_token("config.toml", Some(text), "acme").unwrap();
    assert!(!text.contains("github_pat_A"), "acme PAT still present:\n{text}");
    assert!(text.contains("github_pat_W"), "widgets PAT was dropped:\n{text}");
    let cfg = doc(&text);
    assert_eq!(token(&cfg, "acme"), None);
    assert_eq!(token(&cfg, "widgets"), Some("github_pat_W"));
    assert_eq!(cfg["orgs"].as_array().unwrap().len(), 1);
    assert_eq!(cfg["orgs"][0].as_str(), Some("widgets"));
    assert_eq!(cfg["metrics"]["push"]["enabled"].as_bool(), Some(true));
    assert_eq!(cfg["runner_roots"][0].as_str(), Some("/srv/r"));
}

#[test]
fn remove_last_org_token_cleans_the_empty_github_table_and_is_idempotent() {
    let text = "runner_roots = [\"/srv/r\"]\n[github.tokens]\nacme = \"github_pat_A\"\n";
    let text = remove_org_token("config.toml", Some(text), "acme").unwrap();
    assert!(!text.contains("github"), "empty github table should be gone:\n{text}");
    // Removing what is not there changes nothing.
    let again = remove_org_token("config.toml", Some(&text), "acme").unwrap();
    assert_eq!(again, text);
}

#[test]
fn a_missing_file_counts_as_an_empty_one() {
    let cfg = doc(&set_org_token("config.toml", None, "acme", "github_pat_ABC").unwrap());
    assert_eq!(token(&cfg, "acme"), Some("github_pat_ABC"));
    let cfg = doc(&set_metrics_pull("config.toml", None, true, "127.0.0.1:9999").unwrap());
    assert_eq!(cfg["metrics"]["pull"]["enabled"].as_bool(), Some(true));
    assert_eq!(cfg["metrics"]["pull"]["addr"].as_str(), Some("127.0.0.1:9999"));
}

#[test]
fn an_edit_fails_where_something_is_in_the_way() {
    let e = set_org_token("/c", Some("github = 1\n"), "o", "t").err().unwrap();
    assert_eq!(e.text(), "config: `github` is not a table");
    let e = set_metrics_pull("/c", Some("[metrics]\npull = 1\n"), true, "a").err().unwrap();
    assert_eq!(e.text(), "config: `pull` is not a table");
    let e = set_org_token("/c", Some("= ="), "o", "t").err().unwrap();
    assert!(e.text().starts_with("config: parsing /c: "));
}

#[test]
fn a_staging_failure_tells_what_to_do() {
    assert_eq!(
        stage_err("/etc/x", true, "denied").text(),
        "config: /etc/x is the root-owned system config \u{2014} re-run with sudo"
    );
    assert_eq!(
        stage_err("/etc/x", false, "disk full").text(),
        "config: staging config write for /etc/x: disk full"
    );
}

#[test]
fn removal_gives_the_document_back_exactly() {
    let before = "orgs = [\"other\"]\n\n[github.tokens]\nother = \"x\"\n";
    let set = set_org_token("c", Some(before), "acme", "t").unwrap();
    let back = remove_org_token("c", Some(&set), "acme").unwrap();
    assert_eq!(doc(&back), doc(before));
    // An empty table is not kept.
    let set = set_org_token("c", Some("[github]\n"), "acme", "t").unwrap();
    assert_eq!(doc(&remove_org_token("c", Some(&set), "acme").unwrap()), doc(""));
}

#[test]
fn a_configuration_is_copied_whole() {
    let mut c = Config::defaults(&places());
    c.runner_roots = vec!["/srv/a".to_string()];
    c.orgs = vec!["acme".to_string()];
    c.intervals.api_secs = 7;
    c.github.tokens = vec![("acme".to_string(), Secret::new("t".to_string()))];
    c.metrics.pull.enabled = true;
    c.metrics.push.auth = Some(Secret::new("s".to_string()));
    let d = c.clone();
    assert_eq!((&d.db_path, &d.runner_roots, &d.orgs), (&c.db_path, &c.runner_roots, &c.orgs));
    assert_eq!((d.intervals.local_secs, d.intervals.api_secs), (5, 7));
    assert_eq!(d.github.tokens[0].0, "acme");
    assert_eq!(d.github.tokens[0].1.expose(), "t");
    assert!(d.metrics.pull.enabled);
    assert_eq!(d.metrics.push.auth.as_ref().map(|s| s.expose()), Some("s"));
}

#[test]
fn a_reading_is_current_for_three_polls() {
    let mut intervals = Config::defaults(&places()).intervals;
    assert_eq!(intervals.api_max_age(), 180);
    intervals.api_secs = u64::MAX;
    assert_eq!(intervals.api_max_age(), u64::MAX);
}

#[test]
fn removing_an_absent_org_is_no_edit() {
    let before = "orgs = [\"other\"]\n\n[github]\ntoken = \"f\"\n\n[github.tokens]\nother = \"x\"\n";
    let after = remove_org_token("c", Some(before), "acme").unwrap();
    assert_eq!(doc(&after), doc(before));
}

#[test]
fn setting_the_pull_endpoint_keeps_its_neighbours() {
    let before = "[metrics.pull]\nextra = 1\n\n[metrics.push]\nenabled = true\n";
    let after = doc(&set_metrics_pull("c", Some(before), true, "127.0.0.1:1").unwrap());
    let pull = &after["metrics"]["pull"];
    assert_eq!(pull["enabled"].as_bool(), Some(true));
    assert_eq!(pull["addr"].as_str(), Some("127.0.0.1:1"));
    assert_eq!(pull["extra"].as_integer(), Some(1));
    assert_eq!(after["metrics"]["push"]["enabled"].as_bool(), Some(true));
}

#[test]
fn github_may_be_written_by_position_or_as_a_date() {
    assert_eq!(count_tokens("github = []\n"), Some(0));
    assert_eq!(count_tokens("github = [{acme = \"x\"}]\n"), Some(1));
    assert_eq!(token_orgs("github = [{b = \"x\", a = 1}]\n"), ["a", "b"]);
    // The second entry is the fallback; what follows is not looked at.
    assert_eq!(count_tokens("github = [{acme = \"x\"}, \"f\", 3]\n"), Some(2));
    assert_eq!(count_tokens("[[github]]\nacme = \"x\"\n"), Some(1));
    assert_eq!(count_tokens("[[github]]\n[[github]]\n"), Some(1));
    assert_eq!(count_tokens("github = 1979-05-27\n"), Some(0));
    assert_eq!(count_tokens("[github]\ntokens = 1979-05-27\n"), Some(1));
    assert_eq!(token_orgs("[github]\ntokens = 1979-05-27\n"), ["$__toml_private_datetime"]);
    for none in ["github = 1\n", "github = [1]\n", "[github]\ntokens = []\n", "github = [[]]\n"] {
        assert_eq!(count_tokens(none), None);
        assert!(token_orgs(none).is_empty());
    }
}
