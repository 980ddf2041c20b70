use ghr_stats::github::{ApiRunner, Reply};
use ghr_stats::models::RunnerInfo;
use ghr_stats::setup::{config_target, render_config, Action, Answer, OrgToken, Stage, Wizard};
use serde::ser::{Serialize, SerializeMap, SerializeStruct, Serializer};

fn token(org: &str, token: &str) -> OrgToken {
    OrgToken { org: org.to_string(), token: token.to_string() }
}

fn info(agent_id: i64, org: &str) -> RunnerInfo {
    RunnerInfo {
        agent_id,
        name: format!("r{agent_id}"),
        org: org.to_string(),
        group: None,
        dir: "/d".to_string(),
        work_folder: "_work".to_string(),
        uid: 1,
        user: "u".to_string(),
    }
}

fn api(id: i64) -> ApiRunner {
    ApiRunner { id, name: "r".to_string(), status: "online".to_string(), busy: false }
}

/// The same settings, through the serializer as one document.
struct Out<'a> {
    roots: Vec<&'a str>,
    tokens: Vec<(&'a str, &'a str)>,
}

struct Intervals;

struct Github<'a>(&'a [(&'a str, &'a str)]);

struct Tokens<'a>(&'a [(&'a str, &'a str)]);

impl Serialize for Intervals {
    fn serialize<S: Serializer>(&self, s: S) -> Result<S::Ok, S::Error> {
        let mut t = s.serialize_struct("Intervals", 2)?;
        t.serialize_field("local_secs", &5u64)?;
        t.serialize_field("api_secs", &60u64)?;
        t.end()
    }
}

impl Serialize for Tokens<'_> {
    fn serialize<S: Serializer>(&self, s: S) -> Result<S::Ok, S::Error> {
        let mut m = s.serialize_map(Some(self.0.len()))?;
        for (k, v) in self.0 {
            m.serialize_entry(k, v)?;
        }
        m.end()
    }
}

impl Serialize for Github<'_> {
    fn serialize<S: Serializer>(&self, s: S) -> Result<S::Ok, S::Error> {
        let mut t = s.serialize_struct("Github", 1)?;
        t.serialize_field("tokens", &Tokens(self.0))?;
        t.end()
    }
}

impl Serialize for Out<'_> {
    fn serialize<S: Serializer>(&self, s: S) -> Result<S::Ok, S::Error> {
        let mut t = s.serialize_struct("Out", 3)?;
        t.serialize_field("runner_roots", &self.roots)?;
        t.serialize_field("intervals", &Intervals)?;
        if !self.tokens.is_empty() {
            t.serialize_field("github", &Github(&self.tokens))?;
        }
        t.end()
    }
}

#[test]
fn render_round_trips_into_config() {
    let tokens = vec![token("pt-immer", "github_pat_xyz")];
    let toml = render_config(&["/mnt/store/ghr".to_string()], &tokens);

    assert!(toml.contains("[github.tokens]"));
    assert!(toml.contains("pt-immer"));
    // The text loads again.
    let cfg: toml::Table = toml::from_str(&toml).expect("generated config parses");
    assert_eq!(
        cfg["runner_roots"].as_array().unwrap().iter().map(|v| v.as_str().unwrap()).collect::<Vec<_>>(),
        vec!["/mnt/store/ghr"]
    );
    assert_eq!(cfg["github"]["tokens"]["pt-immer"].as_str(), Some("github_pat_xyz"));
}

#[test]
fn render_without_tokens_omits_github_table() {
    let toml = render_config(&["/x".to_string()], &vec![]);
    assert!(!toml.contains("[github"));
    let _cfg: toml::Table = toml::from_str(&toml).expect("parses");
}

#[test]
fn the_text_is_that_of_one_document() {
    let head = "# ghr-stats config (written by `ghr-stats setup`). Keep mode 0600.\n\n";
    for tokens in [vec![], vec![("acme", "t\"1"), ("wid gets", "t2")]] {
        for roots in [vec!["/x"], vec!["/x", "/y \\ z"]] {
            let given: Vec<OrgToken> = tokens.iter().map(|(o, t)| token(o, t)).collect();
            let names: Vec<String> = roots.iter().map(|r| r.to_string()).collect();
            let whole =
                toml::to_string_pretty(&Out { roots: roots.clone(), tokens: tokens.clone() }).unwrap();
            assert_eq!(render_config(&names, &given), format!("{head}{whole}"));
        }
    }
}

#[test]
fn the_target_follows_the_environment() {
    assert_eq!(config_target(Some("/p.toml"), Some("/cfg"), Some("/h")), "/p.toml");
    assert_eq!(config_target(None, Some("/cfg"), Some("/h")), "/cfg/ghr-stats/config.toml");
    assert_eq!(config_target(None, None, Some("/h")), "/h/.config/ghr-stats/config.toml");
    assert_eq!(config_target(None, None, None), ".config/ghr-stats/config.toml");
}

fn at_offer() -> Wizard {
    let mut w = Wizard::new("/c.toml");
    w.step(Answer::Confirmed(true));
    w.step(Answer::Typed("/srv".to_string()));
    assert!(matches!(w.action(), Action::Discover { root } if root == "/srv"));
    w.step(Answer::Discovered(vec![info(1, "b"), info(2, "a"), info(3, "b")]));
    assert_eq!(w.said, "found 3 runners across 2 orgs: a, b\n");
    w
}

#[test]
fn a_dialogue_writes_what_it_showed() {
    let mut w = at_offer();
    w.step(Answer::Confirmed(true));
    assert!(matches!(w.action(), Action::Confirm { prompt, default: false } if prompt == "  Token for a?"));
    w.step(Answer::Confirmed(false));
    w.step(Answer::Confirmed(true));
    assert!(matches!(w.action(), Action::Password { prompt } if prompt == "  Paste fine-grained PAT for b"));
    w.step(Answer::Typed(" github_pat_SECRET \n".to_string()));
    assert!(matches!(
        w.action(),
        Action::Ask { org, token } if org == "b" && token == "github_pat_SECRET"
    ));
    w.step(Answer::Asked(Reply::Listed(vec![api(1), api(9)])));
    assert_eq!(w.said, "    \u{2713} valid \u{2014} 2 runners, matched 1/2 local\n");
    assert!(matches!(w.action(), Action::Look { path } if path == "/c.toml"));
    w.step(Answer::Exists(false));
    // The token is masked in what is shown.
    assert!(w.said.contains("b = \"***\""));
    assert!(!w.said.contains("SECRET"));
    assert!(matches!(w.action(), Action::Confirm { prompt, default: true } if prompt == "Write it?"));
    w.step(Answer::Confirmed(true));
    match w.action() {
        Action::Write { path, text } => {
            assert_eq!(path, "/c.toml");
            assert_eq!(
                text,
                render_config(&["/srv".to_string()], &vec![token("b", "github_pat_SECRET")])
            );
        }
        other => panic!("unexpected {other:?}"),
    }
    w.step(Answer::Written);
    assert!(w.said.starts_with("\u{2713} wrote /c.toml\n"));
    assert!(matches!(w.action(), Action::Stop));
}

#[test]
fn a_refused_token_is_stored_only_if_wanted() {
    for keep in [false, true] {
        let mut w = at_offer();
        w.step(Answer::Confirmed(true));
        w.step(Answer::Confirmed(true));
        w.step(Answer::Typed("t".to_string()));
        w.step(Answer::Asked(Reply::Status(401)));
        assert_eq!(
            w.said,
            "    \u{2717} github: a: HTTP 401 \u{2014} token is invalid or expired\n"
        );
        w.step(Answer::Confirmed(keep));
        assert_eq!(w.tokens.len(), usize::from(keep));
        assert_eq!(w.stage, Stage::OrgOffer);
    }
}

#[test]
fn a_no_ends_without_writing() {
    let mut w = Wizard::new("/c.toml");
    assert!(w.said.starts_with("ghr-stats setup\n\nThis will:\n"));
    w.step(Answer::Confirmed(false));
    assert_eq!((w.stage, w.said.as_str()), (Stage::Over, "aborted.\n"));
    w.step(Answer::Confirmed(true));
    assert_eq!(w.stage, Stage::Over);

    // Nothing found: straight to the file, which is there and is kept.
    let mut w = Wizard::new("/c.toml");
    w.step(Answer::Confirmed(true));
    w.step(Answer::Typed("/srv".to_string()));
    w.step(Answer::Discovered(vec![]));
    assert_eq!(w.said, "\u{26a0} no runners found under /srv (no .runner files).\n");
    w.step(Answer::Exists(true));
    assert!(matches!(w.action(), Action::Confirm { prompt, .. } if prompt == "/c.toml exists \u{2014} overwrite?"));
    w.step(Answer::Confirmed(false));
    assert_eq!(w.said, "kept existing config; nothing written.\n");

    // A no to the preview.
    let mut w = at_offer();
    w.step(Answer::Confirmed(false));
    w.step(Answer::Exists(false));
    w.step(Answer::Confirmed(false));
    assert_eq!((w.stage, w.said.as_str()), (Stage::Over, "aborted; nothing written.\n"));
}

#[test]
fn a_blank_token_is_no_token() {
    let mut w = at_offer();
    w.step(Answer::Confirmed(true));
    w.step(Answer::Confirmed(true));
    w.step(Answer::Typed("  \n".to_string()));
    assert_eq!((w.stage, w.at, w.tokens.len()), (Stage::OrgOffer, 1, 0));
    // An answer to something else changes nothing.
    w.step(Answer::Written);
    assert_eq!(w.stage, Stage::OrgOffer);
}
