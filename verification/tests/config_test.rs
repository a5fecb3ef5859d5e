use hermitgrab::action::install::InstallAction;
use hermitgrab::config::InstallConfig;
use hermitgrab::config::{DetectorConfig, GlobalConfig, HermitConfig};
use hermitgrab::errors::{ApplyError, ConfigError};
use hermitgrab::tags::{RequireSet, RequireTag, Tag};
use hermitgrab::render::RenderEnv;
use hermitgrab::sorted::SortedMap;
use hermitgrab::tags::TagSet;

fn no_env() -> RenderEnv {
    RenderEnv { xdg_config: None, xdg_data: None, xdg_state: None, home: None }
}

#[test]
fn test_handlebar_snippets() {
    let mut hermit = HermitConfig::create_new("bla/hermit.toml");
    hermit.snippets.insert("echo1".to_string(), "echo 1".to_string());
    hermit.snippets.insert("echo2".to_string(), "echo 2;{{ snippet echo1 }}".to_string());
    hermit.snippets.insert("echo3".to_string(), "echo 3;{{ snippet echo2 }}".to_string());
    let global = GlobalConfig::from_paths("", "", TagSet::new(), Vec::new());
    let env = no_env();
    let vars: SortedMap<String, String> = SortedMap::new();
    let snippet = hermit.get_snippet(&global, &env, "echo1", &vars).unwrap();
    assert_eq!(snippet, "echo 1");
    let snippet = hermit.get_snippet(&global, &env, "echo2", &vars).unwrap();
    assert_eq!(snippet, "echo 2;echo 1");
    let snippet = hermit.get_snippet(&global, &env, "echo3", &vars).unwrap();
    assert_eq!(snippet, "echo 3;echo 2;echo 1");
}

#[test]
fn test_stable_hash_generation() {
    let global = GlobalConfig::from_paths("", "", TagSet::new(), Vec::new());
    let config = HermitConfig::create_new("hermit.toml");
    let install_config = InstallConfig {
        name: "Hello World".to_string(),
        check: Some("true".to_string()),
        install: String::new(),
        requires: SortedMap::new(),
        variables: SortedMap::new(),
        order: None,
    };
    let action = InstallAction::new(&install_config, &config, &global, &no_env()).unwrap();
    let id = action.id();
    assert_eq!("hermitgrab::action::install::InstallAction:7370f721c8e5df3a", &id);
}

fn tagset(tags: &[&str]) -> TagSet {
    let mut s: TagSet = SortedMap::new();
    for t in tags {
        s.insert(Tag::parse(t), ());
    }
    s
}

fn reqs_of(reqs: &[&str]) -> RequireSet {
    let mut s: RequireSet = SortedMap::new();
    for r in reqs {
        s.insert(RequireTag::parse(r), ());
    }
    s
}

fn sample_configs() -> Vec<HermitConfig> {
    let mut a = HermitConfig::create_new("/h/a/hermit.toml");
    a.requires = reqs_of(&["+fish", "-zsh"]);
    a.profiles.insert("Work".to_string(), tagset(&["fish", "work"]));
    a.profiles.insert("default".to_string(), tagset(&["fish"]));
    a.snippets.insert("Apt".to_string(), "apt install {{name}}".to_string());
    a.detectors.insert("has_git".to_string(), DetectorConfig::EnableIf { enable_if: "command -v git".to_string() });
    let mut b = HermitConfig::create_new("/h/b/hermit.toml");
    b.profiles.insert("work".to_string(), tagset(&["rust"]));
    b.snippets.insert("apt".to_string(), "ignored".to_string());
    b.requires = reqs_of(&["+os=linux", "+work"]);
    vec![a, b]
}

#[test]
fn from_paths_merges_files() {
    let g = GlobalConfig::from_paths("/h", "/home/u", tagset(&["os=linux"]), sample_configs());
    assert_eq!(g.hermit_dir(), "/h");
    assert_eq!(g.home_dir(), "/home/u");
    assert_eq!(g.subconfigs().len(), 2);
    assert!(g.subconfigs().get_str("a/hermit.toml").is_some());
    assert!(g.subconfigs().get_str("b/hermit.toml").is_some());
    // The first declaration of a snippet counts, under its lower-cased name.
    assert_eq!(g.get_snippet("apt"), Some(&"apt install {{name}}".to_string()));
    assert_eq!(g.get_snippet("Apt"), None);
    // The last declaration of a profile counts.
    let work = g.get_tags_for_profile("WORK").unwrap();
    assert_eq!(work.len(), 1);
    assert_eq!(work.key(0).name(), "rust");
    assert!(matches!(g.get_tags_for_profile("none"), Err(ApplyError::ProfileNotFound(p)) if p == "none"));
    assert_eq!(g.all_required_tags().len(), 4);
    assert!(g.requires_tag_named("zsh"));
    assert!(!g.requires_tag_named("bash"));
    assert_eq!(g.all_detectors().len(), 1);
    assert_eq!(g.all_detected_tags().len(), 1);
}

#[test]
fn active_tags_combine_sources() {
    let g = GlobalConfig::from_paths("/h", "/home/u", tagset(&["os=linux"]), sample_configs());
    let active = g.get_active_tags(&vec![" Fish , work".to_string(), ",".to_string()], &None).unwrap();
    let names: Vec<String> = (0..active.len()).map(|i| active.key(i).to_text()).collect();
    assert_eq!(names, vec!["fish".to_string(), "os=linux".to_string(), "work".to_string()]);
    let active = g.get_active_tags(&Vec::new(), &Some("WORK".to_string())).unwrap();
    let names: Vec<String> = (0..active.len()).map(|i| active.key(i).to_text()).collect();
    assert_eq!(names, vec!["os=linux".to_string(), "rust".to_string()]);
    let err = g.get_active_tags(&vec!["fish,bash,zzz".to_string()], &None).unwrap_err();
    assert!(matches!(err, ConfigError::TagNotFound(t) if t == "bash"));
    // An unknown profile adds nothing.
    let active = g.get_active_tags(&Vec::new(), &Some("nope".to_string())).unwrap();
    assert_eq!(active.len(), 1);
}

#[test]
fn profile_lookup() {
    let g = GlobalConfig::from_paths("/h", "/home/u", TagSet::new(), sample_configs());
    assert_eq!(g.get_profile(&Some("WoRk".to_string())).unwrap(), Some((1, "work".to_string())));
    assert_eq!(g.get_profile(&None).unwrap(), Some((0, "default".to_string())));
    assert!(matches!(g.get_profile(&Some("x".to_string())), Err(ApplyError::ProfileNotFound(p)) if p == "x"));
    let empty = GlobalConfig::from_paths("/h", "/home/u", TagSet::new(), Vec::new());
    assert_eq!(empty.get_profile(&None).unwrap(), None);
}

#[test]
fn root_config_lookup() {
    let cfg = HermitConfig::create_new("hermit.toml");
    let g = GlobalConfig::from_paths("", "", TagSet::new(), vec![cfg]);
    assert_eq!(g.root_config().unwrap().path(), "hermit.toml");
    let cfg = HermitConfig::create_new("/h/hermit.toml");
    let g = GlobalConfig::from_paths("/h", "", TagSet::new(), vec![cfg]);
    assert!(g.root_config().is_none());
}

#[test]
fn detected_tags_extend() {
    let mut g = GlobalConfig::from_paths("/h", "/home/u", tagset(&["os=linux"]), Vec::new());
    g.extend_detected_tags(vec![Tag::parse("git"), Tag::parse("os=linux")]);
    assert_eq!(g.all_detected_tags().len(), 2);
}

#[test]
fn config_orders_and_requirements() {
    let mut cfg = HermitConfig::create_new("/h/a/hermit.toml");
    assert_eq!(cfg.directory(), "/h/a");
    assert_eq!(cfg.total_order(Some(3)), 3);
    cfg.order = Some(5);
    assert_eq!(cfg.total_order(Some(3)), 5);
    assert_eq!(cfg.total_order(None), 5);
    cfg.requires = reqs_of(&["+a", "-b"]);
    let all = cfg.get_all_requires(&reqs_of(&["+c", "+a"]));
    let texts: Vec<String> = (0..all.len()).map(|i| all.key(i).to_text()).collect();
    assert_eq!(texts, vec!["+a".to_string(), "+c".to_string(), "-b".to_string()]);
}
