use hermitgrab::action::install::{InstallAction, record_output};
use hermitgrab::action::link::{LinkAction, link_source};
use hermitgrab::action::patch::PatchAction;
use hermitgrab::action::{ActionOutput, Actions, ContentType, FileOrText, PreprocessingType, SourceSpec, Status};
use hermitgrab::config::{FallbackOperation, GlobalConfig, HermitConfig, InstallConfig, LinkConfig, LinkType, PatchConfig, PatchType};
use hermitgrab::errors::{ConfigError, InstallActionError};
use hermitgrab::render::RenderEnv;
use hermitgrab::sorted::SortedMap;
use hermitgrab::tags::{RequireSet, RequireTag, TagSet};

fn env() -> RenderEnv {
    RenderEnv { xdg_config: None, xdg_data: None, xdg_state: None, home: Some("/home/u".to_string()) }
}

fn reqs_of(reqs: &[&str]) -> RequireSet {
    let mut s: RequireSet = SortedMap::new();
    for r in reqs {
        s.insert(RequireTag::parse(r), ());
    }
    s
}

fn setup() -> (HermitConfig, GlobalConfig) {
    let mut cfg = HermitConfig::create_new("/dot/fish/hermit.toml");
    cfg.requires = reqs_of(&["+fish"]);
    cfg.order = Some(2);
    let g = GlobalConfig::from_paths("/dot", "/home/u", TagSet::new(), Vec::new());
    (cfg, g)
}

#[test]
fn action_output_records_in_order() {
    let mut out = ActionOutput::new();
    assert!(out.is_empty());
    out.add("check", "", "");
    assert!(out.is_empty());
    out.add("check", "ok", "");
    out.add("install", "", "warn");
    out.add("check", "again", "err");
    assert_eq!(out.output_order, vec!["check".to_string(), "install".to_string()]);
    let entries = out.entries();
    assert_eq!(entries[0], ("check".to_string(), Some("again".to_string()), Some("err".to_string())));
    assert_eq!(entries[1], ("install".to_string(), None, Some("warn".to_string())));
    let s = ActionOutput::new_stdout("hi".to_string());
    assert_eq!(s.entries(), vec![("stdout".to_string(), Some("hi".to_string()), None)]);
}

#[test]
fn content_types_and_defaults() {
    assert!(matches!(ContentType::from_extension("JSONC"), ContentType::Json));
    assert!(matches!(ContentType::from_extension("yml"), ContentType::Yaml));
    assert!(matches!(ContentType::from_extension("toml"), ContentType::Toml));
    assert!(matches!(ContentType::from_extension("ini"), ContentType::Unknown));
    assert_eq!(ContentType::Yaml.to_text(), "yaml");
    assert!(ContentType::Auto.is_default());
    assert!(PreprocessingType::Plain.is_default());
    assert!(!PreprocessingType::Handlebars.is_default());
}

#[test]
fn source_specs_normalize() {
    let (cfg, _) = setup();
    let raw = SourceSpec::raw_path("settings.json");
    assert!(!raw.is_normalized());
    assert_eq!(raw.rel_path(), "settings.json");
    let n = raw.normalize_with(&cfg, "/dot/fish/settings.json", "/home/u/x.toml");
    assert!(n.is_normalized());
    assert_eq!(n.rel_path(), "settings.json");
    assert!(matches!(n.content_type, ContentType::Json));
    assert_eq!(n.file(), "/dot/fish/settings.json");
    let n2 = SourceSpec::raw_path("s").normalize_with(&cfg, "/other/s", "/home/u/x.YAML");
    assert_eq!(n2.rel_path(), "/other/s");
    assert!(matches!(n2.content_type, ContentType::Yaml));
    let again = n.normalize_with(&cfg, "/elsewhere", "y");
    assert_eq!(again.file(), "/dot/fish/settings.json");
    let p = SourceSpec::text_file_path("/data", "abc", "/home/u/settings.json");
    assert_eq!(p, format!("/data/hermitgrab/sources/text_{}.json", blake3::hash(b"abc")));
    let p = SourceSpec::text_file_path("/data", "abc", "/home/u/noext");
    assert!(p.ends_with(".rendered"));
}

fn link_config(source: &str, target: &str) -> LinkConfig {
    LinkConfig {
        source: source.to_string(),
        target: target.to_string(),
        link: LinkType::Copy,
        requires: reqs_of(&["-zsh"]),
        fallback: FallbackOperation::Backup,
        order: Some(1),
    }
}

#[test]
fn link_actions_from_entries() {
    let (cfg, g) = setup();
    let lc = link_config("config.fish", "~/.config/fish/config.fish");
    assert_eq!(link_source(&lc, &cfg), "/dot/fish/config.fish");
    assert_eq!(link_source(&link_config("/abs/f", "t"), &cfg), "/abs/f");
    let a = LinkAction::new(&lc, &cfg, &g, &env(), &None, "/dot/fish/config.fish");
    assert_eq!(a.rel_src, "config.fish");
    assert_eq!(a.dst, "/home/u/.config/fish/config.fish");
    assert_eq!(a.rel_dst, ".config/fish/config.fish");
    assert!(matches!(a.fallback, FallbackOperation::Backup));
    assert_eq!(a.get_order(), 2);
    assert_eq!(a.short_description(), "Copy config.fish -> .config/fish/config.fish");
    assert_eq!(a.id(), "LinkAction:config.fish:.config/fish/config.fish:copy:backup:+fish,-zsh");
    assert_eq!(
        a.long_description(),
        "Symlink from /dot/fish/config.fish to /home/u/.config/fish/config.fish (tags: [Positive(Tag(\"fish\", None, Unknown)), Negative(Tag(\"zsh\", None, Unknown))])"
    );
    let b = LinkAction::new(&lc, &cfg, &g, &env(), &Some(FallbackOperation::Delete), "/elsewhere/config.fish");
    assert_eq!(b.rel_src, "config.fish");
    assert!(matches!(b.fallback, FallbackOperation::Delete));
    assert!(matches!(a.get_status(true, false, "OK"), Status::Good(m) if m == ".config/fish/config.fish is linked"));
    assert!(matches!(a.get_status(false, true, "boom"), Status::Error(m) if m == "File check failed for .config/fish/config.fish: boom"));
    assert!(matches!(a.get_status(false, false, "differs"), Status::NotOk(m) if m == ".config/fish/config.fish has issues: differs"));
}

#[test]
fn install_actions_render_commands() {
    let (cfg, g) = setup();
    let mut variables = SortedMap::new();
    variables.insert("exe".to_string(), "fish".to_string());
    variables.insert("name".to_string(), "overridden".to_string());
    let entry = InstallConfig {
        name: "Fish".to_string(),
        check: Some("command -v {{var.exe}}".to_string()),
        install: "install {{var.name}} {{var.exe}}".to_string(),
        requires: reqs_of(&["+os=linux"]),
        variables,
        order: Some(7),
    };
    let a = InstallAction::new(&entry, &cfg, &g, &env()).unwrap();
    assert_eq!(a.check_cmd, Some("command -v fish".to_string()));
    assert_eq!(a.install_cmd, "install Fish fish");
    assert_eq!(a.get_order(), 7);
    assert_eq!(a.requirements().len(), 2);
    assert_eq!(a.short_description(), "Install Fish");
    assert_eq!(a.long_description(), "Install Fish with cmd: \"install Fish fish\")");
    assert!(a.id().starts_with("hermitgrab::action::install::InstallAction:"));
    assert_eq!(a.id().len(), "hermitgrab::action::install::InstallAction:".len() + 16);
    assert!(matches!(a.get_status(&Ok(false)), Status::Good(m) if m == "Fish is installed"));
    assert!(matches!(a.get_status(&Ok(true)), Status::NotOk(m) if m == "Fish is not installed"));
    assert!(matches!(a.get_status(&Err("x".to_string())), Status::Error(m) if m == "Failed to check installation: x"));
    let bad = InstallConfig { check: Some("{{snippet nothere}}".to_string()), ..entry_clone(&entry) };
    assert!(matches!(InstallAction::new(&bad, &cfg, &g, &env()), Err(ConfigError::Render(_))));
}

fn entry_clone(e: &InstallConfig) -> InstallConfig {
    InstallConfig {
        name: e.name.clone(),
        check: e.check.clone(),
        install: e.install.clone(),
        requires: e.requires.dup_map(),
        variables: e.variables.dup_map(),
        order: e.order,
    }
}

#[test]
fn recording_command_output() {
    let mut out: Option<ActionOutput> = None;
    assert!(record_output(&mut out, "true", "check_cmd", "  ", "\n", false, None).is_ok());
    assert!(out.is_none());
    assert!(record_output(&mut out, "c", "check_cmd", " yes \n", "", true, Some(0)).is_ok());
    let o = out.as_ref().unwrap();
    assert_eq!(o.entries(), vec![("check_cmd".to_string(), Some("yes".to_string()), None)]);
    let r = record_output(&mut out, "inst", "install_cmd", "", "failed", false, Some(3));
    assert!(matches!(r, Err(InstallActionError::CommandFailed(c, 3)) if c == "inst"));
    assert_eq!(out.unwrap().output_order, vec!["check_cmd".to_string(), "install_cmd".to_string()]);
}

#[test]
fn patch_actions_describe() {
    let (cfg, g) = setup();
    let patch = PatchConfig {
        source: "vscode_settings.json".to_string(),
        target: "~/.vscode/settings.json".to_string(),
        patch_type: PatchType::JsonMerge,
        requires: reqs_of(&["+user=vscode"]),
        order: None,
    };
    let src = SourceSpec::raw_path("vscode_settings.json").normalize_with(&cfg, "/dot/fish/vscode_settings.json", "/home/u/.vscode/settings.json");
    let a = PatchAction::new(&patch, &cfg, &g, &env(), "/home/u", src);
    assert_eq!(a.rel_dst, ".vscode/settings.json");
    assert_eq!(a.short_description(), "JsonMerge .vscode/settings.json with vscode_settings.json [json]");
    assert_eq!(a.long_description(), "JsonMerge /home/u/.vscode/settings.json with file /dot/fish/vscode_settings.json [json]");
    assert_eq!(a.id(), "PatchAction:vscode_settings.json:.vscode/settings.json:+fish,+user=vscode");
    assert!(matches!(a.get_status(), Status::NotSupported));
    let mut t = a.duplicate();
    t.src.source = FileOrText::Text { text: "{\n  \"a\": 1,\n  \"bbbbbbbbbbbbbbbbbbbbb\": 2\n}".to_string() };
    assert_eq!(
        t.long_description(),
        "JsonMerge /home/u/.vscode/settings.json with '{\\n  \"a\": 1,\\n  \"bbbbbbbbbbbbbbb…' [json]"
    );
    t.src.source = FileOrText::Text { text: "{}".to_string() };
    assert_eq!(t.long_description(), "JsonMerge /home/u/.vscode/settings.json with '{}' [json]");
    let any = Actions::Patch(a);
    assert_eq!(any.get_order(), 2);
    assert!(any.id().starts_with("PatchAction:"));
}
