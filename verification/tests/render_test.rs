use hermitgrab::config::{GlobalConfig, HermitConfig};
use hermitgrab::render::{RenderEnv, pairs_of};
use hermitgrab::sorted::SortedMap;
use hermitgrab::tags::{Tag, TagSet};

fn env() -> RenderEnv {
    RenderEnv { xdg_config: None, xdg_data: None, xdg_state: None, home: Some("/home/u".to_string()) }
}

fn setup() -> (HermitConfig, GlobalConfig) {
    let mut cfg = HermitConfig::create_new("/dot/fish/hermit.toml");
    cfg.snippets.insert("greet".to_string(), "hello {{var.who}}".to_string());
    cfg.snippets.insert("loop".to_string(), "{{snippet loop}}".to_string());
    let mut tags: TagSet = SortedMap::new();
    tags.insert(Tag::parse("arch_alias=arm64"), ());
    tags.insert(Tag::parse("fish"), ());
    let mut other = HermitConfig::create_new("/dot/other/hermit.toml");
    other.snippets.insert("Shared".to_string(), "shared {{dir.home}}".to_string());
    let g = GlobalConfig::from_paths("/dot", "/home/u", tags, vec![other]);
    (cfg, g)
}

fn vars(pairs: &[(&str, &str)]) -> SortedMap<String, String> {
    let mut m = SortedMap::new();
    for (k, v) in pairs {
        m.insert(k.to_string(), v.to_string());
    }
    m
}

#[test]
fn renders_directories_tags_and_variables() {
    let (cfg, g) = setup();
    let out = cfg
        .render_handlebars(&g, &env(), "{{lookup dir \"this\"}} {{dir.hermit}} {{dir.xdg_config}} {{dir.xdg_state}} {{tag.arch_alias}} [{{tag.fish}}] {{var.exe}} ~", &vars(&[("exe", "fish-{{tag.arch_alias}}")]))
        .unwrap();
    assert_eq!(out, "/dot/fish /dot /home/u/.config /home/u/.local/state arm64 [] fish-arm64 /home/u");
}

#[test]
fn environment_overrides_base_directories() {
    let (cfg, g) = setup();
    let e = RenderEnv { xdg_config: Some("/cfg".to_string()), xdg_data: Some("/data".to_string()), xdg_state: None, home: None };
    let out = cfg.render_handlebars(&g, &e, "{{dir.xdg_config}} {{dir.xdg_data}}", &vars(&[])).unwrap();
    assert_eq!(out, "/cfg /data");
}

#[test]
fn snippets_resolve_locally_then_globally() {
    let (cfg, g) = setup();
    let v = vars(&[("who", "you")]);
    assert_eq!(cfg.get_snippet(&g, &env(), "greet", &v), Some("hello you".to_string()));
    assert_eq!(cfg.get_snippet(&g, &env(), "shared", &v), Some("shared /home/u".to_string()));
    assert_eq!(cfg.get_snippet(&g, &env(), "missing", &v), None);
    // A snippet that includes itself never finishes: it is refused.
    assert_eq!(cfg.get_snippet(&g, &env(), "loop", &v), None);
    assert!(cfg.render_handlebars(&g, &env(), "{{snippet nothere}}", &v).is_err());
    assert_eq!(cfg.render_handlebars(&g, &env(), "<{{snippet greet}}>", &v).unwrap(), "<hello you>");
}

#[test]
fn directories_expand() {
    let (cfg, g) = setup();
    assert_eq!(cfg.expand_directory(&g, &env(), "~/.config/fish"), "/home/u/.config/fish");
    assert_eq!(cfg.expand_directory(&g, &env(), "{{lookup dir \"this\"}}/x"), "/dot/fish/x");
    // `this` is a keyword of the template language: the bare path names the map itself.
    assert_eq!(cfg.expand_directory(&g, &env(), "{{dir.this}}/x"), "[object]/x");
    assert_eq!(cfg.expand_directory(&g, &env(), "/abs"), "/abs");
    // A template that fails stays as given, then tilde expansion applies.
    let e = RenderEnv { xdg_config: Some("/cfg".to_string()), xdg_data: None, xdg_state: None, home: Some("/h2".to_string()) };
    assert_eq!(cfg.expand_directory(&g, &e, "~/{{snippet nothere}}"), "/h2/{{snippet nothere}}");
}

#[test]
fn pairs_follow_key_order() {
    let p = pairs_of(&vars(&[("b", "2"), ("a", "1")]));
    assert_eq!(p, vec![("a".to_string(), "1".to_string()), ("b".to_string(), "2".to_string())]);
}
