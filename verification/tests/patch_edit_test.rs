use hermitgrab::action::content::{merge_contents, patch_contents, write_content};
use hermitgrab::json::Json;
use hermitgrab::action::install::{InstallAction, InstallStep, install_step};
use hermitgrab::action::{Actions, ContentType};
use hermitgrab::config::{GlobalConfig, HermitConfig, duplicate_keys};
use hermitgrab::config_text::{add_profile_text, insert_entry};
use hermitgrab::detector::{MachineInfo, ScriptOutcome, builtin_tags};
use hermitgrab::errors::{AddError, ConfigError, PatchActionError};
use hermitgrab::plan::create_plan_from;
use hermitgrab::render::RenderEnv;
use hermitgrab::sorted::SortedMap;
use hermitgrab::tags::{Source, Tag, TagSet};

fn value(text: &str) -> serde_json::Value {
    serde_json::from_str(text).unwrap()
}

#[test]
fn json_merge_follows_json_patch() {
    let dst = r#"{"title":"Goodbye!","author":{"givenName":"John","familyName":"Doe"},"tags":["example","sample"],"content":"This will be unchanged"}"#;
    let src = r#"{"title":"Hello!","phoneNumber":"+01-123-456-7890","author":{"familyName":null},"tags":["example"]}"#;
    let merged = merge_contents(src, dst, &ContentType::Json).unwrap();
    let mut expected = value(dst);
    json_patch::merge(&mut expected, &value(src));
    assert_eq!(value(&merged), expected);
    assert_eq!(
        value(&merged),
        value(r#"{"title":"Hello!","author":{"givenName":"John"},"tags":["example"],"content":"This will be unchanged","phoneNumber":"+01-123-456-7890"}"#)
    );
}

#[test]
fn json_merge_reads_comments_and_replaces_non_objects() {
    let merged = merge_contents("// new\n{\"a\": {\"b\": 1}}", "{\"a\": 5, \"c\": [1, 2.5]}", &ContentType::Json).unwrap();
    assert_eq!(value(&merged), value(r#"{"a":{"b":1},"c":[1,2.5]}"#));
    let merged = merge_contents("[1, 2]", "{\"a\": 1}", &ContentType::Json).unwrap();
    assert_eq!(value(&merged), value("[1,2]"));
}

#[test]
fn json_merge_into_missing_file_fails() {
    assert!(matches!(merge_contents("{\"a\": 1}", "", &ContentType::Json), Err(PatchActionError::SerdeJson(_))));
    assert!(matches!(merge_contents("{", "{}", &ContentType::Json), Err(PatchActionError::JsoncParse(_))));
}

#[test]
fn yaml_and_toml_merge() {
    let merged = merge_contents("b: null\nc: 3\n", "a: 1\nb: 2\n", &ContentType::Yaml).unwrap();
    let v: serde_yaml_ng::Value = serde_yaml_ng::from_str(&merged).unwrap();
    let expected: serde_yaml_ng::Value = serde_yaml_ng::from_str("a: 1\nc: 3\n").unwrap();
    assert_eq!(v, expected);
    let merged = merge_contents("[x]\nz = 2\n", "[x]\ny = 1\n", &ContentType::Toml).unwrap();
    let v: toml::Value = toml::from_str(&merged).unwrap();
    let expected: toml::Value = toml::from_str("[x]\ny = 1\nz = 2\n").unwrap();
    assert_eq!(v, expected);
    assert!(matches!(merge_contents("a = ", "", &ContentType::Toml), Err(PatchActionError::TomlDeserialize(_))));
}

#[test]
fn json_patch_operations() {
    let patched = patch_contents(r#"[{"op":"add","path":"/b","value":2}]"#, r#"{"a":1}"#, &ContentType::Json).unwrap();
    assert_eq!(value(&patched), value(r#"{"a":1,"b":2}"#));
    assert!(matches!(
        patch_contents(r#"{"op":"add"}"#, r#"{"a":1}"#, &ContentType::Json),
        Err(PatchActionError::SerdeJson(_))
    ));
    assert!(matches!(
        patch_contents(r#"[{"op":"remove","path":"/zz"}]"#, r#"{"a":1}"#, &ContentType::Json),
        Err(PatchActionError::Patch(_))
    ));
}

#[test]
fn entries_are_appended_once() {
    let text = "# links\n[[link]]\nsource = \"a\"\ntarget = \"~/a\"\n";
    let out = insert_entry(text, "/h/hermit.toml", "link", "{ source = \"b\", target = \"~/b\" }", "b", "~/b").unwrap();
    assert!(out.starts_with("# links\n"));
    let v: toml::Value = toml::from_str(&out).unwrap();
    let links = v["link"].as_array().unwrap();
    assert_eq!(links.len(), 2);
    assert_eq!(links[1]["source"].as_str(), Some("b"));
    let fresh = insert_entry("", "/h/hermit.toml", "patch", "{ source = \"p\", target = \"~/p\" }", "p", "~/p").unwrap();
    let v: toml::Value = toml::from_str(&fresh).unwrap();
    assert_eq!(v["patch"].as_array().unwrap().len(), 1);
    assert!(matches!(
        insert_entry(text, "/h/hermit.toml", "link", "{ source = \"a\", target = \"~/a\" }", "a", "~//a"),
        Err(AddError::SourceAlreadyExists(s)) if s == "a"
    ));
    assert!(matches!(
        insert_entry("link = 1\n", "/h/hermit.toml", "link", "{ source = \"a\", target = \"~/a\" }", "a", "~/a"),
        Err(AddError::ExpectedTable(k, t)) if k == "link" && t == "integer"
    ));
    assert!(matches!(
        insert_entry("[[", "/h/hermit.toml", "link", "{ source = \"a\", target = \"~/a\" }", "a", "~/a"),
        Err(AddError::ConfigLoad(ConfigError::DeserializeDocumentToml(_, p))) if p == "/h/hermit.toml"
    ));
}

#[test]
fn profiles_gain_missing_tags() {
    let tags = vec![Tag::parse("b"), Tag::parse("A"), Tag::parse("b")];
    let (text, names, fresh) = add_profile_text("", "/h/hermit.toml", "work", &tags).unwrap();
    assert!(fresh);
    assert_eq!(names, vec!["a".to_string(), "b".to_string()]);
    let v: toml::Value = toml::from_str(&text).unwrap();
    assert_eq!(v["profiles"]["work"].as_array().unwrap().len(), 2);
    let (text, names, fresh) =
        add_profile_text("[profiles]\nwork = [\"a\"]\n", "/h/hermit.toml", "work", &vec![Tag::parse("a"), Tag::parse("c")])
            .unwrap();
    assert!(!fresh);
    assert_eq!(names, vec!["c".to_string()]);
    let v: toml::Value = toml::from_str(&text).unwrap();
    assert_eq!(v["profiles"]["work"].as_array().unwrap().len(), 2);
    assert!(matches!(
        add_profile_text("[profiles]\nwork = [\"a\", 1]\n", "/h/hermit.toml", "work", &tags),
        Err(AddError::ExpectedString(k, t)) if k == "profiles.work[1]" && t == "integer"
    ));
    assert!(matches!(
        add_profile_text("profiles = 1\n", "/h/hermit.toml", "work", &tags),
        Err(AddError::ExpectedTable(k, t)) if k == "profiles" && t == "integer"
    ));
    assert!(matches!(
        add_profile_text("[profiles]\nwork = \"x\"\n", "/h/hermit.toml", "work", &tags),
        Err(AddError::ExpectedArray(k, t)) if k == "profiles.work" && t == "string"
    ));
}

#[test]
fn only_a_succeeding_check_skips_installing() {
    let ok = ScriptOutcome { success: true, code: Some(0), stdout: String::new() };
    let failed = ScriptOutcome { success: false, code: Some(1), stdout: String::new() };
    assert_eq!(install_step(&Some(ok)), InstallStep::AlreadyInstalled);
    assert_eq!(install_step(&Some(failed)), InstallStep::RunInstall);
    assert_eq!(install_step(&None), InstallStep::RunInstall);
}

fn install(name: &str, order: u64) -> Actions {
    Actions::Install(InstallAction {
        name: name.to_string(),
        requires: SortedMap::new(),
        check_cmd: None,
        install_cmd: String::new(),
        order,
    })
}

#[test]
fn plans_keep_prepared_actions_and_report_the_rest() {
    let built = vec![
        ("b".to_string(), Ok(install("late", 5))),
        ("b".to_string(), Err("Link \"x\"->\"y\": missing".to_string())),
        ("a".to_string(), Ok(install("early", 1))),
        ("a".to_string(), Ok(install("late2", 5))),
    ];
    let (plan, errors) = create_plan_from(built);
    let names: Vec<String> = plan
        .iter()
        .iter()
        .map(|(_, a)| match a {
            Actions::Install(i) => i.name.clone(),
            _ => String::new(),
        })
        .collect();
    assert_eq!(names, vec!["early", "late", "late2"]);
    assert_eq!(errors, vec![("b".to_string(), "Link \"x\"->\"y\": missing".to_string())]);
}

#[test]
fn this_dir_names_the_file_directory() {
    let cfg = HermitConfig::create_new("/cfg/fish/hermit.toml");
    let global = GlobalConfig::from_paths("/cfg", "/home/u", TagSet::new(), Vec::new());
    let env = RenderEnv { xdg_config: None, xdg_data: None, xdg_state: None, home: Some("/home/u".to_string()) };
    let vars: SortedMap<String, String> = SortedMap::new();
    let out = cfg.render_handlebars(&global, &env, "{{ dir.this_dir }}/confirm.txt", &vars).unwrap();
    assert_eq!(out, "/cfg/fish/confirm.txt");
}

#[test]
fn builtin_tags_come_from_the_builtin_detector() {
    let m = MachineInfo {
        user: "u".to_string(),
        hostname: None,
        os_family: "unix".to_string(),
        os: "linux".to_string(),
        arch: "x86_64".to_string(),
        os_version: "1".to_string(),
        os_edition: None,
        os_codename: None,
        bitness: Some(64),
    };
    let tags = builtin_tags(&m);
    assert!(tags.len() > 0);
    for i in 0..tags.len() {
        assert!(matches!(tags.key(i).source(), Source::BuiltInDetector));
    }
}

#[test]
fn repeated_keys_are_reported() {
    let mut a = HermitConfig::create_new("/h/a/hermit.toml");
    a.snippets.insert("Ubi".to_string(), "x".to_string());
    a.profiles.insert("Work".to_string(), TagSet::new());
    let mut b = HermitConfig::create_new("/h/b/hermit.toml");
    b.snippets.insert("ubi".to_string(), "y".to_string());
    b.snippets.insert("other".to_string(), "z".to_string());
    b.profiles.insert("WORK".to_string(), TagSet::new());
    let errors = duplicate_keys(&vec![a, b]);
    let messages: Vec<String> = errors.iter().map(|e| e.message()).collect();
    assert_eq!(
        messages,
        vec![
            "Redeclaration of source: ubi found in file /h/b/hermit.toml".to_string(),
            "Duplicate profile found: work in file /h/b/hermit.toml".to_string(),
        ]
    );
}

#[test]
fn numbers_that_are_no_numbers_are_refused() {
    assert!(matches!(write_content(&Json::Number("x".to_string()), &ContentType::Json), Err(PatchActionError::SerdeJson(_))));
    assert_eq!(write_content(&Json::Number("2.5".to_string()), &ContentType::Json).unwrap(), "2.5");
}

#[test]
fn a_tag_name_shown_twice_keeps_its_last_value() {
    let cfg = HermitConfig::create_new("/cfg/hermit.toml");
    let mut tags: TagSet = SortedMap::new();
    tags.insert(Tag::parse("os=a"), ());
    tags.insert(Tag::parse("os=b"), ());
    let global = GlobalConfig::from_paths("/cfg", "/home/u", tags, Vec::new());
    let env = RenderEnv { xdg_config: None, xdg_data: None, xdg_state: None, home: None };
    let vars: SortedMap<String, String> = SortedMap::new();
    assert_eq!(cfg.render_handlebars(&global, &env, "{{ tag.os }}", &vars).unwrap(), "b");
}

#[test]
fn adding_names_already_in_the_profile_keeps_the_text() {
    let text = "# mine\n[profiles]\nwork = [\"a\",   \"b\"]  # kept\n";
    let tags = vec![Tag::parse("b"), Tag::parse("a=1")];
    let (again, names, fresh) = add_profile_text(text, "/h/hermit.toml", "work", &tags).unwrap();
    assert_eq!(again, text);
    assert!(names.is_empty());
    assert!(!fresh);
    let (first, _, _) = add_profile_text("", "/h/hermit.toml", "work", &tags).unwrap();
    let (second, names, _) = add_profile_text(&first, "/h/hermit.toml", "work", &tags).unwrap();
    assert_eq!(second, first);
    assert!(names.is_empty());
}
