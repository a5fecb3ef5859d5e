use hermitgrab::action::Actions;
use hermitgrab::action::install::InstallAction;
use hermitgrab::cmd_add::{choose_config_dir, config_dir_choices, find_entry, new_config_dir, normalize_target, profile_additions, resolve_config_dir, source_file_name};
use hermitgrab::config::{DetectorConfig, FallbackOperation, GlobalConfig, HermitConfig};
use hermitgrab::detector::{MachineInfo, ScriptOutcome, builtin_tags, create_detected_tag, get_arch_alias, get_detected_tags};
use hermitgrab::errors::{AddError, FileOpsError};
use hermitgrab::file_ops::{ClearOp, LinkStep, TargetState, backup_path, link_step};
use hermitgrab::plan::{ExecutionPlan, create_execution_plan};
use hermitgrab::sorted::SortedMap;
use hermitgrab::tags::{RequireSet, RequireTag, Source, Tag, TagSet};

fn reqs_of(reqs: &[&str]) -> RequireSet {
    let mut s: RequireSet = SortedMap::new();
    for r in reqs {
        s.insert(RequireTag::parse(r), ());
    }
    s
}

fn install(name: &str, order: u64, reqs: &[&str]) -> (String, Actions) {
    (
        "cfg".to_string(),
        Actions::Install(InstallAction {
            name: name.to_string(),
            requires: reqs_of(reqs),
            check_cmd: None,
            install_cmd: String::new(),
            order,
        }),
    )
}

fn names(p: &ExecutionPlan) -> Vec<String> {
    p.iter()
        .iter()
        .map(|(_, a)| match a {
            Actions::Install(i) => i.name.clone(),
            _ => String::new(),
        })
        .collect()
}

#[test]
fn plans_sort_stably_by_order() {
    let plan = create_execution_plan(vec![
        install("a", 2, &[]),
        install("b", 1, &[]),
        install("c", 2, &[]),
        install("d", 0, &[]),
        install("e", 1, &[]),
    ]);
    assert_eq!(names(&plan), vec!["d", "b", "e", "a", "c"]);
    assert_eq!(names(&create_execution_plan(Vec::new())).len(), 0);
}

#[test]
fn plans_filter_by_requirements() {
    let plan = create_execution_plan(vec![
        install("fish", 0, &["+fish"]),
        install("nozsh", 1, &["-zsh"]),
        install("both", 1, &["+fish", "+zsh"]),
        install("free", 2, &[]),
    ]);
    let mut active: TagSet = SortedMap::new();
    active.insert(Tag::parse("fish"), ());
    let filtered = plan.filter_actions_by_tags(&active);
    assert_eq!(names(&filtered), vec!["fish", "nozsh", "free"]);
    let twice = filtered.filter_actions_by_tags(&active);
    assert_eq!(names(&twice), names(&filtered));
    active.insert(Tag::parse("zsh"), ());
    assert_eq!(names(&plan.filter_actions_by_tags(&active)), vec!["fish", "both", "free"]);
}

#[test]
fn builtin_tags_from_machine_facts() {
    let m = MachineInfo {
        user: "karsten".to_string(),
        hostname: None,
        os_family: "unix".to_string(),
        os: "linux".to_string(),
        arch: "aarch64".to_string(),
        os_version: "24.04".to_string(),
        os_edition: Some("Ubuntu".to_string()),
        os_codename: None,
        bitness: Some(64),
    };
    let tags = builtin_tags(&m);
    let texts: Vec<String> = (0..tags.len()).map(|i| tags.key(i).to_text()).collect();
    assert_eq!(texts, vec!["arch=aarch64", "arch_alias=arm64", "os=linux", "os_bitness=64", "os_edition=Ubuntu", "os_family=unix", "os_version=24.04", "user=karsten"]);
    assert_eq!(get_arch_alias("x86_64"), "amd64");
    assert_eq!(get_arch_alias("armv7"), "armhf");
    assert_eq!(get_arch_alias("riscv64"), "riscv64");
}

#[test]
fn detectors_yield_tags() {
    let ok = ScriptOutcome { success: true, code: Some(0), stdout: " v1.2 \n".to_string() };
    let fail = ScriptOutcome { success: false, code: Some(1), stdout: String::new() };
    let killed = ScriptOutcome { success: false, code: None, stdout: String::new() };
    let enable_if = DetectorConfig::EnableIf { enable_if: "x".to_string() };
    let enable_if_not = DetectorConfig::EnableIfNot { enable_if_not: "x".to_string() };
    let value_of = DetectorConfig::ValueOf { value_of: "x".to_string() };
    assert_eq!(create_detected_tag("Git", &enable_if, &ok).unwrap().to_text(), "git");
    assert!(create_detected_tag("git", &enable_if, &fail).is_none());
    assert!(create_detected_tag("nogit", &enable_if_not, &ok).is_none());
    assert_eq!(create_detected_tag("nogit", &enable_if_not, &fail).unwrap().to_text(), "nogit");
    assert!(create_detected_tag("nogit", &enable_if_not, &killed).is_none());
    let t = create_detected_tag("ver", &value_of, &ok).unwrap();
    assert_eq!(t.to_text(), "ver=v1.2");
    assert!(matches!(t.source(), Source::Detector(d) if d == "ver"));
    let mut cfg = HermitConfig::create_new("/h/hermit.toml");
    cfg.detectors.insert("b".to_string(), enable_if);
    cfg.detectors.insert("a".to_string(), value_of);
    let g = GlobalConfig::from_paths("/h", "/home", TagSet::new(), vec![cfg]);
    let tags = get_detected_tags(&g, &vec![fail, ok]);
    assert_eq!(tags.len(), 1);
    assert_eq!(tags[0].to_text(), "b");
    let ok2 = ScriptOutcome { success: true, code: Some(0), stdout: "x".to_string() };
    let ok3 = ScriptOutcome { success: true, code: Some(0), stdout: "y".to_string() };
    let tags = get_detected_tags(&g, &vec![ok2, ok3]);
    let texts: Vec<String> = tags.iter().map(|t| t.to_text()).collect();
    assert_eq!(texts, vec!["a=x", "b"]);
}

fn state(exists: bool, is_dir: bool, backup_exists: bool) -> TargetState {
    TargetState { exists, is_dir, backup_exists }
}

#[test]
fn link_steps_follow_fallback() {
    let none = None;
    let bak = Some("/t/f.bak".to_string());
    assert!(matches!(link_step("/s", "/t/f", false, &state(false, false, false), &FallbackOperation::Abort, &none), LinkStep::Fail(FileOpsError::SourceNotFound(s)) if s == "/s"));
    assert!(matches!(link_step("/s", "/t/f", true, &state(false, false, false), &FallbackOperation::Abort, &none), LinkStep::Proceed(ClearOp::Nothing)));
    assert!(matches!(link_step("/s", "/s", true, &state(true, false, false), &FallbackOperation::Abort, &none), LinkStep::Finish));
    assert!(matches!(link_step("/s", "/t/f", true, &state(true, false, false), &FallbackOperation::Abort, &none), LinkStep::Fail(FileOpsError::DestinationExists(d)) if d == "/t/f"));
    assert!(matches!(link_step("/s", "/t/f", true, &state(true, false, false), &FallbackOperation::Backup, &bak), LinkStep::Proceed(ClearOp::Rename(b)) if b == "/t/f.bak"));
    assert!(matches!(link_step("/s", "/t/f", true, &state(true, false, true), &FallbackOperation::Backup, &bak), LinkStep::Fail(FileOpsError::BackupAlreadyExists(_))));
    assert!(matches!(link_step("/s", "/t/f", true, &state(true, false, true), &FallbackOperation::BackupOverwrite, &bak), LinkStep::Proceed(ClearOp::Rename(_))));
    assert!(matches!(link_step("/s", "/t/f", true, &state(true, true, false), &FallbackOperation::Delete, &none), LinkStep::Proceed(ClearOp::RemoveDir)));
    assert!(matches!(link_step("/s", "/t/f", true, &state(true, false, false), &FallbackOperation::Delete, &none), LinkStep::Proceed(ClearOp::RemoveFile)));
    assert!(matches!(link_step("/s", "/t/f", true, &state(true, true, false), &FallbackOperation::DeleteDir, &none), LinkStep::Proceed(ClearOp::RemoveDirAll)));
    assert!(matches!(link_step("/s", "/t/f", true, &state(true, false, false), &FallbackOperation::Ignore, &none), LinkStep::Finish));
    assert_eq!(backup_path("/t/f"), Some("/t/f.bak".to_string()));
    assert_eq!(backup_path("/"), None);
}

#[test]
fn adding_entries_paths() {
    assert_eq!(resolve_config_dir("fish", "/h"), "/h/fish");
    assert_eq!(resolve_config_dir("/abs", "/h"), "/abs");
    assert_eq!(new_config_dir("fish/hermit.toml", "/h"), "/h/fish");
    assert_eq!(new_config_dir("fish", "/h"), "/h/fish");
    assert_eq!(normalize_target("/home/u/.config/x", &None, "/home/u").unwrap(), "~/.config/x");
    assert!(matches!(normalize_target("/etc/x", &None, "/home/u"), Err(AddError::StripPrefix)));
    assert_eq!(normalize_target("/etc/x", &Some("/etc/y".to_string()), "/home/u").unwrap(), "/etc/y");
    assert_eq!(normalize_target("/etc/x", &Some("rel/y".to_string()), "/home/u").unwrap(), "~/rel/y");
    assert_eq!(source_file_name("/a/b.txt").unwrap(), "b.txt");
    assert!(matches!(source_file_name("/"), Err(AddError::FileName)));
    let existing = vec![(Some("a".to_string()), Some("~/a".to_string())), (None, Some("~/b".to_string()))];
    assert!(find_entry(&existing, "a", "~/a"));
    assert!(find_entry(&existing, "a", "~//a"));
    assert!(!find_entry(&existing, "./a", "~/a"));
    assert!(!find_entry(&existing, "b", "~/b"));
}

#[test]
fn adding_profile_tags() {
    let tags = vec![Tag::parse("work"), Tag::parse("Fish"), Tag::parse("git=1"), Tag::parse("fish")];
    let add = profile_additions(&vec![Some("git".to_string())], &tags).unwrap();
    assert_eq!(add, vec!["fish".to_string(), "work".to_string()]);
    assert_eq!(profile_additions(&vec![Some("a".to_string()), None, None], &tags).unwrap_err(), 1);
}

#[test]
fn offering_config_dirs() {
    let c = config_dir_choices("/home/u/.config/fish/config.fish", false, "/home/u", "/h");
    assert_eq!(c.simple_file, "/h/fish/hermit.toml");
    assert_eq!(c.simple_shown, "fish/hermit.toml");
    assert_eq!(c.deep_file, "/h/.config/fish/hermit.toml");
    assert_eq!(c.deep_shown, ".config/fish/hermit.toml");
    assert_eq!(choose_config_dir("1", &c, "/h").unwrap(), Some("/h/fish".to_string()));
    assert_eq!(choose_config_dir("2", &c, "/h").unwrap(), Some("/h/.config/fish".to_string()));
    assert_eq!(choose_config_dir("3", &c, "/h").unwrap(), None);
    assert_eq!(choose_config_dir("4", &c, "/h").unwrap(), Some("/h".to_string()));
    assert!(matches!(choose_config_dir("5", &c, "/h"), Err(AddError::InvalidChoice)));
    let d = config_dir_choices("/home/u/.config/nvim", true, "/home/u", "/h");
    assert_eq!(d.simple_file, "/h/nvim/hermit.toml");
    assert_eq!(d.deep_file, "/h/.config/hermit.toml");
}
