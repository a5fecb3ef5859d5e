use hermitgrab::build_doc::{child_weight, doc_page};
use hermitgrab::config::{CliOptions, FallbackOperation, InstallConfig, LinkConfig, LinkType, PatchConfig, PatchType};
use hermitgrab::discover::{is_hermitgrab_repo, parse_usize, repo_choice};
use hermitgrab::errors::{
    ActionError, AddError, ApplyError, ConfigError, FileOpsError, InstallActionError, LinkActionError, StatusError,
};
use hermitgrab::sorted::SortedMap;
use hermitgrab::tags::{RequireTag, Tag};

#[test]
fn repositories_are_recognized_by_topic_or_name() {
    assert!(is_hermitgrab_repo("stuff", &Some(vec!["rust".to_string(), "HermitGrab".to_string()])));
    assert!(is_hermitgrab_repo("dotfiles", &None));
    assert!(is_hermitgrab_repo("dotfiles", &Some(vec!["other".to_string()])));
    assert!(!is_hermitgrab_repo("stuff", &Some(vec!["hermit".to_string()])));
    assert!(!is_hermitgrab_repo("Dotfiles", &None));
}

#[test]
fn numbers_parse_like_std() {
    for s in ["42", "+7", "0", "", "+", "4a", "-1", " 3", "18446744073709551615", "18446744073709551616"] {
        assert_eq!(parse_usize(s), s.parse::<usize>().ok(), "input {s:?}");
    }
}

#[test]
fn repository_choice_defaults_and_bounds() {
    assert_eq!(repo_choice(" 2 \n", 3), Some(2));
    assert_eq!(repo_choice("x", 3), Some(1));
    assert_eq!(repo_choice("0", 3), None);
    assert_eq!(repo_choice("4", 3), None);
    assert_eq!(repo_choice("3", 3), Some(3));
}

#[test]
fn doc_pages_have_front_matter() {
    let (file, page) = doc_page("hermitgrab apply", 1000, "HELP");
    assert_eq!(file, "hermitgrab_apply.md");
    assert_eq!(
        page,
        "---\ntitle: apply\ntype: docs\nweight: 1000\nsidebar:\n  open: true\n---\n```text\nHELP\n```\n    "
    );
    let (file, page) = doc_page("hermitgrab", 0, "h");
    assert_eq!(file, "hermitgrab.md");
    assert!(page.starts_with("---\ntitle: hermitgrab\ntype: docs\nweight: 1\n"));
}

#[test]
fn doc_weights_step_by_depth() {
    assert_eq!(child_weight(0, 0, 0), 1000);
    assert_eq!(child_weight(1000, 2, 1), 1300);
    assert_eq!(child_weight(1300, 0, 2), 1310);
    assert_eq!(child_weight(5, 3, 7), 9);
}

#[test]
fn error_messages() {
    assert_eq!(FileOpsError::SourceNotFound("a".to_string()).message(), "Source does not exist: a");
    assert_eq!(FileOpsError::Io("/p".to_string(), "denied".to_string()).message(), "/p, IO error: denied");
    assert_eq!(
        ConfigError::TagNotFound("x".to_string()).message(),
        "The tag x was not found in the configuration"
    );
    assert_eq!(ApplyError::UserAborted.message(), "The user aborted the operation");
    assert_eq!(
        ApplyError::ConfigLoad(ConfigError::HermitConfigNotAction).message(),
        "Hermit configuration is not an action"
    );
    assert_eq!(
        InstallActionError::CommandFailed("ls".to_string(), -3).message(),
        "Install command failed: ls with exit code -3"
    );
    assert_eq!(
        ActionError::Link(LinkActionError::FileOps(FileOpsError::DestinationExists("d".to_string()))).message(),
        "Destination is an existing file: d"
    );
    assert_eq!(AddError::InvalidChoice.message(), "Invalid choice");
    assert_eq!(
        AddError::ExpectedTable("link".to_string(), "string".to_string()).message(),
        "Expected a table at key link, but found string"
    );
    assert_eq!(StatusError::StdIo("gone".to_string()).message(), "gone");
}

#[test]
fn entry_ids_quote_paths() {
    let link = LinkConfig {
        source: "a\"b".to_string(),
        target: "~/x".to_string(),
        link: LinkType::Soft,
        requires: SortedMap::new(),
        fallback: FallbackOperation::Abort,
        order: None,
    };
    assert_eq!(link.id(), format!("Link {:?}->{:?}", "a\"b", "~/x"));
    let patch = PatchConfig {
        source: "p.json".to_string(),
        target: "~/t.json".to_string(),
        patch_type: PatchType::JsonMerge,
        requires: SortedMap::new(),
        order: Some(3),
    };
    assert_eq!(patch.id(), "Patch \"~/t.json\" with \"p.json\"");
    let install = InstallConfig {
        name: "tool".to_string(),
        check: None,
        install: "true".to_string(),
        requires: SortedMap::new(),
        variables: SortedMap::new(),
        order: None,
    };
    assert_eq!(install.id(), "Install tool");
}

#[test]
fn force_means_backup_overwrite() {
    let o = CliOptions::for_apply(vec!["a".to_string()], None, Some(FallbackOperation::Abort), true, true, false, None);
    assert_eq!(o.fallback, Some(FallbackOperation::BackupOverwrite));
    assert!(o.confirm);
    let o = CliOptions::for_apply(vec![], Some("p".to_string()), Some(FallbackOperation::Delete), false, false, true, None);
    assert_eq!(o.fallback, Some(FallbackOperation::Delete));
    assert_eq!(o.profile, Some("p".to_string()));
    let s = CliOptions::for_status(vec!["t".to_string()], None, Some("out.json".to_string()));
    assert_eq!(s.fallback, None);
    assert!(!s.confirm && !s.verbose);
    assert_eq!(s.json, Some("out.json".to_string()));
}

#[test]
fn requirement_text_reads_back() {
    for s in ["+os=linux", "-zsh", "~work", "fish", "  +user=vscode ", "-a=b=c"] {
        let r = RequireTag::parse(s);
        let again = RequireTag::parse(&r.to_text());
        assert_eq!(again.to_text(), r.to_text(), "input {s:?}");
        assert_eq!(again.name(), r.name());
    }
    assert_eq!(RequireTag::parse("~work").to_text(), "-work");
    let t = Tag::parse("Arch=x86_64");
    assert_eq!(t.to_text(), "arch=x86_64");
    assert_eq!(Tag::parse(&t.to_text()).to_text(), "arch=x86_64");
}
