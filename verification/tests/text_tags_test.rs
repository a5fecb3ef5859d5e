use hermitgrab::config::{FallbackOperation, LinkType, PatchType};
use hermitgrab::sorted::SortedMap;
use hermitgrab::tags::{RequireTag, Source, Tag, TagSet};
use hermitgrab::text;

#[test]
fn trim_and_split() {
    assert_eq!(text::trim_str("  a b \t\n"), "a b");
    assert_eq!(text::split_char("a,,b", ','), vec!["a".to_string(), String::new(), "b".to_string()]);
    assert_eq!(text::split_once_char("k=v=w", '='), Some(("k".to_string(), "v=w".to_string())));
    assert_eq!(text::split_once_char("kv", '='), None);
}

#[test]
fn replace_and_join() {
    assert_eq!(text::replace_char_str("~/x~", '~', "/home/u"), "/home/u/x/home/u");
    assert_eq!(text::replace_str("~/.config/a/~/.config", "~/.config", "/c"), "/c/a//c");
    assert_eq!(text::replace_str("aaa", "aa", "b"), "ba");
    assert_eq!(text::join_strs(&vec!["a".to_string(), "b".to_string(), "c".to_string()], ","), "a,b,c");
    assert_eq!(text::join_strs(&Vec::new(), ","), "");
}

#[test]
fn debug_strings_match_std() {
    for s in ["plain", "quo\"te", "back\\slash", "tab\tnew\nline\r", "nul\0", "esc\u{1b}", "del\u{7f}", "é ü"] {
        assert_eq!(text::debug_string(s), format!("{:?}", s));
    }
}

#[test]
fn ascii_case_and_prefix() {
    assert!(text::eq_ignore_ascii_case_str("DeFault", "default"));
    assert!(!text::eq_ignore_ascii_case_str("defaults", "default"));
    assert!(text::starts_with_str("~/.config/x", "~/.config"));
    assert!(!text::starts_with_str("~/.conf", "~/.config"));
    assert_eq!(Tag::new("ABC Ä", Source::Unknown).name(), "abc ä");
}

#[test]
fn tag_parse_and_text() {
    let t = Tag::parse("OS=Linux");
    assert_eq!(t.name(), "os");
    assert_eq!(t.value(), &Some("Linux".to_string()));
    assert_eq!(t.to_text(), "os=Linux");
    let t = Tag::parse("fish");
    assert_eq!(t.name(), "fish");
    assert_eq!(t.value(), &None);
    let t = Tag::from_str_with_src("a=b=c", Source::Config);
    assert_eq!(t.value(), &Some("b=c".to_string()));
    assert!(matches!(t.source(), Source::Config));
    assert!(Tag::new("x", Source::BuiltInDetector).is_detected());
    assert!(!Tag::new("x", Source::CommandLine).is_detected());
    assert_eq!(Source::Detector("d".to_string()).to_text(), "detector: d");
}

#[test]
fn tag_debug_matches_derived_form() {
    let t = Tag::new_with_value("Os", "li\"nux", Source::Detector("d".to_string()));
    assert_eq!(t.debug_text(), "Tag(\"os\", Some(\"li\\\"nux\"), Detector(\"d\"))");
    let r = RequireTag::parse("-zsh");
    assert_eq!(r.debug_text(), "Negative(Tag(\"zsh\", None, Unknown))");
}

#[test]
fn require_parse_forms() {
    let r = RequireTag::parse(" +os_family=unix ");
    assert_eq!(r.to_text(), "+os_family=unix");
    assert_eq!(r.name(), "os_family");
    assert_eq!(RequireTag::parse("-zsh").to_text(), "-zsh");
    assert_eq!(RequireTag::parse("~zsh").to_text(), "-zsh");
    assert_eq!(RequireTag::parse("fish").to_text(), "+fish");
}

#[test]
fn requirement_matching_and_complement() {
    let mut tags: TagSet = SortedMap::new();
    tags.insert(Tag::parse("fish"), ());
    tags.insert(Tag::parse("os=linux"), ());
    assert!(RequireTag::parse("+fish").matches(&tags));
    assert!(!RequireTag::parse("-fish").matches(&tags));
    assert!(RequireTag::parse("-zsh").matches(&tags));
    assert!(!RequireTag::parse("+zsh").matches(&tags));
    assert!(RequireTag::parse("+os=linux").matches(&tags));
    assert!(!RequireTag::parse("+os=macos").matches(&tags));
    assert!(!RequireTag::parse("+os").matches(&tags));
    for s in ["fish", "zsh", "os=linux", "os"] {
        let t = Tag::parse(s);
        let pos = RequireTag::Positive(Tag::parse(s)).matches(&tags);
        let neg = RequireTag::Negative(t).matches(&tags);
        assert_ne!(pos, neg);
    }
}

#[test]
fn tag_identity_ignores_source() {
    let mut tags: TagSet = SortedMap::new();
    assert!(tags.insert(Tag::new("fish", Source::Config), ()));
    assert!(!tags.insert(Tag::new("FISH", Source::CommandLine), ()));
    assert_eq!(tags.len(), 1);
    assert!(matches!(tags.key(0).source(), Source::Config));
    assert!(Tag::new("a", Source::Config).same_tag(&Tag::new("A", Source::Unknown)));
}

#[test]
fn sorted_map_orders_and_replaces() {
    let mut m: SortedMap<String, String> = SortedMap::new();
    assert!(m.is_empty());
    assert!(m.insert("b".to_string(), "1".to_string()));
    assert!(m.insert("a".to_string(), "2".to_string()));
    assert!(m.insert("ab".to_string(), "3".to_string()));
    assert!(!m.insert("b".to_string(), "4".to_string()));
    assert_eq!(m.len(), 3);
    assert_eq!(m.key(0), "a");
    assert_eq!(m.key(1), "ab");
    assert_eq!(m.key(2), "b");
    assert_eq!(m.get_str("b"), Some(&"4".to_string()));
    assert_eq!(m.get_str("c"), None);
    assert!(m.contains_str("ab"));
    let d = m.dup_map();
    assert_eq!(d.len(), 3);
    assert_eq!(d.val(0), "2");
}

#[test]
fn enum_texts() {
    assert_eq!(LinkType::Soft.to_text(), "soft");
    assert!(matches!(LinkType::parse("SymLink"), Ok(LinkType::Soft)));
    assert!(matches!(LinkType::parse("hardlink"), Ok(LinkType::Hard)));
    assert_eq!(LinkType::parse("move").unwrap_err(), "Unknown link type: move");
    assert_eq!(PatchType::JsonPatch.to_text(), "JsonPatch");
    assert_eq!(FallbackOperation::BackupOverwrite.to_text(), "backupoverwrite");
    assert!(hermitgrab::config::is_default_fallback(&FallbackOperation::Abort));
    assert!(hermitgrab::config::is_default_link(&LinkType::Soft));
}
