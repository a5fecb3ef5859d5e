use hermitgrab::action::Actions;
use hermitgrab::action::install::InstallAction;
use hermitgrab::config::{FallbackOperation, HermitConfig, LinkConfig, LinkType, PatchConfig, PatchType};
use hermitgrab::file_check::{FileCheck, copy_check, hash_check, link_check};
use hermitgrab::plan::{order_groups, plan_entries, PlanEntry};
use hermitgrab::sorted::SortedMap;

fn ok<T>(v: T) -> Result<T, String> {
    Ok(v)
}

#[test]
fn link_status_follows_what_the_files_show() {
    let yes = ok(true);
    let to_src = ok("/s".to_string());
    let ino = ok(7u64);
    assert!(link_check(LinkType::Soft, "/s", "/d", &yes, true, &to_src, &ino, &ino).is_ok());
    let c = link_check(LinkType::Soft, "/s", "/d", &yes, false, &to_src, &ino, &ino);
    assert_eq!(c.message(), "The destination \"/d\" is not a symlink to the expected source");
    let c = link_check(LinkType::Soft, "/s", "/d", &yes, true, &ok("/x".to_string()), &ino, &ino);
    assert_eq!(c.message(), "The destination \"/d\" links to \"/x\"");
    let c = link_check(LinkType::Soft, "/s", "/d", &ok(false), true, &to_src, &ino, &ino);
    assert_eq!(c.message(), "The destination \"/d\" does not exist");
    let c = link_check(LinkType::Soft, "/s", "/d", &Err("denied".to_string()), true, &to_src, &ino, &ino);
    assert!(c.is_error());
    assert_eq!(c.message(), "Failed to access the file \"/d\", error was denied");
    let c = link_check(LinkType::Hard, "/s", "/d", &yes, false, &to_src, &ok(1), &ok(2));
    assert_eq!(c.message(), "The file \"/d\" is not hardlinked to the source");
    assert!(matches!(link_check(LinkType::Copy, "/s", "/d", &yes, false, &to_src, &ino, &ino), FileCheck::CheckCopy));
}

#[test]
fn copy_status_follows_what_the_files_show() {
    let yes = ok(true);
    let c = copy_check("/s", "/d", &yes, true, true, false, &ok(3), &ok(4), false);
    assert_eq!(c.message(), "The target file \"/d\" differ in size 3 (dst) vs 4 (src)");
    assert!(copy_check("/s", "/d", &yes, true, true, false, &ok(3), &ok(3), true).is_ok());
    assert!(matches!(copy_check("/s", "/d", &yes, true, true, false, &ok(3), &ok(3), false), FileCheck::CompareHashes));
    assert!(matches!(copy_check("/s", "/d", &yes, false, false, true, &ok(3), &ok(3), false), FileCheck::CheckEntries));
    let c = copy_check("/s", "/d", &yes, false, true, false, &ok(3), &ok(3), false);
    assert_eq!(c.message(), "Src is a file, but destination \"/d\" is a directory");
    let c = hash_check("/s", "/d", &ok("aa".to_string()), &ok("bb".to_string()));
    assert_eq!(c.message(), "The hash of the file \"/d\" differs: aa (src) vs bb (dst)");
    assert!(hash_check("/s", "/d", &ok("aa".to_string()), &ok("aa".to_string())).is_ok());
}

fn install(order: u64) -> (String, Actions) {
    (
        "cfg".to_string(),
        Actions::Install(InstallAction {
            name: String::new(),
            requires: SortedMap::new(),
            check_cmd: None,
            install_cmd: String::new(),
            order,
        }),
    )
}

#[test]
fn parallel_groups_by_order() {
    let plan = vec![install(5), install(1), install(5), install(3)];
    let groups = order_groups(&plan);
    assert_eq!(groups, vec![(1, vec![1]), (3, vec![3]), (5, vec![0, 2])]);
}

#[test]
fn new_configuration_holds_what_is_given() {
    let c = HermitConfig::with_entries("/h/hermit.toml", SortedMap::new(), Vec::new(), Vec::new());
    assert_eq!(c.path(), "/h/hermit.toml");
    assert!(c.link.is_empty() && c.install.is_empty());
}

fn link(source: &str) -> LinkConfig {
    LinkConfig {
        source: source.to_string(),
        target: "~/t".to_string(),
        link: LinkType::Soft,
        requires: SortedMap::new(),
        fallback: FallbackOperation::Abort,
        order: None,
    }
}

fn patch(source: &str) -> PatchConfig {
    PatchConfig {
        source: source.to_string(),
        target: "~/p.json".to_string(),
        patch_type: PatchType::JsonMerge,
        requires: SortedMap::new(),
        order: None,
    }
}

#[test]
fn entries_are_prepared_file_by_file_links_first() {
    let mut files: SortedMap<String, HermitConfig> = SortedMap::new();
    let b = HermitConfig::with_entries("/h/b/hermit.toml", SortedMap::new(), vec![link("x")], Vec::new());
    let a = HermitConfig::with_entries("/h/a/hermit.toml", SortedMap::new(), vec![link("y"), link("z")], vec![patch("p")]);
    files.insert("b/hermit.toml".to_string(), b);
    files.insert("a/hermit.toml".to_string(), a);
    let entries = plan_entries(&files);
    assert_eq!(
        entries,
        vec![PlanEntry::Link(0, 0), PlanEntry::Link(0, 1), PlanEntry::Patch(0, 0), PlanEntry::Link(1, 0)]
    );
}
