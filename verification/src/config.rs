//! The configuration read from `hermit.toml` files.
use crate::errors::{ApplyError, ConfigError};
use crate::paths;
use crate::sorted::{Dup, Keyed, SortedMap, extend_set};
use crate::tags::{RequireSet, RequireTag, Source, Tag, TagSet, tag_key};
use crate::text;
use vstd::prelude::*;

verus! {

/// The name of a configuration file.
pub const CONF_FILE_NAME: &'static str = "hermit.toml";

/// The profile used when none is named.
pub const DEFAULT_PROFILE: &'static str = "default";

/// How a file is placed at its target.
#[derive(Debug, Clone, Copy, PartialEq, Eq, Structural)]
pub enum LinkType {
    Soft,
    Hard,
    Copy,
}

/// The text of a link type.
pub open spec fn link_type_text(t: LinkType) -> Seq<char> {
    match t {
        LinkType::Soft => "soft"@,
        LinkType::Hard => "hard"@,
        LinkType::Copy => "copy"@,
    }
}

/// How a link type is read, case-insensitively.
pub open spec fn parse_link_type(s: Seq<char>) -> Option<LinkType> {
    let l = text::lowercase(s);
    if l == "soft"@ || l == "symlink"@ {
        Some(LinkType::Soft)
    } else if l == "hard"@ || l == "hardlink"@ {
        Some(LinkType::Hard)
    } else if l == "copy"@ {
        Some(LinkType::Copy)
    } else {
        None
    }
}

impl LinkType {
    /// The default link type.
    pub fn default_link() -> (r: LinkType)
        ensures
            r == LinkType::Soft,
    {
        LinkType::Soft
    }

    /// The text of the link type.
    pub fn to_text(&self) -> (r: String)
        ensures
            r@ == link_type_text(*self),
    {
        match self {
            LinkType::Soft => text::owned("soft"),
            LinkType::Hard => text::owned("hard"),
            LinkType::Copy => text::owned("copy"),
        }
    }

    /// Reads a link type: `soft`/`symlink`, `hard`/`hardlink` or `copy`, in any case.
    pub fn parse(s: &str) -> (r: Result<LinkType, String>)
        ensures
            match r {
                Ok(t) => parse_link_type(s@) == Some(t),
                Err(msg) => parse_link_type(s@) is None && msg@ == "Unknown link type: "@ + s@,
            },
    {
        let l = text::to_lowercase(s);
        let ls = l.as_str();
        if text::str_eq(ls, "soft") || text::str_eq(ls, "symlink") {
            Ok(LinkType::Soft)
        } else if text::str_eq(ls, "hard") || text::str_eq(ls, "hardlink") {
            Ok(LinkType::Hard)
        } else if text::str_eq(ls, "copy") {
            Ok(LinkType::Copy)
        } else {
            Err(text::concat("Unknown link type: ", s))
        }
    }
}

/// Whether the link type is the default one (and is left out when saved).
pub fn is_default_link(link_type: &LinkType) -> (r: bool)
    ensures
        r == (*link_type == LinkType::Soft),
{
    match link_type {
        LinkType::Soft => true,
        _ => false,
    }
}

/// How a patch is applied.
#[derive(Debug, Clone, Copy, PartialEq, Eq, Structural)]
pub enum PatchType {
    JsonMerge,
    JsonPatch,
}

/// The text of a patch type.
pub open spec fn patch_type_text(t: PatchType) -> Seq<char> {
    match t {
        PatchType::JsonMerge => "JsonMerge"@,
        PatchType::JsonPatch => "JsonPatch"@,
    }
}

impl PatchType {
    /// The text of the patch type.
    pub fn to_text(&self) -> (r: String)
        ensures
            r@ == patch_type_text(*self),
    {
        match self {
            PatchType::JsonMerge => text::owned("JsonMerge"),
            PatchType::JsonPatch => text::owned("JsonPatch"),
        }
    }
}

/// What to do where the target of a link already exists.
#[derive(Debug, Clone, Copy, PartialEq, Eq, Structural)]
pub enum FallbackOperation {
    Abort,
    Backup,
    BackupOverwrite,
    Delete,
    DeleteDir,
    Ignore,
}

/// The text of a fallback operation.
pub open spec fn fallback_text(f: FallbackOperation) -> Seq<char> {
    match f {
        FallbackOperation::Abort => "abort"@,
        FallbackOperation::Backup => "backup"@,
        FallbackOperation::BackupOverwrite => "backupoverwrite"@,
        FallbackOperation::Delete => "delete"@,
        FallbackOperation::DeleteDir => "deletedir"@,
        FallbackOperation::Ignore => "ignore"@,
    }
}

impl FallbackOperation {
    /// The text of the fallback operation.
    pub fn to_text(&self) -> (r: String)
        ensures
            r@ == fallback_text(*self),
    {
        match self {
            FallbackOperation::Abort => text::owned("abort"),
            FallbackOperation::Backup => text::owned("backup"),
            FallbackOperation::BackupOverwrite => text::owned("backupoverwrite"),
            FallbackOperation::Delete => text::owned("delete"),
            FallbackOperation::DeleteDir => text::owned("deletedir"),
            FallbackOperation::Ignore => text::owned("ignore"),
        }
    }
}

/// Whether the fallback is the default one (and is left out when saved).
pub fn is_default_fallback(fallback: &FallbackOperation) -> (r: bool)
    ensures
        r == (*fallback == FallbackOperation::Abort),
{
    match fallback {
        FallbackOperation::Abort => true,
        _ => false,
    }
}

/// A detector: a script whose outcome makes a tag active.
#[derive(Debug)]
pub enum DetectorConfig {
    EnableIf { enable_if: String },
    EnableIfNot { enable_if_not: String },
    ValueOf { value_of: String },
}

impl Dup for DetectorConfig {
    fn dup(&self) -> (r: Self) {
        match self {
            DetectorConfig::EnableIf { enable_if } => DetectorConfig::EnableIf {
                enable_if: enable_if.clone(),
            },
            DetectorConfig::EnableIfNot { enable_if_not } => DetectorConfig::EnableIfNot {
                enable_if_not: enable_if_not.clone(),
            },
            DetectorConfig::ValueOf { value_of } => DetectorConfig::ValueOf {
                value_of: value_of.clone(),
            },
        }
    }
}

/// A patch entry of a configuration file.
#[derive(Debug)]
pub struct PatchConfig {
    pub source: String,
    pub target: String,
    pub patch_type: PatchType,
    pub requires: RequireSet,
    pub order: Option<u64>,
}

/// A link entry of a configuration file.
#[derive(Debug)]
pub struct LinkConfig {
    pub source: String,
    pub target: String,
    pub link: LinkType,
    pub requires: RequireSet,
    pub fallback: FallbackOperation,
    pub order: Option<u64>,
}

/// An install entry of a configuration file.
#[derive(Debug)]
pub struct InstallConfig {
    pub name: String,
    pub check: Option<String>,
    pub install: String,
    pub requires: RequireSet,
    pub variables: SortedMap<String, String>,
    pub order: Option<u64>,
}

/// Options given on the command line.
#[derive(Debug)]
pub struct CliOptions {
    pub fallback: Option<FallbackOperation>,
    pub confirm: bool,
    pub verbose: bool,
    pub tags: Vec<String>,
    pub profile: Option<String>,
    pub json: Option<String>,
}

impl CliOptions {
    /// Options with nothing set.
    pub fn new_default() -> (r: CliOptions)
        ensures
            r.fallback is None,
            !r.confirm,
            !r.verbose,
            r.tags@.len() == 0,
            r.profile is None,
            r.json is None,
    {
        CliOptions {
            fallback: None,
            confirm: false,
            verbose: false,
            tags: Vec::new(),
            profile: None,
            json: None,
        }
    }

    /// The options of an apply run: `force` stands for the fallback
    /// backup-overwrite and wins over a fallback given.
    pub fn for_apply(
        tags: Vec<String>,
        profile: Option<String>,
        fallback: Option<FallbackOperation>,
        force: bool,
        confirm: bool,
        verbose: bool,
        json: Option<String>,
    ) -> (r: CliOptions)
        ensures
            r.fallback == if force {
                Some(FallbackOperation::BackupOverwrite)
            } else {
                fallback
            },
            r.confirm == confirm,
            r.verbose == verbose,
            r.tags == tags,
            r.profile == profile,
            r.json == json,
    {
        let fallback = if force {
            Some(FallbackOperation::BackupOverwrite)
        } else {
            fallback
        };
        CliOptions { fallback, confirm, verbose, tags, profile, json }
    }

    /// The options of a status run: only tags, profile and output file.
    pub fn for_status(tags: Vec<String>, profile: Option<String>, json: Option<String>) -> (r: CliOptions)
        ensures
            r.fallback is None,
            !r.confirm,
            !r.verbose,
            r.tags == tags,
            r.profile == profile,
            r.json == json,
    {
        CliOptions { fallback: None, confirm: false, verbose: false, tags, profile, json }
    }
}

impl LinkConfig {
    /// How the entry is named in messages.
    pub fn id(&self) -> (r: String)
        ensures
            r@ == "Link "@ + text::debug_str(self.source@) + "->"@ + text::debug_str(self.target@),
    {
        let mut r = text::owned("Link ");
        let s = text::debug_string(self.source.as_str());
        text::push_str(&mut r, s.as_str());
        text::push_str(&mut r, "->");
        let t = text::debug_string(self.target.as_str());
        text::push_str(&mut r, t.as_str());
        r
    }
}

impl PatchConfig {
    /// How the entry is named in messages.
    pub fn id(&self) -> (r: String)
        ensures
            r@ == "Patch "@ + text::debug_str(self.target@) + " with "@ + text::debug_str(self.source@),
    {
        let mut r = text::owned("Patch ");
        let t = text::debug_string(self.target.as_str());
        text::push_str(&mut r, t.as_str());
        text::push_str(&mut r, " with ");
        let s = text::debug_string(self.source.as_str());
        text::push_str(&mut r, s.as_str());
        r
    }
}

impl InstallConfig {
    /// How the entry is named in messages.
    pub fn id(&self) -> (r: String)
        ensures
            r@ == "Install "@ + self.name@,
    {
        text::concat("Install ", self.name.as_str())
    }
}


/// A configuration file: its path and its entries.
#[derive(Debug)]
pub struct HermitConfig {
    pub path: String,
    pub link: Vec<LinkConfig>,
    pub patch: Vec<PatchConfig>,
    pub install: Vec<InstallConfig>,
    pub snippets: SortedMap<String, String>,
    pub requires: RequireSet,
    pub order: Option<u64>,
    pub profiles: SortedMap<String, TagSet>,
    pub detectors: SortedMap<String, DetectorConfig>,
}

/// A map whose values are tag sets, all well formed.
pub open spec fn profiles_wf(m: SortedMap<String, TagSet>) -> bool {
    &&& m.wf()
    &&& forall|i: int| 0 <= i < m.keys().len() ==> (#[trigger] m.vals()[i]).wf()
}

/// Two tag sets with the same entries.
pub open spec fn same_set(a: TagSet, b: TagSet) -> bool {
    a.keys() == b.keys() && a.vals() == b.vals()
}

impl HermitConfig {
    /// The path of the file.
    pub open spec fn spec_path(&self) -> Seq<char> {
        self.path@
    }

    /// Well-formedness: every ordered collection of the file is well formed.
    pub open spec fn wf(&self) -> bool {
        &&& self.snippets.wf()
        &&& self.requires.wf()
        &&& profiles_wf(self.profiles)
        &&& self.detectors.wf()
        &&& forall|i: int| 0 <= i < self.link@.len() ==> (#[trigger] self.link@[i]).requires.wf()
        &&& forall|i: int| 0 <= i < self.patch@.len() ==> (#[trigger] self.patch@[i]).requires.wf()
        &&& forall|i: int|
            0 <= i < self.install@.len() ==> {
                &&& (#[trigger] self.install@[i]).requires.wf()
                &&& self.install@[i].variables.wf()
            }
    }

    /// Whether the path has a parent directory.
    pub open spec fn has_directory(&self) -> bool {
        paths::parent(self.spec_path()) is Some
    }

    /// The directory holding the file.
    pub open spec fn spec_directory(&self) -> Seq<char> {
        paths::parent(self.spec_path())->0
    }

    /// Whether the file, or one of its entries, states requirement key `k`.
    pub open spec fn has_requirement(&self, k: Seq<u32>) -> bool {
        ||| self.requires.has_key(k)
        ||| exists|i: int| 0 <= i < self.link@.len() && (#[trigger] self.link@[i]).requires.has_key(k)
        ||| exists|i: int| 0 <= i < self.patch@.len() && (#[trigger] self.patch@[i]).requires.has_key(k)
        ||| exists|i: int|
            0 <= i < self.install@.len() && (#[trigger] self.install@[i]).requires.has_key(k)
    }

    /// An empty configuration for the file at `path`.
    pub fn create_new(path: &str) -> (r: HermitConfig)
        ensures
            r.wf(),
            r.spec_path() == path@,
            r.link@.len() == 0,
            r.patch@.len() == 0,
            r.install@.len() == 0,
            r.snippets.keys().len() == 0,
            r.requires.keys().len() == 0,
            r.order is None,
            r.profiles.keys().len() == 0,
            r.detectors.keys().len() == 0,
    {
        HermitConfig {
            path: text::owned(path),
            link: Vec::new(),
            patch: Vec::new(),
            install: Vec::new(),
            snippets: SortedMap::new(),
            requires: SortedMap::new(),
            order: None,
            profiles: SortedMap::new(),
            detectors: SortedMap::new(),
        }
    }

    /// A new configuration for the file at `path` holding the requirements
    /// and the link and patch entries given, and nothing else.
    pub fn with_entries(path: &str, required: RequireSet, link: Vec<LinkConfig>, patch: Vec<PatchConfig>) -> (r: HermitConfig)
        ensures
            r.spec_path() == path@,
            r.requires == required,
            r.link == link,
            r.patch == patch,
            r.install@.len() == 0,
            r.snippets.keys().len() == 0,
            r.order is None,
            r.profiles.keys().len() == 0,
            r.detectors.keys().len() == 0,
    {
        let mut c = HermitConfig::create_new(path);
        c.requires = required;
        c.link = link;
        c.patch = patch;
        c
    }

    /// The path of the file.
    pub fn path(&self) -> (r: &str)
        ensures
            r@ == self.spec_path(),
    {
        self.path.as_str()
    }

    /// The directory holding the file.
    pub fn directory(&self) -> (r: String)
        requires
            self.has_directory(),
        ensures
            r@ == self.spec_directory(),
    {
        match paths::parent_path(self.path.as_str()) {
            Some(d) => d,
            None => {
                assert(false);
                String::new()
            },
        }
    }

    /// How the file is named in messages: by its directory.
    pub fn id(&self) -> (r: String)
        requires
            self.has_directory(),
        ensures
            r@ == "HermitConfig "@ + text::debug_str(self.spec_directory()),
    {
        let d = self.directory();
        let q = text::debug_string(d.as_str());
        text::concat("HermitConfig ", q.as_str())
    }

    /// The order of an entry: the larger of its own and the file's (absent counts as 0).
    pub fn total_order(&self, item_order: Option<u64>) -> (r: u64)
        ensures
            r == spec_total_order(item_order, self.order),
    {
        let cfg_order = match self.order {
            Some(o) => o,
            None => 0,
        };
        let own = match item_order {
            Some(o) => o,
            None => 0,
        };
        if own >= cfg_order {
            own
        } else {
            cfg_order
        }
    }

    /// The requirements of an entry together with those of the file; where
    /// both state the same requirement the entry's stays.
    pub fn get_all_requires(&self, item_requires: &RequireSet) -> (r: RequireSet)
        requires
            self.wf(),
            item_requires.wf(),
        ensures
            merged_requires(r, *item_requires, self.requires),
    {
        let mut r = item_requires.dup_map();
        proof {
            r.lemma_same_keys(item_requires);
        }
        extend_set(&mut r, &self.requires);
        r
    }
}

/// `r` holds the requirements of an entry together with those of its file;
/// where both state the same requirement, the entry's is kept.
pub open spec fn merged_requires(r: RequireSet, item: RequireSet, file: RequireSet) -> bool {
    &&& r.wf()
    &&& forall|k: Seq<u32>| #![trigger r.has_key(k)] r.has_key(k) == (item.has_key(k) || file.has_key(k))
    &&& forall|k: Seq<u32>| item.has_key(k) ==> #[trigger] r.key_obj(k) == item.key_obj(k)
    &&& forall|k: Seq<u32>| !item.has_key(k) && file.has_key(k) ==> #[trigger] r.key_obj(k) == file.key_obj(k)
}

/// The order of an entry within a file.
pub open spec fn spec_total_order(item: Option<u64>, cfg: Option<u64>) -> u64 {
    let a = match item {
        Some(o) => o,
        None => 0u64,
    };
    let b = match cfg {
        Some(o) => o,
        None => 0u64,
    };
    if a >= b {
        a
    } else {
        b
    }
}


/// The ordering key of a string after lower-casing.
pub open spec fn lc_key(s: Seq<char>) -> Seq<u32> {
    text::chars_key(text::lowercase(s))
}

/// The lower-cased key of the `j`-th entry of the `ci`-th map.
pub open spec fn occ_key<V>(ms: Seq<SortedMap<String, V>>, ci: int, j: int) -> Seq<u32> {
    lc_key(ms[ci].keys()[j]@)
}

/// Whether `(ci, j)` names an entry.
pub open spec fn is_entry<V>(ms: Seq<SortedMap<String, V>>, ci: int, j: int) -> bool {
    0 <= ci < ms.len() && 0 <= j < ms[ci].keys().len()
}

/// Whether some entry of the maps has lower-cased key `kk`.
pub open spec fn occurs<V>(ms: Seq<SortedMap<String, V>>, kk: Seq<u32>) -> bool {
    exists|ci: int, j: int| is_entry(ms, ci, j) && #[trigger] occ_key(ms, ci, j) == kk
}

/// Whether entry `(ci, j)` is the first with its lower-cased key (maps in
/// order, entries of a map in key order).
pub open spec fn first_occ<V>(ms: Seq<SortedMap<String, V>>, ci: int, j: int) -> bool {
    &&& is_entry(ms, ci, j)
    &&& forall|cj: int, jj: int|
        is_entry(ms, cj, jj) && (cj < ci || (cj == ci && jj < j)) ==> #[trigger] occ_key(ms, cj, jj)
            != occ_key(ms, ci, j)
}

/// Whether entry `(ci, j)` is the last with its lower-cased key.
pub open spec fn last_occ<V>(ms: Seq<SortedMap<String, V>>, ci: int, j: int) -> bool {
    &&& is_entry(ms, ci, j)
    &&& forall|cj: int, jj: int|
        is_entry(ms, cj, jj) && (cj > ci || (cj == ci && jj > j)) ==> #[trigger] occ_key(ms, cj, jj)
            != occ_key(ms, ci, j)
}

/// Adds the entries of `src` under lower-cased keys; an entry whose key is
/// already present is left out.
fn merge_first<V: Dup>(dst: &mut SortedMap<String, V>, src: &SortedMap<String, V>)
    requires
        old(dst).wf(),
        src.wf(),
    ensures
        final(dst).wf(),
        forall|kk: Seq<u32>|
            #![trigger final(dst).has_key(kk)]
            final(dst).has_key(kk) == (old(dst).has_key(kk) || occurs(seq![*src], kk)),
        forall|kk: Seq<u32>|
            old(dst).has_key(kk) ==> #[trigger] final(dst).lookup(kk) == old(dst).lookup(kk),
        forall|j: int|
            first_occ(seq![*src], 0, j) && !old(dst).has_key(#[trigger] occ_key(seq![*src], 0, j))
                ==> final(dst).lookup(occ_key(seq![*src], 0, j)) == Some(src.vals()[j]),
{
    let ghost ms = seq![*src];
    let n = src.len();
    let mut i: usize = 0;
    while i < n
        invariant
            dst.wf(),
            src.wf(),
            ms == seq![*src],
            n == src.keys().len(),
            i <= n,
            forall|kk: Seq<u32>|
                #![trigger dst.has_key(kk)]
                dst.has_key(kk) == (old(dst).has_key(kk) || exists|j: int|
                    0 <= j < i && #[trigger] occ_key(ms, 0, j) == kk),
            forall|kk: Seq<u32>|
                old(dst).has_key(kk) ==> #[trigger] dst.lookup(kk) == old(dst).lookup(kk),
            forall|j: int|
                0 <= j < i && first_occ(ms, 0, j) && !old(dst).has_key(#[trigger] occ_key(ms, 0, j))
                    ==> dst.lookup(occ_key(ms, 0, j)) == Some(src.vals()[j]),
        decreases n - i,
    {
        let k = text::to_lowercase(src.key(i).as_str());
        let key = k.make_key();
        assert(key@ == occ_key(ms, 0, i as int));
        let ghost before = *dst;
        if !dst.contains_key(&key) {
            let v = src.val(i).dup();
            dst.insert(k, v);
            assert forall|j: int|
                0 <= j < i && first_occ(ms, 0, j) && !old(dst).has_key(
                    #[trigger] occ_key(ms, 0, j),
                ) implies dst.lookup(occ_key(ms, 0, j)) == Some(src.vals()[j]) by {
                assert(before.has_key(occ_key(ms, 0, j)));
            }
        } else {
            assert forall|j: int|
                0 <= j < i + 1 && first_occ(ms, 0, j) && !old(dst).has_key(
                    #[trigger] occ_key(ms, 0, j),
                ) implies dst.lookup(occ_key(ms, 0, j)) == Some(src.vals()[j]) by {
                if j == i {
                    let jj = choose|jj: int| 0 <= jj < i && #[trigger] occ_key(ms, 0, jj) == key@;
                    assert(is_entry(ms, 0, jj));
                }
            }
        }
        assert forall|kk: Seq<u32>| #![trigger dst.has_key(kk)] dst.has_key(kk) == (old(
            dst,
        ).has_key(kk) || exists|j: int| 0 <= j < i + 1 && #[trigger] occ_key(ms, 0, j) == kk) by {
            if exists|j: int| 0 <= j < i + 1 && #[trigger] occ_key(ms, 0, j) == kk {
                let j = choose|j: int| 0 <= j < i + 1 && #[trigger] occ_key(ms, 0, j) == kk;
                if j < i {
                    assert(before.has_key(kk));
                }
            }
            if before.has_key(kk) && !old(dst).has_key(kk) {
                let j = choose|j: int| 0 <= j < i && #[trigger] occ_key(ms, 0, j) == kk;
                assert(0 <= j < i + 1);
            }
        }
        i = i + 1;
    }
    assert forall|kk: Seq<u32>| #![trigger dst.has_key(kk)] dst.has_key(kk) == (old(dst).has_key(kk)
        || occurs(ms, kk)) by {
        if occurs(ms, kk) {
            let (ci, j) = choose|ci: int, j: int| is_entry(ms, ci, j) && #[trigger] occ_key(ms, ci, j) == kk;
            assert(occ_key(ms, 0, j) == kk);
        }
        if dst.has_key(kk) && !old(dst).has_key(kk) {
            let j = choose|j: int| 0 <= j < n && #[trigger] occ_key(ms, 0, j) == kk;
            assert(is_entry(ms, 0, j));
        }
    }
}


/// Inserting a well-formed tag set keeps all values of a profile map well formed.
proof fn lemma_profiles_insert(pre: SortedMap<String, TagSet>, post: SortedMap<String, TagSet>, k: Seq<u32>, v: TagSet)
    requires
        profiles_wf(pre),
        post.wf(),
        v.wf(),
        post.lookup(k) == Some(v),
        forall|kk: Seq<u32>| kk != k ==> #[trigger] post.lookup(kk) == pre.lookup(kk),
    ensures
        profiles_wf(post),
{
    assert forall|i: int| 0 <= i < post.keys().len() implies (#[trigger] post.vals()[i]).wf() by {
        post.lemma_index_of(i);
        let kk = post.key_at(i);
        assert(post.lookup(kk) == Some(post.vals()[i]));
        if kk != k {
            assert(post.lookup(kk) == pre.lookup(kk));
            assert(pre.has_key(kk));
            let j = pre.index_of(kk);
            assert(pre.vals()[j].wf());
        } else {
            assert(post.vals()[i] == v);
        }
    }
}

/// Adds the profiles of `src` under lower-cased names; a later profile of
/// the same name replaces an earlier one.
fn merge_last_profiles(dst: &mut SortedMap<String, TagSet>, src: &SortedMap<String, TagSet>)
    requires
        profiles_wf(*old(dst)),
        profiles_wf(*src),
    ensures
        profiles_wf(*final(dst)),
        forall|kk: Seq<u32>|
            #![trigger final(dst).has_key(kk)]
            final(dst).has_key(kk) == (old(dst).has_key(kk) || occurs(seq![*src], kk)),
        forall|kk: Seq<u32>|
            !occurs(seq![*src], kk) ==> #[trigger] final(dst).lookup(kk) == old(dst).lookup(kk),
        forall|j: int|
            last_occ(seq![*src], 0, j) ==> final(dst).lookup(#[trigger] occ_key(seq![*src], 0, j)) is Some
                && same_set(final(dst).lookup(occ_key(seq![*src], 0, j))->0, src.vals()[j]),
{
    let ghost ms = seq![*src];
    let n = src.len();
    let mut i: usize = 0;
    while i < n
        invariant
            profiles_wf(*dst),
            profiles_wf(*src),
            ms == seq![*src],
            n == src.keys().len(),
            i <= n,
            forall|kk: Seq<u32>|
                #![trigger dst.has_key(kk)]
                dst.has_key(kk) == (old(dst).has_key(kk) || exists|j: int|
                    0 <= j < i && #[trigger] occ_key(ms, 0, j) == kk),
            forall|kk: Seq<u32>|
                (forall|j: int| 0 <= j < i ==> #[trigger] occ_key(ms, 0, j) != kk) ==> #[trigger] dst.lookup(kk)
                    == old(dst).lookup(kk),
            forall|j: int|
                0 <= j < i && (forall|jj: int| j < jj < i ==> #[trigger] occ_key(ms, 0, jj) != occ_key(ms, 0, j))
                    ==> dst.lookup(#[trigger] occ_key(ms, 0, j)) is Some && same_set(
                    dst.lookup(occ_key(ms, 0, j))->0,
                    src.vals()[j],
                ),
        decreases n - i,
    {
        let k = text::to_lowercase(src.key(i).as_str());
        let ghost key = k.key();
        assert(key == occ_key(ms, 0, i as int));
        let v = src.val(i).dup_map();
        let ghost before = *dst;
        let ghost vv = v;
        dst.insert(k, v);
        proof {
            assert(src.vals()[i as int].wf());
            lemma_profiles_insert(before, *dst, key, vv);
        }
        assert forall|kk: Seq<u32>| #![trigger dst.has_key(kk)] dst.has_key(kk) == (old(
            dst,
        ).has_key(kk) || exists|j: int| 0 <= j < i + 1 && #[trigger] occ_key(ms, 0, j) == kk) by {
            if exists|j: int| 0 <= j < i + 1 && #[trigger] occ_key(ms, 0, j) == kk {
                let j = choose|j: int| 0 <= j < i + 1 && #[trigger] occ_key(ms, 0, j) == kk;
                if j < i {
                    assert(before.has_key(kk));
                }
            }
            if before.has_key(kk) && !old(dst).has_key(kk) {
                let j = choose|j: int| 0 <= j < i && #[trigger] occ_key(ms, 0, j) == kk;
                assert(0 <= j < i + 1);
            }
        }
        assert forall|kk: Seq<u32>|
            (forall|j: int| 0 <= j < i + 1 ==> #[trigger] occ_key(ms, 0, j) != kk) implies #[trigger] dst.lookup(kk)
                == old(dst).lookup(kk) by {
            assert(occ_key(ms, 0, i as int) != kk);
            assert forall|j: int| 0 <= j < i implies #[trigger] occ_key(ms, 0, j) != kk by {
                assert(0 <= j < i + 1);
            }
        }
        assert forall|j: int|
            0 <= j < i + 1 && (forall|jj: int| j < jj < i + 1 ==> #[trigger] occ_key(ms, 0, jj) != occ_key(ms, 0, j))
                implies dst.lookup(#[trigger] occ_key(ms, 0, j)) is Some && same_set(
                dst.lookup(occ_key(ms, 0, j))->0,
                src.vals()[j],
            ) by {
            if j < i {
                assert(occ_key(ms, 0, i as int) != occ_key(ms, 0, j));
                assert forall|jj: int| j < jj < i implies #[trigger] occ_key(ms, 0, jj) != occ_key(ms, 0, j) by {
                    assert(j < jj < i + 1);
                }
            }
        }
        i = i + 1;
    }
    assert forall|kk: Seq<u32>| #![trigger dst.has_key(kk)] dst.has_key(kk) == (old(dst).has_key(kk)
        || occurs(ms, kk)) by {
        if occurs(ms, kk) {
            let (ci, j) = choose|ci: int, j: int| is_entry(ms, ci, j) && #[trigger] occ_key(ms, ci, j) == kk;
            assert(occ_key(ms, 0, j) == kk);
        }
        if dst.has_key(kk) && !old(dst).has_key(kk) {
            let j = choose|j: int| 0 <= j < n && #[trigger] occ_key(ms, 0, j) == kk;
            assert(is_entry(ms, 0, j));
        }
    }
    assert forall|kk: Seq<u32>| !occurs(ms, kk) implies #[trigger] dst.lookup(kk) == old(dst).lookup(kk) by {
        assert forall|j: int| 0 <= j < n implies #[trigger] occ_key(ms, 0, j) != kk by {
            assert(is_entry(ms, 0, j));
        }
    }
    assert forall|j: int| last_occ(ms, 0, j) implies dst.lookup(#[trigger] occ_key(ms, 0, j)) is Some
        && same_set(dst.lookup(occ_key(ms, 0, j))->0, src.vals()[j]) by {
        assert forall|jj: int| j < jj < n implies #[trigger] occ_key(ms, 0, jj) != occ_key(ms, 0, j) by {
            assert(is_entry(ms, 0, jj));
        }
    }
}


/// Adds the requirements stated in a configuration file (by the file and by
/// each of its entries) to `req`.
fn add_requirements(req: &mut RequireSet, c: &HermitConfig)
    requires
        old(req).wf(),
        c.wf(),
    ensures
        final(req).wf(),
        forall|k: Seq<u32>|
            #![trigger final(req).has_key(k)]
            final(req).has_key(k) == (old(req).has_key(k) || c.has_requirement(k)),
{
    let mut i: usize = 0;
    while i < c.link.len()
        invariant
            req.wf(),
            c.wf(),
            i <= c.link@.len(),
            forall|k: Seq<u32>|
                #![trigger req.has_key(k)]
                req.has_key(k) == (old(req).has_key(k) || exists|j: int|
                    0 <= j < i && (#[trigger] c.link@[j]).requires.has_key(k)),
        decreases c.link@.len() - i,
    {
        let ghost before = *req;
        extend_set(req, &c.link[i].requires);
        assert forall|k: Seq<u32>| #![trigger req.has_key(k)] req.has_key(k) == (old(req).has_key(k)
            || exists|j: int| 0 <= j < i + 1 && (#[trigger] c.link@[j]).requires.has_key(k)) by {
            if exists|j: int| 0 <= j < i + 1 && (#[trigger] c.link@[j]).requires.has_key(k) {
                let j = choose|j: int| 0 <= j < i + 1 && (#[trigger] c.link@[j]).requires.has_key(k);
                if j < i {
                    assert(before.has_key(k));
                }
            }
        }
        i = i + 1;
    }
    let ghost after_links = *req;
    let mut i: usize = 0;
    while i < c.patch.len()
        invariant
            req.wf(),
            c.wf(),
            i <= c.patch@.len(),
            forall|k: Seq<u32>|
                #![trigger req.has_key(k)]
                req.has_key(k) == (after_links.has_key(k) || exists|j: int|
                    0 <= j < i && (#[trigger] c.patch@[j]).requires.has_key(k)),
        decreases c.patch@.len() - i,
    {
        let ghost before = *req;
        extend_set(req, &c.patch[i].requires);
        assert forall|k: Seq<u32>| #![trigger req.has_key(k)] req.has_key(k) == (after_links.has_key(k)
            || exists|j: int| 0 <= j < i + 1 && (#[trigger] c.patch@[j]).requires.has_key(k)) by {
            if exists|j: int| 0 <= j < i + 1 && (#[trigger] c.patch@[j]).requires.has_key(k) {
                let j = choose|j: int| 0 <= j < i + 1 && (#[trigger] c.patch@[j]).requires.has_key(k);
                if j < i {
                    assert(before.has_key(k));
                }
            }
        }
        i = i + 1;
    }
    let ghost after_patches = *req;
    let mut i: usize = 0;
    while i < c.install.len()
        invariant
            req.wf(),
            c.wf(),
            i <= c.install@.len(),
            forall|k: Seq<u32>|
                #![trigger req.has_key(k)]
                req.has_key(k) == (after_patches.has_key(k) || exists|j: int|
                    0 <= j < i && (#[trigger] c.install@[j]).requires.has_key(k)),
        decreases c.install@.len() - i,
    {
        let ghost before = *req;
        extend_set(req, &c.install[i].requires);
        assert forall|k: Seq<u32>| #![trigger req.has_key(k)] req.has_key(k) == (after_patches.has_key(k)
            || exists|j: int| 0 <= j < i + 1 && (#[trigger] c.install@[j]).requires.has_key(k)) by {
            if exists|j: int| 0 <= j < i + 1 && (#[trigger] c.install@[j]).requires.has_key(k) {
                let j = choose|j: int| 0 <= j < i + 1 && (#[trigger] c.install@[j]).requires.has_key(k);
                if j < i {
                    assert(before.has_key(k));
                }
            }
        }
        i = i + 1;
    }
    extend_set(req, &c.requires);
}

/// The subconfiguration key of a file: its path relative to the hermit
/// directory, or the path itself where it lies outside.
pub open spec fn rel_path(path: Seq<char>, hermit_dir: Seq<char>) -> Seq<char> {
    match paths::strip_prefix(path, hermit_dir) {
        Some(r) => r,
        None => path,
    }
}

/// The snippet tables of a sequence of files.
pub open spec fn snippet_maps(cs: Seq<HermitConfig>) -> Seq<SortedMap<String, String>> {
    cs.map_values(|c: HermitConfig| c.snippets)
}

/// The detector tables of a sequence of files.
pub open spec fn detector_maps(cs: Seq<HermitConfig>) -> Seq<SortedMap<String, DetectorConfig>> {
    cs.map_values(|c: HermitConfig| c.detectors)
}

/// The profile tables of a sequence of files.
pub open spec fn profile_maps(cs: Seq<HermitConfig>) -> Seq<SortedMap<String, TagSet>> {
    cs.map_values(|c: HermitConfig| c.profiles)
}

/// Where `dst` holds the first-declared entries of the maps before `i`,
/// merging map `i` makes it hold those of the maps up to `i`.
proof fn lemma_first_step<V>(ms: Seq<SortedMap<String, V>>, i: int, pre: SortedMap<String, V>, post: SortedMap<String, V>)
    requires
        0 <= i < ms.len(),
        forall|kk: Seq<u32>|
            #![trigger pre.has_key(kk)]
            pre.has_key(kk) == exists|ci: int, j: int|
                0 <= ci < i && is_entry(ms, ci, j) && #[trigger] occ_key(ms, ci, j) == kk,
        forall|ci: int, j: int|
            0 <= ci < i && first_occ(ms, ci, j) ==> pre.lookup(#[trigger] occ_key(ms, ci, j)) == Some(
                ms[ci].vals()[j],
            ),
        forall|kk: Seq<u32>|
            #![trigger post.has_key(kk)]
            post.has_key(kk) == (pre.has_key(kk) || occurs(seq![ms[i]], kk)),
        forall|kk: Seq<u32>| pre.has_key(kk) ==> #[trigger] post.lookup(kk) == pre.lookup(kk),
        forall|j: int|
            first_occ(seq![ms[i]], 0, j) && !pre.has_key(#[trigger] occ_key(seq![ms[i]], 0, j))
                ==> post.lookup(occ_key(seq![ms[i]], 0, j)) == Some(ms[i].vals()[j]),
    ensures
        forall|kk: Seq<u32>|
            #![trigger post.has_key(kk)]
            post.has_key(kk) == exists|ci: int, j: int|
                0 <= ci < i + 1 && is_entry(ms, ci, j) && #[trigger] occ_key(ms, ci, j) == kk,
        forall|ci: int, j: int|
            0 <= ci < i + 1 && first_occ(ms, ci, j) ==> post.lookup(#[trigger] occ_key(ms, ci, j))
                == Some(ms[ci].vals()[j]),
{
    let one = seq![ms[i]];
    assert forall|j: int| #[trigger] occ_key(one, 0, j) == occ_key(ms, i, j) by {}
    assert forall|kk: Seq<u32>| #![trigger post.has_key(kk)] post.has_key(kk) == exists|ci: int, j: int|
        0 <= ci < i + 1 && is_entry(ms, ci, j) && #[trigger] occ_key(ms, ci, j) == kk by {
        if occurs(one, kk) {
            let (ci, j) = choose|ci: int, j: int| is_entry(one, ci, j) && #[trigger] occ_key(one, ci, j) == kk;
            assert(is_entry(ms, i, j) && occ_key(ms, i, j) == kk);
        }
        if exists|ci: int, j: int| 0 <= ci < i + 1 && is_entry(ms, ci, j) && #[trigger] occ_key(ms, ci, j) == kk {
            let (ci, j) = choose|ci: int, j: int| 0 <= ci < i + 1 && is_entry(ms, ci, j) && #[trigger] occ_key(ms, ci, j) == kk;
            if ci < i {
                assert(pre.has_key(kk));
            } else {
                assert(is_entry(one, 0, j) && occ_key(one, 0, j) == kk);
            }
        }
    }
    assert forall|ci: int, j: int| 0 <= ci < i + 1 && first_occ(ms, ci, j) implies post.lookup(
        #[trigger] occ_key(ms, ci, j),
    ) == Some(ms[ci].vals()[j]) by {
        let kk = occ_key(ms, ci, j);
        if ci < i {
            assert(pre.has_key(kk));
            assert(pre.lookup(kk) == Some(ms[ci].vals()[j]));
            assert(post.lookup(kk) == pre.lookup(kk));
        } else {
            if pre.has_key(kk) {
                let (cj, jj) = choose|cj: int, jj: int| 0 <= cj < i && is_entry(ms, cj, jj) && #[trigger] occ_key(ms, cj, jj) == kk;
                assert(occ_key(ms, cj, jj) != kk);
            }
            assert forall|cj: int, jj: int| is_entry(one, cj, jj) && (cj < 0 || (cj == 0 && jj < j)) implies #[trigger] occ_key(one, cj, jj) != occ_key(one, 0, j) by {
                assert(occ_key(ms, i, jj) != occ_key(ms, i, j));
            }
            assert(first_occ(one, 0, j));
            assert(occ_key(one, 0, j) == kk);
            assert(one[0] == ms[i]);
            assert(post.lookup(occ_key(one, 0, j)) == Some(one[0].vals()[j]));
        }
    }
}

/// Where `dst` holds the last-declared profiles of the maps before `i`,
/// merging map `i` makes it hold those of the maps up to `i`.
proof fn lemma_last_step(ms: Seq<SortedMap<String, TagSet>>, i: int, pre: SortedMap<String, TagSet>, post: SortedMap<String, TagSet>)
    requires
        0 <= i < ms.len(),
        forall|kk: Seq<u32>|
            #![trigger pre.has_key(kk)]
            pre.has_key(kk) == exists|ci: int, j: int|
                0 <= ci < i && is_entry(ms, ci, j) && #[trigger] occ_key(ms, ci, j) == kk,
        forall|ci: int, j: int|
            0 <= ci < i && last_occ(ms.take(i), ci, j) ==> pre.lookup(#[trigger] occ_key(ms, ci, j)) is Some
                && same_set(pre.lookup(occ_key(ms, ci, j))->0, ms[ci].vals()[j]),
        forall|kk: Seq<u32>|
            #![trigger post.has_key(kk)]
            post.has_key(kk) == (pre.has_key(kk) || occurs(seq![ms[i]], kk)),
        forall|kk: Seq<u32>|
            !occurs(seq![ms[i]], kk) ==> #[trigger] post.lookup(kk) == pre.lookup(kk),
        forall|j: int|
            last_occ(seq![ms[i]], 0, j) ==> post.lookup(#[trigger] occ_key(seq![ms[i]], 0, j)) is Some
                && same_set(post.lookup(occ_key(seq![ms[i]], 0, j))->0, ms[i].vals()[j]),
    ensures
        forall|kk: Seq<u32>|
            #![trigger post.has_key(kk)]
            post.has_key(kk) == exists|ci: int, j: int|
                0 <= ci < i + 1 && is_entry(ms, ci, j) && #[trigger] occ_key(ms, ci, j) == kk,
        forall|ci: int, j: int|
            0 <= ci < i + 1 && last_occ(ms.take(i + 1), ci, j) ==> post.lookup(#[trigger] occ_key(ms, ci, j)) is Some
                && same_set(post.lookup(occ_key(ms, ci, j))->0, ms[ci].vals()[j]),
{
    let one = seq![ms[i]];
    let pi = ms.take(i);
    let pn = ms.take(i + 1);
    assert forall|j: int| #[trigger] occ_key(one, 0, j) == occ_key(ms, i, j) by {}
    assert forall|ci: int, j: int| 0 <= ci < i + 1 implies #[trigger] occ_key(pn, ci, j) == occ_key(ms, ci, j) by {}
    assert forall|ci: int, j: int| 0 <= ci < i implies #[trigger] occ_key(pi, ci, j) == occ_key(ms, ci, j) by {}
    assert forall|kk: Seq<u32>| #![trigger post.has_key(kk)] post.has_key(kk) == exists|ci: int, j: int|
        0 <= ci < i + 1 && is_entry(ms, ci, j) && #[trigger] occ_key(ms, ci, j) == kk by {
        if occurs(one, kk) {
            let (ci, j) = choose|ci: int, j: int| is_entry(one, ci, j) && #[trigger] occ_key(one, ci, j) == kk;
            assert(is_entry(ms, i, j) && occ_key(ms, i, j) == kk);
        }
        if exists|ci: int, j: int| 0 <= ci < i + 1 && is_entry(ms, ci, j) && #[trigger] occ_key(ms, ci, j) == kk {
            let (ci, j) = choose|ci: int, j: int| 0 <= ci < i + 1 && is_entry(ms, ci, j) && #[trigger] occ_key(ms, ci, j) == kk;
            if ci < i {
                assert(pre.has_key(kk));
            } else {
                assert(is_entry(one, 0, j) && occ_key(one, 0, j) == kk);
            }
        }
    }
    assert forall|ci: int, j: int| 0 <= ci < i + 1 && last_occ(pn, ci, j) implies post.lookup(
        #[trigger] occ_key(ms, ci, j),
    ) is Some && same_set(post.lookup(occ_key(ms, ci, j))->0, ms[ci].vals()[j]) by {
        let kk = occ_key(ms, ci, j);
        assert(ms[ci] == pn[ci]);
        if ci < i {
            assert(ms[ci] == pi[ci]);
            if occurs(one, kk) {
                let (c0, jj) = choose|c0: int, jj: int| is_entry(one, c0, jj) && #[trigger] occ_key(one, c0, jj) == kk;
                assert(is_entry(pn, i, jj));
                assert(occ_key(pn, i, jj) != occ_key(pn, ci, j));
            }
            assert forall|cj: int, jj: int| is_entry(pi, cj, jj) && (cj > ci || (cj == ci && jj > j)) implies #[trigger] occ_key(pi, cj, jj) != occ_key(pi, ci, j) by {
                assert(is_entry(pn, cj, jj));
                assert(occ_key(pn, cj, jj) != occ_key(pn, ci, j));
            }
            assert(last_occ(pi, ci, j));
            assert(pre.lookup(kk) is Some && same_set(pre.lookup(kk)->0, ms[ci].vals()[j]));
            assert(post.lookup(kk) == pre.lookup(kk));
        } else {
            assert forall|cj: int, jj: int| is_entry(one, cj, jj) && (cj > 0 || (cj == 0 && jj > j)) implies #[trigger] occ_key(one, cj, jj) != occ_key(one, 0, j) by {
                assert(is_entry(pn, i, jj));
                assert(occ_key(pn, i, jj) != occ_key(pn, i, j));
            }
            assert(last_occ(one, 0, j));
            assert(occ_key(one, 0, j) == kk);
            assert(one[0] == ms[i]);
        }
    }
}



/// The subconfiguration key of the `ci`-th file.
pub open spec fn sub_key(cs: Seq<HermitConfig>, ci: int, hermit_dir: Seq<char>) -> Seq<u32> {
    text::chars_key(rel_path(cs[ci].spec_path(), hermit_dir))
}

proof fn lemma_subconfig_step(
    cs: Seq<HermitConfig>,
    m: int,
    hd: Seq<char>,
    before: SortedMap<String, HermitConfig>,
    after: SortedMap<String, HermitConfig>,
)
    requires
        0 <= m < cs.len(),
        forall|c: int| 0 <= c < cs.len() ==> (#[trigger] cs[c]).wf(),
        before.wf(),
        after.wf(),
        forall|x: int| 0 <= x < before.keys().len() ==> (#[trigger] before.vals()[x]).wf(),
        forall|kk: Seq<u32>|
            #![trigger before.has_key(kk)]
            before.has_key(kk) == exists|ci: int| 0 <= ci < m && #[trigger] sub_key(cs, ci, hd) == kk,
        forall|ci: int|
            0 <= ci < m && (forall|cj: int| ci < cj < m ==> #[trigger] sub_key(cs, cj, hd) != sub_key(cs, ci, hd))
                ==> before.lookup(#[trigger] sub_key(cs, ci, hd)) == Some(cs[ci]),
        after.lookup(sub_key(cs, m, hd)) == Some(cs[m]),
        forall|kk: Seq<u32>|
            #![trigger after.has_key(kk)]
            after.has_key(kk) == (before.has_key(kk) || kk == sub_key(cs, m, hd)),
        forall|kk: Seq<u32>| kk != sub_key(cs, m, hd) ==> #[trigger] after.lookup(kk) == before.lookup(kk),
    ensures
        forall|x: int| 0 <= x < after.keys().len() ==> (#[trigger] after.vals()[x]).wf(),
        forall|kk: Seq<u32>|
            #![trigger after.has_key(kk)]
            after.has_key(kk) == exists|ci: int| 0 <= ci < m + 1 && #[trigger] sub_key(cs, ci, hd) == kk,
        forall|ci: int|
            0 <= ci < m + 1 && (forall|cj: int| ci < cj < m + 1 ==> #[trigger] sub_key(cs, cj, hd) != sub_key(cs, ci, hd))
                ==> after.lookup(#[trigger] sub_key(cs, ci, hd)) == Some(cs[ci]),
{
    assert forall|x: int| 0 <= x < after.keys().len() implies (#[trigger] after.vals()[x]).wf() by {
        after.lemma_index_of(x);
        let kk = after.key_at(x);
        assert(after.lookup(kk) == Some(after.vals()[x]));
        if kk != sub_key(cs, m, hd) {
            assert(after.lookup(kk) == before.lookup(kk));
            let y = before.index_of(kk);
            assert(before.vals()[y].wf());
        }
    }
    assert forall|kk: Seq<u32>| #![trigger after.has_key(kk)] after.has_key(kk) == exists|ci: int|
        0 <= ci < m + 1 && #[trigger] sub_key(cs, ci, hd) == kk by {
        if exists|ci: int| 0 <= ci < m + 1 && #[trigger] sub_key(cs, ci, hd) == kk {
            let ci = choose|ci: int| 0 <= ci < m + 1 && #[trigger] sub_key(cs, ci, hd) == kk;
            if ci < m {
                assert(before.has_key(kk));
            }
        }
    }
    assert forall|ci: int|
        0 <= ci < m + 1 && (forall|cj: int| ci < cj < m + 1 ==> #[trigger] sub_key(cs, cj, hd) != sub_key(cs, ci, hd))
            implies after.lookup(#[trigger] sub_key(cs, ci, hd)) == Some(cs[ci]) by {
        if ci < m {
            assert(sub_key(cs, m, hd) != sub_key(cs, ci, hd));
            assert forall|cj: int| ci < cj < m implies #[trigger] sub_key(cs, cj, hd) != sub_key(cs, ci, hd) by {
                assert(ci < cj < m + 1);
            }
        }
    }
}

/// The files by their key relative to the hermit directory; of two files
/// with the same key the later one stays.
fn collect_subconfigs(configs: Vec<HermitConfig>, hermit_dir: &str) -> (r: SortedMap<String, HermitConfig>)
    requires
        forall|i: int| 0 <= i < configs@.len() ==> (#[trigger] configs@[i]).wf(),
    ensures
        r.wf(),
        forall|x: int| 0 <= x < r.keys().len() ==> (#[trigger] r.vals()[x]).wf(),
        forall|kk: Seq<u32>|
            #![trigger r.has_key(kk)]
            r.has_key(kk) == exists|ci: int| 0 <= ci < configs@.len() && #[trigger] sub_key(configs@, ci, hermit_dir@) == kk,
        forall|ci: int|
            0 <= ci < configs@.len() && (forall|cj: int| ci < cj < configs@.len() ==> #[trigger] sub_key(configs@, cj, hermit_dir@) != sub_key(configs@, ci, hermit_dir@))
                ==> r.lookup(#[trigger] sub_key(configs@, ci, hermit_dir@)) == Some(configs@[ci]),
{
    let ghost cs = configs@;
    let n = configs.len();
    let mut subconfigs: SortedMap<String, HermitConfig> = SortedMap::new();
    let mut rest = configs;
    let mut m: usize = 0;
    while m < n
        invariant
            n == cs.len(),
            m <= n,
            rest@ == cs.skip(m as int),
            forall|c: int| 0 <= c < cs.len() ==> (#[trigger] cs[c]).wf(),
            subconfigs.wf(),
            forall|x: int| 0 <= x < subconfigs.keys().len() ==> (#[trigger] subconfigs.vals()[x]).wf(),
            forall|kk: Seq<u32>|
                #![trigger subconfigs.has_key(kk)]
                subconfigs.has_key(kk) == exists|ci: int| 0 <= ci < m && #[trigger] sub_key(cs, ci, hermit_dir@) == kk,
            forall|ci: int|
                0 <= ci < m && (forall|cj: int| ci < cj < m ==> #[trigger] sub_key(cs, cj, hermit_dir@) != sub_key(cs, ci, hermit_dir@))
                    ==> subconfigs.lookup(#[trigger] sub_key(cs, ci, hermit_dir@)) == Some(cs[ci]),
        decreases n - m,
    {
        assert(rest@[0] == cs[m as int]);
        let c = rest.remove(0);
        assert(rest@ =~= cs.skip(m + 1));
        let key = match paths::strip_path_prefix(c.path.as_str(), hermit_dir) {
            Some(rp) => rp,
            None => c.path.clone(),
        };
        assert(key.key() == sub_key(cs, m as int, hermit_dir@));
        let ghost before = subconfigs;
        subconfigs.insert(key, c);
        proof {
            lemma_subconfig_step(cs, m as int, hermit_dir@, before, subconfigs);
        }
        m = m + 1;
    }
    subconfigs
}

/// The merged view of all configuration files under the hermit directory.
#[derive(Debug)]
pub struct GlobalConfig {
    hermit_dir: String,
    home_dir: String,
    subconfigs: SortedMap<String, HermitConfig>,
    all_profiles: SortedMap<String, TagSet>,
    all_required_tags: RequireSet,
    all_detected_tags: TagSet,
    all_snippets: SortedMap<String, String>,
    all_detectors: SortedMap<String, DetectorConfig>,
}

impl GlobalConfig {
    /// The hermit directory.
    pub closed spec fn spec_hermit_dir(&self) -> Seq<char> {
        self.hermit_dir@
    }

    /// The home directory.
    pub closed spec fn spec_home_dir(&self) -> Seq<char> {
        self.home_dir@
    }

    /// The files, by path relative to the hermit directory.
    pub closed spec fn spec_subconfigs(&self) -> SortedMap<String, HermitConfig> {
        self.subconfigs
    }

    /// All profiles, by lower-cased name.
    pub closed spec fn spec_profiles(&self) -> SortedMap<String, TagSet> {
        self.all_profiles
    }

    /// Every requirement stated anywhere.
    pub closed spec fn spec_required(&self) -> RequireSet {
        self.all_required_tags
    }

    /// The tags detectors produced.
    pub closed spec fn spec_detected(&self) -> TagSet {
        self.all_detected_tags
    }

    /// All snippets, by lower-cased name.
    pub closed spec fn spec_snippets(&self) -> SortedMap<String, String> {
        self.all_snippets
    }

    /// All detectors, by lower-cased name.
    pub closed spec fn spec_detectors(&self) -> SortedMap<String, DetectorConfig> {
        self.all_detectors
    }

    /// Well-formedness of all tables.
    pub open spec fn wf(&self) -> bool {
        &&& self.spec_subconfigs().wf()
        &&& forall|i: int|
            0 <= i < self.spec_subconfigs().keys().len() ==> (
            #[trigger] self.spec_subconfigs().vals()[i]).wf()
        &&& profiles_wf(self.spec_profiles())
        &&& self.spec_required().wf()
        &&& self.spec_detected().wf()
        &&& self.spec_snippets().wf()
        &&& self.spec_detectors().wf()
    }

    /// Merges loaded configuration files, in the order given: the
    /// requirements of all files; snippets and detectors under lower-cased
    /// names where the first declaration counts; profiles under lower-cased
    /// names where the last declaration counts; each file under its path
    /// relative to `hermit_dir`. The detected tags are `builtin_tags`.
    pub fn from_paths(hermit_dir: &str, home_dir: &str, builtin_tags: TagSet, configs: Vec<HermitConfig>) -> (r: GlobalConfig)
        requires
            builtin_tags.wf(),
            forall|i: int| 0 <= i < configs@.len() ==> (#[trigger] configs@[i]).wf(),
        ensures
            r.wf(),
            r.spec_hermit_dir() == hermit_dir@,
            r.spec_home_dir() == home_dir@,
            r.spec_detected() == builtin_tags,
            forall|k: Seq<u32>|
                #![trigger r.spec_required().has_key(k)]
                r.spec_required().has_key(k) == exists|ci: int|
                    0 <= ci < configs@.len() && (#[trigger] configs@[ci]).has_requirement(k),
            forall|kk: Seq<u32>|
                #![trigger r.spec_snippets().has_key(kk)]
                r.spec_snippets().has_key(kk) == occurs(snippet_maps(configs@), kk),
            forall|ci: int, j: int|
                first_occ(snippet_maps(configs@), ci, j) ==> r.spec_snippets().lookup(
                    #[trigger] occ_key(snippet_maps(configs@), ci, j),
                ) == Some(snippet_maps(configs@)[ci].vals()[j]),
            forall|kk: Seq<u32>|
                #![trigger r.spec_detectors().has_key(kk)]
                r.spec_detectors().has_key(kk) == occurs(detector_maps(configs@), kk),
            forall|ci: int, j: int|
                first_occ(detector_maps(configs@), ci, j) ==> r.spec_detectors().lookup(
                    #[trigger] occ_key(detector_maps(configs@), ci, j),
                ) == Some(detector_maps(configs@)[ci].vals()[j]),
            forall|kk: Seq<u32>|
                #![trigger r.spec_profiles().has_key(kk)]
                r.spec_profiles().has_key(kk) == occurs(profile_maps(configs@), kk),
            forall|ci: int, j: int|
                last_occ(profile_maps(configs@), ci, j) ==> r.spec_profiles().lookup(
                    #[trigger] occ_key(profile_maps(configs@), ci, j),
                ) is Some && same_set(
                    r.spec_profiles().lookup(occ_key(profile_maps(configs@), ci, j))->0,
                    profile_maps(configs@)[ci].vals()[j],
                ),
            forall|kk: Seq<u32>|
                #![trigger r.spec_subconfigs().has_key(kk)]
                r.spec_subconfigs().has_key(kk) == exists|ci: int|
                    0 <= ci < configs@.len() && #[trigger] sub_key(configs@, ci, hermit_dir@) == kk,
            forall|ci: int|
                0 <= ci < configs@.len() && (forall|cj: int|
                    ci < cj < configs@.len() ==> #[trigger] sub_key(configs@, cj, hermit_dir@) != sub_key(
                        configs@,
                        ci,
                        hermit_dir@,
                    )) ==> r.spec_subconfigs().lookup(#[trigger] sub_key(configs@, ci, hermit_dir@))
                    == Some(configs@[ci]),
    {
        let mut required: RequireSet = SortedMap::new();
        let mut snippets: SortedMap<String, String> = SortedMap::new();
        let mut detectors: SortedMap<String, DetectorConfig> = SortedMap::new();
        let mut profiles: SortedMap<String, TagSet> = SortedMap::new();
        let ghost cs = configs@;
        let ghost sm = snippet_maps(cs);
        let ghost dm = detector_maps(cs);
        let ghost pm = profile_maps(cs);
        let n = configs.len();
        let mut i: usize = 0;
        while i < n
            invariant
                n == cs.len(),
                cs == configs@,
                sm == snippet_maps(cs),
                dm == detector_maps(cs),
                pm == profile_maps(cs),
                i <= n,
                forall|c: int| 0 <= c < cs.len() ==> (#[trigger] cs[c]).wf(),
                required.wf(),
                snippets.wf(),
                detectors.wf(),
                profiles_wf(profiles),
                forall|k: Seq<u32>|
                    #![trigger required.has_key(k)]
                    required.has_key(k) == exists|ci: int|
                        0 <= ci < i && (#[trigger] cs[ci]).has_requirement(k),
                forall|kk: Seq<u32>|
                    #![trigger snippets.has_key(kk)]
                    snippets.has_key(kk) == exists|ci: int, j: int|
                        0 <= ci < i && is_entry(sm, ci, j) && #[trigger] occ_key(sm, ci, j) == kk,
                forall|ci: int, j: int|
                    0 <= ci < i && first_occ(sm, ci, j) ==> snippets.lookup(
                        #[trigger] occ_key(sm, ci, j),
                    ) == Some(sm[ci].vals()[j]),
                forall|kk: Seq<u32>|
                    #![trigger detectors.has_key(kk)]
                    detectors.has_key(kk) == exists|ci: int, j: int|
                        0 <= ci < i && is_entry(dm, ci, j) && #[trigger] occ_key(dm, ci, j) == kk,
                forall|ci: int, j: int|
                    0 <= ci < i && first_occ(dm, ci, j) ==> detectors.lookup(
                        #[trigger] occ_key(dm, ci, j),
                    ) == Some(dm[ci].vals()[j]),
                forall|kk: Seq<u32>|
                    #![trigger profiles.has_key(kk)]
                    profiles.has_key(kk) == exists|ci: int, j: int|
                        0 <= ci < i && is_entry(pm, ci, j) && #[trigger] occ_key(pm, ci, j) == kk,
                forall|ci: int, j: int|
                    0 <= ci < i && last_occ(pm.take(i as int), ci, j) ==> profiles.lookup(
                        #[trigger] occ_key(pm, ci, j),
                    ) is Some && same_set(profiles.lookup(occ_key(pm, ci, j))->0, pm[ci].vals()[j]),
            decreases n - i,
        {
            let c = &configs[i];
            let ghost before_req = required;
            add_requirements(&mut required, c);
            assert forall|k: Seq<u32>| #![trigger required.has_key(k)] required.has_key(k) == exists|ci: int|
                0 <= ci < i + 1 && (#[trigger] cs[ci]).has_requirement(k) by {
                if exists|ci: int| 0 <= ci < i + 1 && (#[trigger] cs[ci]).has_requirement(k) {
                    let ci = choose|ci: int| 0 <= ci < i + 1 && (#[trigger] cs[ci]).has_requirement(k);
                    if ci < i {
                        assert(before_req.has_key(k));
                    }
                }
            }
            assert(sm[i as int] == c.snippets);
            assert(dm[i as int] == c.detectors);
            assert(pm[i as int] == c.profiles);
            let ghost before_s = snippets;
            merge_first(&mut snippets, &c.snippets);
            proof {
                lemma_first_step(sm, i as int, before_s, snippets);
            }
            let ghost before_d = detectors;
            merge_first(&mut detectors, &c.detectors);
            proof {
                lemma_first_step(dm, i as int, before_d, detectors);
            }
            let ghost before_p = profiles;
            merge_last_profiles(&mut profiles, &c.profiles);
            proof {
                lemma_last_step(pm, i as int, before_p, profiles);
            }
            i = i + 1;
        }
        proof {
            assert(pm.take(n as int) =~= pm);
            assert forall|kk: Seq<u32>| #![trigger snippets.has_key(kk)] snippets.has_key(kk) == occurs(sm, kk) by {}
            assert forall|kk: Seq<u32>| #![trigger detectors.has_key(kk)] detectors.has_key(kk) == occurs(dm, kk) by {}
            assert forall|kk: Seq<u32>| #![trigger profiles.has_key(kk)] profiles.has_key(kk) == occurs(pm, kk) by {}
        }
        let subconfigs = collect_subconfigs(configs, hermit_dir);
        GlobalConfig {
            hermit_dir: text::owned(hermit_dir),
            home_dir: text::owned(home_dir),
            subconfigs,
            all_profiles: profiles,
            all_required_tags: required,
            all_detected_tags: builtin_tags,
            all_snippets: snippets,
            all_detectors: detectors,
        }
    }
}


/// The non-empty pieces, with white space trimmed, of a list of pieces.
pub open spec fn kept_pieces(ps: Seq<Seq<char>>) -> Seq<Seq<char>>
    decreases ps.len(),
{
    if ps.len() == 0 {
        Seq::empty()
    } else {
        kept_pieces(ps.drop_last()) + if text::trim(ps.last()).len() > 0 {
            seq![text::trim(ps.last())]
        } else {
            Seq::<Seq<char>>::empty()
        }
    }
}

/// The tag names given on the command line: each argument split at commas,
/// each piece trimmed, empty pieces left out.
pub open spec fn cli_pieces(tags: Seq<Seq<char>>) -> Seq<Seq<char>>
    decreases tags.len(),
{
    if tags.len() == 0 {
        Seq::empty()
    } else {
        cli_pieces(tags.drop_last()) + kept_pieces(text::split(tags.last(), ','))
    }
}

/// Whether `a` is a prefix of `b`.
pub open spec fn is_prefix<A>(a: Seq<A>, b: Seq<A>) -> bool {
    a.len() <= b.len() && b.take(a.len() as int) == a
}

proof fn lemma_prefix_trans<A>(a: Seq<A>, b: Seq<A>, c: Seq<A>)
    requires
        is_prefix(a, b),
        is_prefix(b, c),
    ensures
        is_prefix(a, c),
{
    assert(c.take(a.len() as int) =~= c.take(b.len() as int).take(a.len() as int));
}

proof fn lemma_prefix_append<A>(a: Seq<A>, b: Seq<A>, x: Seq<A>)
    requires
        is_prefix(b, x),
    ensures
        is_prefix(a + b, a + x),
{
    assert((a + x).take((a + b).len() as int) =~= a + x.take(b.len() as int));
}

proof fn lemma_kept_prefix(ps: Seq<Seq<char>>, j: int)
    requires
        0 <= j <= ps.len(),
    ensures
        is_prefix(kept_pieces(ps.take(j)), kept_pieces(ps)),
    decreases ps.len() - j,
{
    if j == ps.len() {
        assert(ps.take(j) =~= ps);
        assert(kept_pieces(ps).take(kept_pieces(ps).len() as int) =~= kept_pieces(ps));
    } else {
        lemma_kept_prefix(ps, j + 1);
        assert(ps.take(j + 1).drop_last() =~= ps.take(j));
        let a = kept_pieces(ps.take(j));
        let b = kept_pieces(ps.take(j + 1));
        assert(b.take(a.len() as int) =~= a);
        lemma_prefix_trans(a, b, kept_pieces(ps));
    }
}

proof fn lemma_cli_prefix(tv: Seq<Seq<char>>, i: int)
    requires
        0 <= i <= tv.len(),
    ensures
        is_prefix(cli_pieces(tv.take(i)), cli_pieces(tv)),
    decreases tv.len() - i,
{
    if i == tv.len() {
        assert(tv.take(i) =~= tv);
        assert(cli_pieces(tv).take(cli_pieces(tv).len() as int) =~= cli_pieces(tv));
    } else {
        lemma_cli_prefix(tv, i + 1);
        assert(tv.take(i + 1).drop_last() =~= tv.take(i));
        let a = cli_pieces(tv.take(i));
        let b = cli_pieces(tv.take(i + 1));
        assert(b.take(a.len() as int) =~= a);
        lemma_prefix_trans(a, b, cli_pieces(tv));
    }
}

/// The ordering key of the profile to use: the named one, lower-cased, or `default`.
pub open spec fn profile_key(p: Option<Seq<char>>) -> Seq<u32> {
    match p {
        Some(s) => lc_key(s),
        None => text::chars_key("default"@),
    }
}

impl GlobalConfig {
    /// The hermit directory.
    pub fn hermit_dir(&self) -> (r: &str)
        ensures
            r@ == self.spec_hermit_dir(),
    {
        self.hermit_dir.as_str()
    }

    /// The home directory.
    pub fn home_dir(&self) -> (r: &str)
        ensures
            r@ == self.spec_home_dir(),
    {
        self.home_dir.as_str()
    }

    /// Every requirement stated anywhere.
    pub fn all_required_tags(&self) -> (r: &RequireSet)
        ensures
            *r == self.spec_required(),
    {
        &self.all_required_tags
    }

    /// The detected tags.
    pub fn all_detected_tags(&self) -> (r: &TagSet)
        ensures
            *r == self.spec_detected(),
    {
        &self.all_detected_tags
    }

    /// All profiles, by lower-cased name.
    pub fn all_profiles(&self) -> (r: &SortedMap<String, TagSet>)
        ensures
            *r == self.spec_profiles(),
    {
        &self.all_profiles
    }

    /// All detectors, by lower-cased name.
    pub fn all_detectors(&self) -> (r: &SortedMap<String, DetectorConfig>)
        ensures
            *r == self.spec_detectors(),
    {
        &self.all_detectors
    }

    /// The files, by path relative to the hermit directory.
    pub fn subconfigs(&self) -> (r: &SortedMap<String, HermitConfig>)
        ensures
            *r == self.spec_subconfigs(),
    {
        &self.subconfigs
    }

    /// The number of snippets.
    pub(crate) fn snippet_count(&self) -> (r: usize)
        requires
            self.wf(),
        ensures
            r == self.spec_snippets().keys().len(),
    {
        self.all_snippets.len()
    }

    /// The snippet stored under exactly this (lower-case) name.
    pub fn get_snippet(&self, key: &str) -> (r: Option<&String>)
        requires
            self.wf(),
        ensures
            match r {
                Some(v) => self.spec_snippets().lookup(text::chars_key(key@)) == Some(*v),
                None => self.spec_snippets().lookup(text::chars_key(key@)) is None,
            },
    {
        self.all_snippets.get_str(key)
    }

    /// Adds tags found by the configured detectors; tags already detected stay.
    pub fn extend_detected_tags(&mut self, tags: Vec<Tag>)
        requires
            old(self).wf(),
        ensures
            final(self).wf(),
            final(self).spec_hermit_dir() == old(self).spec_hermit_dir(),
            final(self).spec_home_dir() == old(self).spec_home_dir(),
            final(self).spec_subconfigs() == old(self).spec_subconfigs(),
            final(self).spec_profiles() == old(self).spec_profiles(),
            final(self).spec_required() == old(self).spec_required(),
            final(self).spec_snippets() == old(self).spec_snippets(),
            final(self).spec_detectors() == old(self).spec_detectors(),
            forall|k: Seq<u32>|
                #![trigger final(self).spec_detected().has_key(k)]
                final(self).spec_detected().has_key(k) == (old(self).spec_detected().has_key(k)
                    || exists|i: int| 0 <= i < tags@.len() && (#[trigger] tags@[i]).key() == k),
    {
        let ghost tv = tags@;
        let mut rest = tags;
        let n = rest.len();
        let mut m: usize = 0;
        while m < n
            invariant
                n == tv.len(),
                m <= n,
                rest@ == tv.skip(m as int),
                self.wf(),
                self.spec_hermit_dir() == old(self).spec_hermit_dir(),
                self.spec_home_dir() == old(self).spec_home_dir(),
                self.spec_subconfigs() == old(self).spec_subconfigs(),
                self.spec_profiles() == old(self).spec_profiles(),
                self.spec_required() == old(self).spec_required(),
                self.spec_snippets() == old(self).spec_snippets(),
                self.spec_detectors() == old(self).spec_detectors(),
                forall|k: Seq<u32>|
                    #![trigger self.spec_detected().has_key(k)]
                    self.spec_detected().has_key(k) == (old(self).spec_detected().has_key(k)
                        || exists|i: int| 0 <= i < m && (#[trigger] tv[i]).key() == k),
            decreases n - m,
        {
            assert(rest@[0] == tv[m as int]);
            let t = rest.remove(0);
            assert(rest@ =~= tv.skip(m + 1));
            let ghost before = self.all_detected_tags;
            self.all_detected_tags.insert(t, ());
            assert forall|k: Seq<u32>| #![trigger self.spec_detected().has_key(k)] self.spec_detected().has_key(k) == (old(self).spec_detected().has_key(k)
                || exists|i: int| 0 <= i < m + 1 && (#[trigger] tv[i]).key() == k) by {
                if exists|i: int| 0 <= i < m + 1 && (#[trigger] tv[i]).key() == k {
                    let i = choose|i: int| 0 <= i < m + 1 && (#[trigger] tv[i]).key() == k;
                    if i < m {
                        assert(before.has_key(k));
                    }
                }
            }
            m = m + 1;
        }
    }

    /// Whether some requirement is about a tag named `name`.
    pub open spec fn names_required(&self, name: Seq<char>) -> bool {
        exists|i: int|
            0 <= i < self.spec_required().keys().len() && (#[trigger] self.spec_required().keys()[i]).tag().spec_name() == name
    }

    /// Whether some requirement is about a tag named `name`.
    pub fn requires_tag_named(&self, name: &str) -> (r: bool)
        requires
            self.wf(),
        ensures
            r == self.names_required(name@),
    {
        let n = self.all_required_tags.len();
        let mut i: usize = 0;
        while i < n
            invariant
                self.wf(),
                n == self.spec_required().keys().len(),
                i <= n,
                forall|j: int| 0 <= j < i ==> (#[trigger] self.spec_required().keys()[j]).tag().spec_name() != name@,
            decreases n - i,
        {
            if text::str_eq(self.all_required_tags.key(i).name(), name) {
                return true;
            }
            i = i + 1;
        }
        false
    }

    /// The tags of a profile, looked up by lower-cased name.
    pub fn get_tags_for_profile(&self, profile: &str) -> (r: Result<TagSet, ApplyError>)
        requires
            self.wf(),
        ensures
            match r {
                Ok(ts) => self.spec_profiles().lookup(lc_key(profile@)) is Some && same_set(
                    ts,
                    self.spec_profiles().lookup(lc_key(profile@))->0,
                ) && ts.wf(),
                Err(ApplyError::ProfileNotFound(p)) => self.spec_profiles().lookup(lc_key(profile@)) is None
                    && p@ == text::lowercase(profile@),
                Err(_) => false,
            },
    {
        let lc = text::to_lowercase(profile);
        match self.all_profiles.get_str(lc.as_str()) {
            Some(tags) => {
                proof {
                    let i = self.spec_profiles().index_of(lc_key(profile@));
                    assert(self.spec_profiles().vals()[i].wf());
                }
                Ok(tags.dup_map())
            },
            None => Err(ApplyError::ProfileNotFound(lc)),
        }
    }
}


/// The views of a list of strings.
pub open spec fn views(v: Seq<String>) -> Seq<Seq<char>> {
    v.map_values(|s: String| s@)
}

impl GlobalConfig {
    /// The tags active for a run: the detected tags, the tags given on the
    /// command line (comma-separated, trimmed, empty pieces left out; each
    /// must be named by some requirement) and the tags of the profile named
    /// on the command line, or of `default` where none is named and it exists.
    /// The first command-line tag that no requirement names is refused.
    pub fn get_active_tags(&self, cli_tags: &Vec<String>, cli_profile: &Option<String>) -> (r: Result<TagSet, ConfigError>)
        requires
            self.wf(),
        ensures
            ({
                let ps = cli_pieces(views(cli_tags@));
                let pk = profile_key(match cli_profile { Some(p) => Some(p@), None => None });
                match r {
                    Ok(set) => {
                        &&& set.wf()
                        &&& forall|m: int| 0 <= m < ps.len() ==> self.names_required(text::lowercase(#[trigger] ps[m]))
                        &&& forall|k: Seq<u32>|
                            #![trigger set.has_key(k)]
                            set.has_key(k) == (self.spec_detected().has_key(k) || (exists|m: int|
                                0 <= m < ps.len() && k == tag_key(text::lowercase(#[trigger] ps[m]), None))
                                || (self.spec_profiles().lookup(pk) is Some && self.spec_profiles().lookup(pk)->0.has_key(k)))
                    },
                    Err(ConfigError::TagNotFound(t)) => exists|m: int|
                        0 <= m < ps.len() && ps[m] == t@ && !self.names_required(text::lowercase(t@))
                            && forall|mm: int| 0 <= mm < m ==> self.names_required(text::lowercase(#[trigger] ps[mm])),
                    Err(_) => false,
                }
            }),
    {
        let ghost tv = views(cli_tags@);
        let ghost ps = cli_pieces(tv);
        let mut active = self.all_detected_tags.dup_map();
        proof {
            active.lemma_same_keys(&self.all_detected_tags);
        }
        let ghost mut done: Seq<Seq<char>> = Seq::empty();
        let n = cli_tags.len();
        let mut i: usize = 0;
        while i < n
            invariant
                self.wf(),
                n == tv.len(),
                tv == views(cli_tags@),
                ps == cli_pieces(tv),
                i <= n,
                done == cli_pieces(tv.take(i as int)),
                active.wf(),
                forall|m: int| 0 <= m < done.len() ==> self.names_required(text::lowercase(#[trigger] done[m])),
                forall|k: Seq<u32>|
                    #![trigger active.has_key(k)]
                    active.has_key(k) == (self.spec_detected().has_key(k) || exists|m: int|
                        0 <= m < done.len() && k == tag_key(text::lowercase(#[trigger] done[m]), None)),
            decreases n - i,
        {
            let parts = text::split_char(cli_tags[i].as_str(), ',');
            let ghost pv = views(parts@);
            assert(pv == text::split(tv[i as int], ','));
            let ghost base = done;
            let np = parts.len();
            let mut j: usize = 0;
            while j < np
                invariant
                    self.wf(),
                    n == tv.len(),
                    tv == views(cli_tags@),
                    ps == cli_pieces(tv),
                    i < n,
                    np == pv.len(),
                    pv == views(parts@),
                    pv == text::split(tv[i as int], ','),
                    base == cli_pieces(tv.take(i as int)),
                    j <= np,
                    done == base + kept_pieces(pv.take(j as int)),
                    active.wf(),
                    forall|m: int| 0 <= m < done.len() ==> self.names_required(text::lowercase(#[trigger] done[m])),
                    forall|k: Seq<u32>|
                        #![trigger active.has_key(k)]
                        active.has_key(k) == (self.spec_detected().has_key(k) || exists|m: int|
                            0 <= m < done.len() && k == tag_key(text::lowercase(#[trigger] done[m]), None)),
                decreases np - j,
            {
                let t = text::trim_str(parts[j].as_str());
                assert(pv.take(j + 1).drop_last() =~= pv.take(j as int));
                assert(pv.take(j + 1).last() == pv[j as int]);
                if !t.as_str().is_empty() {
                    let cli_tag = Tag::new(t.as_str(), Source::CommandLine);
                    let known = self.requires_tag_named(cli_tag.name());
                    let ghost next = done.push(t@);
                    assert(next =~= base + kept_pieces(pv.take(j + 1)));
                    if !known {
                        proof {
                            lemma_kept_prefix(pv, j + 1);
                            lemma_prefix_append(base, kept_pieces(pv.take(j + 1)), kept_pieces(pv));
                            assert(tv.take(i + 1).drop_last() =~= tv.take(i as int));
                            assert(cli_pieces(tv.take(i + 1)) == base + kept_pieces(pv));
                            lemma_cli_prefix(tv, i + 1);
                            lemma_prefix_trans(next, base + kept_pieces(pv), ps);
                            assert(ps[done.len() as int] == next[done.len() as int]);
                            assert forall|mm: int| 0 <= mm < done.len() implies self.names_required(text::lowercase(#[trigger] ps[mm])) by {
                                assert(ps[mm] == next[mm]);
                                assert(next[mm] == done[mm]);
                            }
                        }
                        return Err(ConfigError::TagNotFound(t));
                    }
                    let ghost before = active;
                    active.insert(cli_tag, ());
                    proof {
                        let prev = done;
                        done = next;
                        assert(cli_tag.key() == tag_key(text::lowercase(t@), None));
                        assert forall|m: int| 0 <= m < done.len() implies self.names_required(text::lowercase(#[trigger] done[m])) by {
                            if m < prev.len() {
                                assert(done[m] == prev[m]);
                            }
                        }
                        assert forall|k: Seq<u32>| #![trigger active.has_key(k)] active.has_key(k) == (self.spec_detected().has_key(k) || exists|m: int|
                            0 <= m < done.len() && k == tag_key(text::lowercase(#[trigger] done[m]), None)) by {
                            if exists|m: int| 0 <= m < done.len() && k == tag_key(text::lowercase(#[trigger] done[m]), None) {
                                let m = choose|m: int| 0 <= m < done.len() && k == tag_key(text::lowercase(#[trigger] done[m]), None);
                                if m < prev.len() {
                                    assert(done[m] == prev[m]);
                                    assert(before.has_key(k));
                                }
                            }
                            if before.has_key(k) && !self.spec_detected().has_key(k) {
                                let m = choose|m: int| 0 <= m < prev.len() && k == tag_key(text::lowercase(#[trigger] prev[m]), None);
                                assert(done[m] == prev[m]);
                            }
                            if k == cli_tag.key() {
                                let m = prev.len() as int;
                                assert(done[m] == t@);
                                assert(k == tag_key(text::lowercase(done[m]), None));
                            }
                        }
                    }
                } else {
                    assert(done =~= base + kept_pieces(pv.take(j + 1)));
                }
                j = j + 1;
            }
            proof {
                assert(pv.take(np as int) =~= pv);
                assert(tv.take(i + 1).drop_last() =~= tv.take(i as int));
                assert(tv.take(i + 1).last() == tv[i as int]);
            }
            i = i + 1;
        }
        proof {
            assert(tv.take(n as int) =~= tv);
        }
        let default_name = text::owned(DEFAULT_PROFILE);
        let profile_name = match cli_profile {
            Some(p) => text::to_lowercase(p.as_str()),
            None => default_name,
        };
        let ghost pk = profile_key(match cli_profile { Some(p) => Some(p@), None => None });
        assert(text::chars_key(profile_name@) == pk);
        match self.all_profiles.get_str(profile_name.as_str()) {
            Some(profile_tags) => {
                proof {
                    let x = self.spec_profiles().index_of(pk);
                    assert(self.spec_profiles().vals()[x].wf());
                }
                extend_set(&mut active, profile_tags);
            },
            None => {},
        }
        Ok(active)
    }
}


/// Whether the `i`-th of `names` is the first that equals `p` when ASCII
/// case is ignored.
pub open spec fn first_match(names: Seq<String>, p: Seq<char>, i: int) -> bool {
    &&& 0 <= i < names.len()
    &&& text::eq_ignore_ascii_case(names[i]@, p)
    &&& forall|j: int| 0 <= j < i ==> !text::eq_ignore_ascii_case((#[trigger] names[j])@, p)
}

/// Whether some of `names` equals `p` when ASCII case is ignored.
pub open spec fn any_match(names: Seq<String>, p: Seq<char>) -> bool {
    exists|j: int| 0 <= j < names.len() && text::eq_ignore_ascii_case((#[trigger] names[j])@, p)
}

impl GlobalConfig {
    /// The position, in name order, of the first profile whose name equals
    /// `name` when ASCII case is ignored.
    fn find_profile(&self, name: &str) -> (r: Option<usize>)
        requires
            self.wf(),
        ensures
            match r {
                Some(i) => first_match(self.spec_profiles().keys(), name@, i as int),
                None => !any_match(self.spec_profiles().keys(), name@),
            },
    {
        let n = self.all_profiles.len();
        let mut i: usize = 0;
        while i < n
            invariant
                self.wf(),
                n == self.spec_profiles().keys().len(),
                i <= n,
                forall|j: int| 0 <= j < i ==> !text::eq_ignore_ascii_case((#[trigger] self.spec_profiles().keys()[j])@, name@),
            decreases n - i,
        {
            if text::eq_ignore_ascii_case_str(self.all_profiles.key(i).as_str(), name) {
                return Some(i);
            }
            i = i + 1;
        }
        None
    }

    /// The profile to apply, with its position in name order: the first whose
    /// name matches the one given (ASCII case ignored), refused where none
    /// does; where none is given, `default` if a profile has exactly that
    /// name, else none.
    pub fn get_profile(&self, cli_profile: &Option<String>) -> (r: Result<Option<(usize, String)>, ApplyError>)
        requires
            self.wf(),
        ensures
            ({
                let names = self.spec_profiles().keys();
                match cli_profile {
                    Some(p) => match r {
                        Ok(Some((i, name))) => first_match(names, p@, i as int) && name@ == names[i as int]@,
                        Err(ApplyError::ProfileNotFound(e)) => !any_match(names, p@) && e@ == p@,
                        _ => false,
                    },
                    None => match r {
                        Ok(Some((i, name))) => self.spec_profiles().has_key(text::chars_key("default"@))
                            && first_match(names, "default"@, i as int) && name@ == names[i as int]@,
                        Ok(None) => !self.spec_profiles().has_key(text::chars_key("default"@)),
                        _ => false,
                    },
                }
            }),
    {
        match cli_profile {
            Some(p) => match self.find_profile(p.as_str()) {
                Some(i) => Ok(Some((i, self.all_profiles.key(i).clone()))),
                None => Err(ApplyError::ProfileNotFound(p.clone())),
            },
            None => {
                if self.all_profiles.contains_str(DEFAULT_PROFILE) {
                    match self.find_profile(DEFAULT_PROFILE) {
                        Some(i) => Ok(Some((i, self.all_profiles.key(i).clone()))),
                        None => {
                            proof {
                                let x = self.spec_profiles().index_of(text::chars_key("default"@));
                                crate::tags::lemma_chars_key_injective(self.spec_profiles().keys()[x]@, "default"@);
                                assert(text::eq_ignore_ascii_case((self.spec_profiles().keys()[x])@, "default"@));
                            }
                            Ok(None)
                        },
                    }
                } else {
                    Ok(None)
                }
            },
        }
    }

    /// The file at the top of the hermit directory, looked up by the path
    /// `hermit_dir` joined with the configuration file name.
    pub fn root_config(&self) -> (r: Option<&HermitConfig>)
        requires
            self.wf(),
        ensures
            match r {
                Some(c) => self.spec_subconfigs().lookup(
                    text::chars_key(paths::join(self.spec_hermit_dir(), "hermit.toml"@)),
                ) == Some(*c),
                None => self.spec_subconfigs().lookup(
                    text::chars_key(paths::join(self.spec_hermit_dir(), "hermit.toml"@)),
                ) is None,
            },
    {
        let root_path = paths::join_path(self.hermit_dir.as_str(), CONF_FILE_NAME);
        self.subconfigs.get_str(root_path.as_str())
    }
}


/// The tables of a file whose keys must not repeat across files.
#[derive(Debug, Clone, Copy, PartialEq, Eq, Structural)]
pub enum KeyTable {
    Snippets,
    Detectors,
    Profiles,
}

/// The keys of a table of a file, in key order.
pub open spec fn table_keys(c: HermitConfig, t: KeyTable) -> Seq<String> {
    match t {
        KeyTable::Snippets => c.snippets.keys(),
        KeyTable::Detectors => c.detectors.keys(),
        KeyTable::Profiles => c.profiles.keys(),
    }
}

/// Whether the `j`-th key of table `t` of file `ci` repeats, lower-cased, a
/// key of that table in an earlier file or earlier in the same file.
pub open spec fn repeats(cs: Seq<HermitConfig>, t: KeyTable, ci: int, j: int) -> bool {
    exists|cj: int, jj: int|
        0 <= cj <= ci && 0 <= jj < table_keys(cs[cj], t).len() && (cj < ci || jj < j) && #[trigger] text::lowercase(
            table_keys(cs[cj], t)[jj]@,
        ) == text::lowercase(table_keys(cs[ci], t)[j]@)
}

/// How a repeated key is reported: a snippet or detector by its key as
/// written (`DuplicateSource`), a profile by its lower-cased name
/// (`DuplicateProfile`), each with the file's path.
pub open spec fn dup_report(t: KeyTable, key: Seq<char>, path: Seq<char>) -> (bool, Seq<char>, Seq<char>) {
    match t {
        KeyTable::Profiles => (true, text::lowercase(key), path),
        _ => (false, key, path),
    }
}

/// The reports of the repeated keys among the first `n` keys of table `t`
/// of file `ci`, in key order.
pub open spec fn table_dups(cs: Seq<HermitConfig>, t: KeyTable, ci: int, n: int) -> Seq<(bool, Seq<char>, Seq<char>)>
    decreases n,
{
    if n <= 0 {
        Seq::empty()
    } else {
        let rest = table_dups(cs, t, ci, n - 1);
        if repeats(cs, t, ci, n - 1) {
            rest.push(dup_report(t, table_keys(cs[ci], t)[n - 1]@, cs[ci].path@))
        } else {
            rest
        }
    }
}

/// The reports of repeated keys of the first `n` files: per file, its
/// snippets, then its detectors, then its profiles.
pub open spec fn repeated_keys(cs: Seq<HermitConfig>, n: int) -> Seq<(bool, Seq<char>, Seq<char>)>
    decreases n,
{
    if n <= 0 {
        Seq::empty()
    } else {
        let c = n - 1;
        repeated_keys(cs, n - 1) + table_dups(cs, KeyTable::Snippets, c, table_keys(cs[c], KeyTable::Snippets).len() as int)
            + table_dups(cs, KeyTable::Detectors, c, table_keys(cs[c], KeyTable::Detectors).len() as int) + table_dups(
            cs,
            KeyTable::Profiles,
            c,
            table_keys(cs[c], KeyTable::Profiles).len() as int,
        )
    }
}

/// A report of a repeated key as a plain triple (see `dup_report`); other
/// errors are not reports.
pub open spec fn report_view(e: ConfigError) -> (bool, Seq<char>, Seq<char>) {
    match e {
        ConfigError::DuplicateProfile(k, p) => (true, k@, p@),
        ConfigError::DuplicateSource(k, p) => (false, k@, p@),
        _ => (false, Seq::empty(), Seq::empty()),
    }
}

/// The views of reports.
pub open spec fn reports_view(v: Seq<ConfigError>) -> Seq<(bool, Seq<char>, Seq<char>)> {
    v.map_values(|e: ConfigError| report_view(e))
}

/// The number of keys of a table of a file.
fn table_len(c: &HermitConfig, t: KeyTable) -> (r: usize)
    requires
        c.wf(),
    ensures
        r == table_keys(*c, t).len(),
{
    match t {
        KeyTable::Snippets => c.snippets.len(),
        KeyTable::Detectors => c.detectors.len(),
        KeyTable::Profiles => c.profiles.len(),
    }
}

/// The `j`-th key of a table of a file.
fn table_key(c: &HermitConfig, t: KeyTable, j: usize) -> (r: &String)
    requires
        j < table_keys(*c, t).len(),
    ensures
        *r == table_keys(*c, t)[j as int],
{
    match t {
        KeyTable::Snippets => c.snippets.key(j),
        KeyTable::Detectors => c.detectors.key(j),
        KeyTable::Profiles => c.profiles.key(j),
    }
}

/// Whether the `j`-th key of table `t` of file `ci` repeats (see `repeats`).
fn is_repeat(cs: &Vec<HermitConfig>, t: KeyTable, ci: usize, j: usize) -> (r: bool)
    requires
        ci < cs@.len(),
        forall|i: int| 0 <= i < cs@.len() ==> (#[trigger] cs@[i]).wf(),
        j < table_keys(cs@[ci as int], t).len(),
    ensures
        r == repeats(cs@, t, ci as int, j as int),
{
    let lk = text::to_lowercase(table_key(&cs[ci], t, j).as_str());
    let mut cj: usize = 0;
    while cj <= ci
        invariant
            ci < cs.len(),
            forall|i: int| 0 <= i < cs@.len() ==> (#[trigger] cs@[i]).wf(),
            j < table_keys(cs@[ci as int], t).len(),
            cj <= ci + 1,
            lk@ == text::lowercase(table_keys(cs@[ci as int], t)[j as int]@),
            forall|a: int, b: int|
                0 <= a < cj && 0 <= b < table_keys(cs@[a], t).len() && (a < ci || b < j) ==> #[trigger] text::lowercase(
                    table_keys(cs@[a], t)[b]@,
                ) != lk@,
        decreases ci + 1 - cj,
    {
        let n = if cj < ci {
            table_len(&cs[cj], t)
        } else {
            j
        };
        let mut jj: usize = 0;
        while jj < n
            invariant
                ci < cs@.len(),
                cj <= ci,
                n <= table_keys(cs@[cj as int], t).len(),
                cj == ci ==> n == j,
                cj < ci ==> n == table_keys(cs@[cj as int], t).len(),
                lk@ == text::lowercase(table_keys(cs@[ci as int], t)[j as int]@),
                forall|b: int| 0 <= b < jj ==> #[trigger] text::lowercase(table_keys(cs@[cj as int], t)[b]@) != lk@,
            decreases n - jj,
        {
            let other = text::to_lowercase(table_key(&cs[cj], t, jj).as_str());
            if text::str_eq(other.as_str(), lk.as_str()) {
                return true;
            }
            jj = jj + 1;
        }
        cj = cj + 1;
    }
    false
}

/// The repeated keys of the files, which `GlobalConfig::from_paths` leaves
/// out (snippets, detectors) or lets replace earlier ones (profiles), as
/// they are reported (see `repeated_keys`).
pub fn duplicate_keys(configs: &Vec<HermitConfig>) -> (r: Vec<ConfigError>)
    requires
        forall|i: int| 0 <= i < configs@.len() ==> (#[trigger] configs@[i]).wf(),
    ensures
        reports_view(r@) == repeated_keys(configs@, configs@.len() as int),
{
    let mut r: Vec<ConfigError> = Vec::new();
    let mut ci: usize = 0;
    while ci < configs.len()
        invariant
            ci <= configs@.len(),
            forall|i: int| 0 <= i < configs@.len() ==> (#[trigger] configs@[i]).wf(),
            reports_view(r@) == repeated_keys(configs@, ci as int),
        decreases configs.len() - ci,
    {
        let ghost before = reports_view(r@);
        let tables = [KeyTable::Snippets, KeyTable::Detectors, KeyTable::Profiles];
        let mut ti: usize = 0;
        let ghost mut acc: Seq<(bool, Seq<char>, Seq<char>)> = before;
        while ti < 3
            invariant
                ci < configs@.len(),
                forall|i: int| 0 <= i < configs@.len() ==> (#[trigger] configs@[i]).wf(),
                ti <= 3,
                tables@ == seq![KeyTable::Snippets, KeyTable::Detectors, KeyTable::Profiles],
                reports_view(r@) == before + (if ti == 0 {
                    Seq::empty()
                } else if ti == 1 {
                    table_dups(configs@, KeyTable::Snippets, ci as int, table_keys(configs@[ci as int], KeyTable::Snippets).len() as int)
                } else if ti == 2 {
                    table_dups(configs@, KeyTable::Snippets, ci as int, table_keys(configs@[ci as int], KeyTable::Snippets).len() as int)
                        + table_dups(configs@, KeyTable::Detectors, ci as int, table_keys(configs@[ci as int], KeyTable::Detectors).len() as int)
                } else {
                    table_dups(configs@, KeyTable::Snippets, ci as int, table_keys(configs@[ci as int], KeyTable::Snippets).len() as int)
                        + table_dups(configs@, KeyTable::Detectors, ci as int, table_keys(configs@[ci as int], KeyTable::Detectors).len() as int)
                        + table_dups(configs@, KeyTable::Profiles, ci as int, table_keys(configs@[ci as int], KeyTable::Profiles).len() as int)
                }),
            decreases 3 - ti,
        {
            let t = tables[ti];
            let ghost base = reports_view(r@);
            let n = table_len(&configs[ci], t);
            let mut j: usize = 0;
            while j < n
                invariant
                    ci < configs@.len(),
                    forall|i: int| 0 <= i < configs@.len() ==> (#[trigger] configs@[i]).wf(),
                    n == table_keys(configs@[ci as int], t).len(),
                    j <= n,
                    reports_view(r@) == base + table_dups(configs@, t, ci as int, j as int),
                decreases n - j,
            {
                if is_repeat(configs, t, ci, j) {
                    let key = table_key(&configs[ci], t, j);
                    let e = match t {
                        KeyTable::Profiles => ConfigError::DuplicateProfile(text::to_lowercase(key.as_str()), configs[ci].path.clone()),
                        _ => ConfigError::DuplicateSource(key.clone(), configs[ci].path.clone()),
                    };
                    let ghost pre = r@;
                    r.push(e);
                    proof {
                        assert(reports_view(r@) =~= reports_view(pre).push(report_view(e)));
                        assert(report_view(e) == dup_report(t, table_keys(configs@[ci as int], t)[j as int]@, configs@[ci as int].path@));
                    }
                }
                j = j + 1;
            }
            proof {
                assert(base + table_dups(configs@, t, ci as int, n as int) =~= base + table_dups(configs@, t, ci as int, n as int));
            }
            ti = ti + 1;
        }
        proof {
            assert(repeated_keys(configs@, ci + 1) =~= before + table_dups(configs@, KeyTable::Snippets, ci as int, table_keys(configs@[ci as int], KeyTable::Snippets).len() as int)
                + table_dups(configs@, KeyTable::Detectors, ci as int, table_keys(configs@[ci as int], KeyTable::Detectors).len() as int)
                + table_dups(configs@, KeyTable::Profiles, ci as int, table_keys(configs@[ci as int], KeyTable::Profiles).len() as int));
        }
        ci = ci + 1;
    }
    r
}

} // verus!
