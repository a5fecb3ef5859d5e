//! Detection of tags: the built-in ones from facts about the machine, the
//! configured ones from the outcome of their scripts.
use crate::config::{DetectorConfig, GlobalConfig};
use crate::sorted::{Keyed, SortedMap};
use crate::tags::{Source, Tag, TagSet, tag_key};
use crate::text;
use vstd::prelude::*;

verus! {

/// Facts about the machine that built-in tags are made of.
#[derive(Debug)]
pub struct MachineInfo {
    pub user: String,
    pub hostname: Option<String>,
    pub os_family: String,
    pub os: String,
    pub arch: String,
    pub os_version: String,
    pub os_edition: Option<String>,
    pub os_codename: Option<String>,
    pub bitness: Option<u32>,
}

/// The common name of an architecture: `arm64` for `aarch64`, `amd64` for
/// `x86_64`, `armhf` for `armv7`, any other as it is.
pub open spec fn arch_alias_of(arch: Seq<char>) -> Seq<char> {
    if arch == "aarch64"@ {
        "arm64"@
    } else if arch == "x86_64"@ {
        "amd64"@
    } else if arch == "armv7"@ {
        "armhf"@
    } else {
        arch
    }
}

/// The common name of an architecture.
pub fn get_arch_alias(arch: &str) -> (r: String)
    ensures
        r@ == arch_alias_of(arch@),
{
    if text::str_eq(arch, "aarch64") {
        text::owned("arm64")
    } else if text::str_eq(arch, "x86_64") {
        text::owned("amd64")
    } else if text::str_eq(arch, "armv7") {
        text::owned("armhf")
    } else {
        text::owned(arch)
    }
}

/// The built-in tags of a machine, as name and value (names as given, to be
/// lower-cased): user, host name where known, OS family, OS, architecture
/// and its common name, OS version, edition and code name where known, and
/// the bitness where it is 32 or 64.
pub open spec fn builtin_pairs(m: MachineInfo) -> Seq<(Seq<char>, Seq<char>)> {
    seq![("user"@, m.user@)] + match m.hostname {
        Some(h) => seq![("hostname"@, h@)],
        None => Seq::empty(),
    } + seq![
        ("os_family"@, m.os_family@),
        ("os"@, m.os@),
        ("arch"@, m.arch@),
        ("arch_alias"@, arch_alias_of(m.arch@)),
        ("os_version"@, m.os_version@),
    ] + match m.os_edition {
        Some(e) => seq![("os_edition"@, e@)],
        None => Seq::empty(),
    } + match m.os_codename {
        Some(c) => seq![("os_codename"@, c@)],
        None => Seq::empty(),
    } + match m.bitness {
        Some(b) => if b == 32 {
            seq![("os_bitness"@, "32"@)]
        } else if b == 64 {
            seq![("os_bitness"@, "64"@)]
        } else {
            Seq::empty()
        },
        None => Seq::empty(),
    }
}

/// Adds the built-in tag `name=value`.
fn add_builtin(tags: &mut TagSet, name: &str, value: &str)
    requires
        old(tags).wf(),
    ensures
        final(tags).wf(),
        forall|k: Seq<u32>|
            #![trigger final(tags).has_key(k)]
            final(tags).has_key(k) == (old(tags).has_key(k) || k == tag_key(text::lowercase(name@), Some(value@))),
        forall|k: Seq<u32>|
            #![trigger final(tags).key_obj(k)]
            final(tags).has_key(k) ==> (if old(tags).has_key(k) {
                final(tags).key_obj(k) == old(tags).key_obj(k)
            } else {
                final(tags).key_obj(k).spec_source() == Source::BuiltInDetector
            }),
{
    let t = Tag::new_with_value(name, value, Source::BuiltInDetector);
    tags.insert(t, ());
}

/// The built-in tags of a machine (see `builtin_pairs`); their source is
/// the built-in detector.
pub fn builtin_tags(m: &MachineInfo) -> (r: TagSet)
    ensures
        r.wf(),
        forall|k: Seq<u32>|
            #![trigger r.has_key(k)]
            r.has_key(k) == exists|i: int|
                0 <= i < builtin_pairs(*m).len() && k == tag_key(
                    text::lowercase((#[trigger] builtin_pairs(*m)[i]).0),
                    Some(builtin_pairs(*m)[i].1),
                ),
        forall|k: Seq<u32>| #[trigger] r.has_key(k) ==> r.key_obj(k).spec_source() == Source::BuiltInDetector,
{
    let mut pairs: Vec<(String, String)> = Vec::new();
    pairs.push((text::owned("user"), m.user.clone()));
    match &m.hostname {
        Some(h) => pairs.push((text::owned("hostname"), h.clone())),
        None => {},
    }
    pairs.push((text::owned("os_family"), m.os_family.clone()));
    pairs.push((text::owned("os"), m.os.clone()));
    pairs.push((text::owned("arch"), m.arch.clone()));
    pairs.push((text::owned("arch_alias"), get_arch_alias(m.arch.as_str())));
    pairs.push((text::owned("os_version"), m.os_version.clone()));
    match &m.os_edition {
        Some(e) => pairs.push((text::owned("os_edition"), e.clone())),
        None => {},
    }
    match &m.os_codename {
        Some(c) => pairs.push((text::owned("os_codename"), c.clone())),
        None => {},
    }
    match m.bitness {
        Some(b) => {
            if b == 32 {
                pairs.push((text::owned("os_bitness"), text::owned("32")));
            } else if b == 64 {
                pairs.push((text::owned("os_bitness"), text::owned("64")));
            }
        },
        None => {},
    }
    let ghost pv = pairs@.map_values(|p: (String, String)| (p.0@, p.1@));
    assert(pv =~= builtin_pairs(*m));
    let mut tags: TagSet = SortedMap::new();
    let mut i: usize = 0;
    while i < pairs.len()
        invariant
            pv == pairs@.map_values(|p: (String, String)| (p.0@, p.1@)),
            i <= pairs.len(),
            tags.wf(),
            forall|k: Seq<u32>|
                #![trigger tags.has_key(k)]
                tags.has_key(k) == exists|j: int|
                    0 <= j < i && k == tag_key(text::lowercase((#[trigger] pv[j]).0), Some(pv[j].1)),
            forall|k: Seq<u32>| #[trigger] tags.has_key(k) ==> tags.key_obj(k).spec_source() == Source::BuiltInDetector,
        decreases pairs.len() - i,
    {
        let ghost before = tags;
        assert(pv[i as int] == (pairs@[i as int].0@, pairs@[i as int].1@));
        add_builtin(&mut tags, pairs[i].0.as_str(), pairs[i].1.as_str());
        assert forall|k: Seq<u32>| #![trigger tags.has_key(k)] tags.has_key(k) == exists|j: int|
            0 <= j < i + 1 && k == tag_key(text::lowercase((#[trigger] pv[j]).0), Some(pv[j].1)) by {
            if exists|j: int| 0 <= j < i + 1 && k == tag_key(text::lowercase((#[trigger] pv[j]).0), Some(pv[j].1)) {
                let j = choose|j: int| 0 <= j < i + 1 && k == tag_key(text::lowercase((#[trigger] pv[j]).0), Some(pv[j].1));
                if j < i {
                    assert(before.has_key(k));
                }
            }
            if k == tag_key(text::lowercase(pv[i as int].0), Some(pv[i as int].1)) {
                assert(0 <= i < i + 1);
            }
        }
        i = i + 1;
    }
    tags
}

/// What running a detector's script gave: whether it succeeded, its exit
/// code where it has one, and what it wrote (as text).
#[derive(Debug)]
pub struct ScriptOutcome {
    pub success: bool,
    pub code: Option<i32>,
    pub stdout: String,
}

/// The script of a detector.
pub fn detector_script(config: &DetectorConfig) -> (r: &String)
    ensures
        *r == match config {
            DetectorConfig::EnableIf { enable_if } => enable_if,
            DetectorConfig::EnableIfNot { enable_if_not } => enable_if_not,
            DetectorConfig::ValueOf { value_of } => value_of,
        },
{
    match config {
        DetectorConfig::EnableIf { enable_if } => enable_if,
        DetectorConfig::EnableIfNot { enable_if_not } => enable_if_not,
        DetectorConfig::ValueOf { value_of } => value_of,
    }
}

/// The tag a detector yields for the outcome of its script, as name and
/// value (the name to be lower-cased): `enable_if` yields its name where the
/// script succeeds; `enable_if_not` where it ends with an exit code other
/// than zero; `value_of` yields its name with what the script wrote, trimmed,
/// where it succeeds.
pub open spec fn detected(name: Seq<char>, config: DetectorConfig, outcome: ScriptOutcome) -> Option<
    (Seq<char>, Option<Seq<char>>),
> {
    match config {
        DetectorConfig::EnableIf { .. } => if outcome.success {
            Some((name, None))
        } else {
            None
        },
        DetectorConfig::EnableIfNot { .. } => if outcome.code matches Some(c) && c != 0 {
            Some((name, None))
        } else {
            None
        },
        DetectorConfig::ValueOf { .. } => if outcome.success {
            Some((name, Some(text::trim(outcome.stdout@))))
        } else {
            None
        },
    }
}

/// Name, value and (for a detector's tag) the detector's name of a tag.
pub open spec fn detected_view(t: Tag) -> (Seq<char>, Option<Seq<char>>, Option<Seq<char>>) {
    (t.spec_name(), t.spec_value(), match t.spec_source() {
        Source::Detector(d) => Some(d@),
        _ => None,
    })
}

/// What a detector named `name` yields for an outcome, as `detected_view`
/// shows it.
pub open spec fn detected_tag_view(name: Seq<char>, config: DetectorConfig, outcome: ScriptOutcome) -> Option<
    (Seq<char>, Option<Seq<char>>, Option<Seq<char>>),
> {
    match detected(name, config, outcome) {
        Some((n, v)) => Some((text::lowercase(n), v, Some(name))),
        None => None,
    }
}

/// What the first `n` detectors yield, in their order.
pub open spec fn detected_tags(
    detectors: SortedMap<String, DetectorConfig>,
    outcomes: Seq<ScriptOutcome>,
    n: int,
) -> Seq<(Seq<char>, Option<Seq<char>>, Option<Seq<char>>)>
    decreases n,
{
    if n <= 0 {
        Seq::empty()
    } else {
        let rest = detected_tags(detectors, outcomes, n - 1);
        match detected_tag_view(detectors.keys()[n - 1]@, detectors.vals()[n - 1], outcomes[n - 1]) {
            Some(t) => rest.push(t),
            None => rest,
        }
    }
}

/// The tag a detector yields (see `detected`), its source the detector.
pub fn create_detected_tag(name: &str, config: &DetectorConfig, outcome: &ScriptOutcome) -> (r: Option<Tag>)
    ensures
        match r {
            Some(t) => detected_tag_view(name@, *config, *outcome) == Some(detected_view(t)),
            None => detected_tag_view(name@, *config, *outcome) is None,
        },
{
    match config {
        DetectorConfig::EnableIf { .. } => {
            if outcome.success {
                Some(Tag::new(name, Source::Detector(text::owned(name))))
            } else {
                None
            }
        },
        DetectorConfig::EnableIfNot { .. } => {
            match outcome.code {
                Some(c) => {
                    if c != 0 {
                        Some(Tag::new(name, Source::Detector(text::owned(name))))
                    } else {
                        None
                    }
                },
                None => None,
            }
        },
        DetectorConfig::ValueOf { .. } => {
            if outcome.success {
                let v = text::trim_str(outcome.stdout.as_str());
                Some(Tag::new_with_value(name, v.as_str(), Source::Detector(text::owned(name))))
            } else {
                None
            }
        },
    }
}

/// The tags the configured detectors yield, in the order of the detectors,
/// given the outcome of each one's script in that order.
pub fn get_detected_tags(config: &GlobalConfig, outcomes: &Vec<ScriptOutcome>) -> (r: Vec<Tag>)
    requires
        config.wf(),
        outcomes@.len() == config.spec_detectors().keys().len(),
    ensures
        r@.map_values(|t: Tag| detected_view(t)) == detected_tags(
            config.spec_detectors(),
            outcomes@,
            outcomes@.len() as int,
        ),
{
    let detectors = config.all_detectors();
    let n = detectors.len();
    let mut r: Vec<Tag> = Vec::new();
    let mut i: usize = 0;
    while i < n
        invariant
            config.wf(),
            *detectors == config.spec_detectors(),
            n == detectors.keys().len(),
            outcomes@.len() == n,
            i <= n,
            r@.map_values(|t: Tag| detected_view(t)) == detected_tags(config.spec_detectors(), outcomes@, i as int),
        decreases n - i,
    {
        let name = detectors.key(i);
        let cfg = detectors.val(i);
        let ghost pre = r@;
        match create_detected_tag(name.as_str(), cfg, &outcomes[i]) {
            Some(t) => {
                r.push(t);
                assert(r@.map_values(|t: Tag| detected_view(t)) =~= pre.map_values(|t: Tag| detected_view(t)).push(
                    detected_view(t),
                ));
            },
            None => {},
        }
        i = i + 1;
    }
    r
}

} // verus!
