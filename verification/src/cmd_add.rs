//! Adding entries to the configuration: where they go and what they hold.
use crate::config::CONF_FILE_NAME;
use crate::errors::AddError;
use crate::file_ops::{file_name, path_file_name};
use crate::paths;
use crate::sorted::{SortedMap, lex_lt};
use crate::tags::Tag;
use crate::text;
use vstd::prelude::*;

verus! {

/// A directory given for a configuration file: as it is where absolute,
/// else under the hermit directory.
pub open spec fn config_dir_of(dir: Seq<char>, hermit_dir: Seq<char>) -> Seq<char> {
    if paths::is_absolute(dir) {
        dir
    } else {
        paths::join(hermit_dir, dir)
    }
}

/// The directory a configuration file is put in for a given directory.
pub fn resolve_config_dir(dir: &str, hermit_dir: &str) -> (r: String)
    ensures
        r@ == config_dir_of(dir@, hermit_dir@),
{
    if paths::path_is_absolute(dir) {
        text::owned(dir)
    } else {
        paths::join_path(hermit_dir, dir)
    }
}

/// What `Path::ends_with` gives for a path and a relative path: whether the
/// last components of the first are those of the second.
pub uninterp spec fn ends_with_path(path: Seq<char>, child: Seq<char>) -> bool;

/// `Path::ends_with` on string paths.
#[verifier::external_body]
fn path_ends_with(path: &str, child: &str) -> (r: bool)
    ensures
        r == ends_with_path(path@, child@),
{
    std::path::Path::new(path).ends_with(child)
}

/// The directory of a new configuration file: the given path, or its parent
/// where it names the configuration file itself (a path that ends with it
/// always has one), placed under the hermit directory where relative.
pub open spec fn new_config_dir_of(dir: Seq<char>, hermit_dir: Seq<char>) -> Seq<char> {
    let d = if ends_with_path(dir, "hermit.toml"@) {
        match paths::parent(dir) {
            Some(p) => p,
            None => dir,
        }
    } else {
        dir
    };
    config_dir_of(d, hermit_dir)
}

/// The directory of a new configuration file (see `new_config_dir_of`).
pub fn new_config_dir(dir: &str, hermit_dir: &str) -> (r: String)
    ensures
        r@ == new_config_dir_of(dir@, hermit_dir@),
{
    let d = if path_ends_with(dir, CONF_FILE_NAME) {
        match paths::parent_path(dir) {
            Some(p) => p,
            None => text::owned(dir),
        }
    } else {
        text::owned(dir)
    };
    resolve_config_dir(d.as_str(), hermit_dir)
}

/// The target of a new entry: the given target, or else the source, taken
/// relative to the home directory where it lies inside (a source outside
/// it is refused); a relative target is placed under `~`.
pub open spec fn target_of(source: Seq<char>, target: Option<Seq<char>>, home: Seq<char>) -> Option<Seq<char>> {
    let t = match target {
        Some(t) => Some(
            match paths::strip_prefix(t, home) {
                Some(r) => r,
                None => t,
            },
        ),
        None => paths::strip_prefix(source, home),
    };
    match t {
        Some(t) => Some(
            if paths::is_absolute(t) {
                t
            } else {
                paths::join("~"@, t)
            },
        ),
        None => None,
    }
}

/// The target of a new entry (see `target_of`).
pub fn normalize_target(source: &str, target: &Option<String>, home: &str) -> (r: Result<String, AddError>)
    ensures
        match r {
            Ok(t) => target_of(source@, crate::tags::opt_view(*target), home@) == Some(t@),
            Err(e) => target_of(source@, crate::tags::opt_view(*target), home@) is None && e is StripPrefix,
        },
{
    let t = match target {
        Some(t) => match paths::strip_path_prefix(t.as_str(), home) {
            Some(r) => r,
            None => t.clone(),
        },
        None => match paths::strip_path_prefix(source, home) {
            Some(r) => r,
            None => {
                return Err(AddError::StripPrefix);
            },
        },
    };
    if paths::path_is_absolute(t.as_str()) {
        Ok(t)
    } else {
        Ok(paths::join_path("~", t.as_str()))
    }
}

/// The file name of a source, which names the copy kept in the configuration.
pub fn source_file_name(source: &str) -> (r: Result<String, AddError>)
    ensures
        match r {
            Ok(n) => file_name(source@) == Some(n@),
            Err(e) => file_name(source@) is None && e is FileName,
        },
{
    match path_file_name(source) {
        Some(n) => Ok(n),
        None => Err(AddError::FileName),
    }
}

/// What `Path`'s equality gives for two paths: whether their components agree.
pub uninterp spec fn same_path(a: Seq<char>, b: Seq<char>) -> bool;

/// `Path` equality on string paths.
#[verifier::external_body]
fn paths_equal(a: &str, b: &str) -> (r: bool)
    ensures
        r == same_path(a@, b@),
{
    std::path::Path::new(a) == std::path::Path::new(b)
}

/// Whether an entry with this source and target is among the existing
/// entries (those whose source or target is not text are passed over).
pub open spec fn has_entry(existing: Seq<(Option<Seq<char>>, Option<Seq<char>>)>, source: Seq<char>, target: Seq<char>) -> bool {
    exists|i: int| 0 <= i < existing.len() && entry_matches(#[trigger] existing[i], source, target)
}

/// Whether an entry has this source and target.
pub open spec fn entry_matches(e: (Option<Seq<char>>, Option<Seq<char>>), source: Seq<char>, target: Seq<char>) -> bool {
    match e {
        (Some(s), Some(t)) => same_path(s, source) && same_path(t, target),
        _ => false,
    }
}

/// Sources and targets of entries as plain text.
pub open spec fn entry_views(v: Seq<(Option<String>, Option<String>)>) -> Seq<(Option<Seq<char>>, Option<Seq<char>>)> {
    v.map_values(|e: (Option<String>, Option<String>)| (crate::tags::opt_view(e.0), crate::tags::opt_view(e.1)))
}

/// Whether an entry with this source and target already exists (see `has_entry`).
pub fn find_entry(existing: &Vec<(Option<String>, Option<String>)>, source: &str, target: &str) -> (r: bool)
    ensures
        r == has_entry(
            entry_views(existing@),
            source@,
            target@,
        ),
{
    let ghost ev = entry_views(existing@);
    let mut i: usize = 0;
    while i < existing.len()
        invariant
            ev == entry_views(existing@),
            i <= existing.len(),
            forall|j: int| 0 <= j < i ==> !entry_matches(#[trigger] ev[j], source@, target@),
        decreases existing.len() - i,
    {
        assert(ev[i as int] == (crate::tags::opt_view(existing@[i as int].0), crate::tags::opt_view(existing@[i as int].1)));
        match (&existing[i].0, &existing[i].1) {
            (Some(s), Some(t)) => {
                if paths_equal(s.as_str(), source) && paths_equal(t.as_str(), target) {
                    return true;
                }
            },
            _ => {},
        }
        i = i + 1;
    }
    false
}

/// The views of optional strings.
pub open spec fn opt_views(s: Seq<Option<String>>) -> Seq<Option<Seq<char>>> {
    s.map_values(|e: Option<String>| crate::tags::opt_view(e))
}

/// Whether `n` is one of the strings.
pub open spec fn in_list(names: Seq<String>, n: Seq<char>) -> bool {
    exists|i: int| 0 <= i < names.len() && (#[trigger] names[i])@ == n
}

/// Whether `n` is one of the texts.
pub open spec fn among(existing: Seq<Option<Seq<char>>>, n: Seq<char>) -> bool {
    exists|i: int| 0 <= i < existing.len() && #[trigger] existing[i] == Some(n)
}

/// Whether some tag is named `n`.
pub open spec fn named(tags: Seq<Tag>, n: Seq<char>) -> bool {
    exists|i: int| 0 <= i < tags.len() && (#[trigger] tags[i]).spec_name() == n
}

/// The position of the first entry of a profile that is not text.
pub open spec fn first_non_text(existing: Seq<Option<Seq<char>>>, i: int) -> bool {
    &&& 0 <= i < existing.len()
    &&& existing[i] is None
    &&& forall|j: int| 0 <= j < i ==> (#[trigger] existing[j]) is Some
}

/// The tag names to append to a profile: the names of `tags` not yet in it,
/// each once, in name order. Refused, with its position, where an entry of
/// the profile is not text.
pub fn profile_additions(existing: &Vec<Option<String>>, tags: &Vec<Tag>) -> (r: Result<Vec<String>, usize>)
    ensures
        ({
            let ev = opt_views(existing@);
            match r {
                Ok(names) => {
                    &&& forall|i: int| 0 <= i < ev.len() ==> (#[trigger] ev[i]) is Some
                    &&& forall|i: int, j: int|
                        0 <= i < j < names@.len() ==> lex_lt(
                            text::chars_key((#[trigger] names@[i])@),
                            text::chars_key((#[trigger] names@[j])@),
                        )
                    &&& forall|n: Seq<char>| #[trigger] in_list(names@, n) == (named(tags@, n) && !among(ev, n))
                },
                Err(i) => first_non_text(ev, i as int),
            }
        }),
{
    let ghost ev = opt_views(existing@);
    let mut k: usize = 0;
    while k < existing.len()
        invariant
            ev == opt_views(existing@),
            k <= existing.len(),
            forall|j: int| 0 <= j < k ==> (#[trigger] ev[j]) is Some,
        decreases existing.len() - k,
    {
        assert(ev[k as int] == crate::tags::opt_view(existing@[k as int]));
        if existing[k].is_none() {
            return Err(k);
        }
        k = k + 1;
    }
    let mut set: SortedMap<String, ()> = SortedMap::new();
    let mut i: usize = 0;
    while i < tags.len()
        invariant
            ev == opt_views(existing@),
            forall|j: int| 0 <= j < ev.len() ==> (#[trigger] ev[j]) is Some,
            i <= tags.len(),
            set.wf(),
            forall|kk: Seq<u32>|
                #![trigger set.has_key(kk)]
                set.has_key(kk) == exists|j: int|
                    0 <= j < i && kk == text::chars_key((#[trigger] tags@[j]).spec_name()) && !among(
                        ev,
                        tags@[j].spec_name(),
                    ),
        decreases tags.len() - i,
    {
        let name = tags[i].name();
        let mut present = false;
        let mut e: usize = 0;
        while e < existing.len()
            invariant
                ev == opt_views(existing@),
                e <= existing.len(),
                !present ==> forall|j: int| 0 <= j < e ==> #[trigger] ev[j] != Some(name@),
                present ==> among(ev, name@),
            decreases existing.len() - e,
        {
            assert(ev[e as int] == crate::tags::opt_view(existing@[e as int]));
            match &existing[e] {
                Some(s) => {
                    if text::str_eq(s.as_str(), name) {
                        present = true;
                    }
                },
                None => {},
            }
            e = e + 1;
        }
        let ghost before = set;
        if !present {
            set.insert(text::owned(name), ());
        }
        assert forall|kk: Seq<u32>| #![trigger set.has_key(kk)] set.has_key(kk) == exists|j: int|
            0 <= j < i + 1 && kk == text::chars_key((#[trigger] tags@[j]).spec_name()) && !among(
                ev,
                tags@[j].spec_name(),
            ) by {
            if exists|j: int|
                0 <= j < i + 1 && kk == text::chars_key((#[trigger] tags@[j]).spec_name()) && !among(
                    ev,
                    tags@[j].spec_name(),
                ) {
                let j = choose|j: int|
                    0 <= j < i + 1 && kk == text::chars_key((#[trigger] tags@[j]).spec_name()) && !among(
                        ev,
                        tags@[j].spec_name(),
                    );
                if j < i {
                    assert(before.has_key(kk));
                } else {
                    assert(!present);
                }
            }
            if !present && kk == text::chars_key(name@) {
                assert(tags@[i as int].spec_name() == name@);
            }
        }
        i = i + 1;
    }
    let n = set.len();
    let mut names: Vec<String> = Vec::new();
    let mut j: usize = 0;
    while j < n
        invariant
            set.wf(),
            n == set.keys().len(),
            j <= n,
            names@.len() == j,
            forall|x: int| 0 <= x < j ==> #[trigger] names@[x] == set.keys()[x],
        decreases n - j,
    {
        names.push(set.key(j).clone());
        j = j + 1;
    }
    proof {
        assert forall|a: int, b: int| 0 <= a < b < names@.len() implies lex_lt(
            text::chars_key((#[trigger] names@[a])@),
            text::chars_key((#[trigger] names@[b])@),
        ) by {
            assert(names@[a] == set.keys()[a] && names@[b] == set.keys()[b]);
            assert(lex_lt(set.key_at(a), set.key_at(b)));
        }
        assert forall|nn: Seq<char>| #[trigger] in_list(names@, nn) == (named(tags@, nn) && !among(ev, nn)) by {
            if in_list(names@, nn) {
                let x = choose|x: int| 0 <= x < names@.len() && (#[trigger] names@[x])@ == nn;
                assert(names@[x] == set.keys()[x]);
                assert(set.has_key(set.key_at(x)));
                let jj = choose|jj: int|
                    0 <= jj < tags@.len() && set.key_at(x) == text::chars_key((#[trigger] tags@[jj]).spec_name())
                        && !among(ev, tags@[jj].spec_name());
                assert(set.key_at(x) == text::chars_key(nn));
                crate::tags::lemma_chars_key_injective(nn, tags@[jj].spec_name());
                assert(tags@[jj].spec_name() == nn);
                assert(named(tags@, nn));
                assert(!among(ev, nn));
            }
            if named(tags@, nn) && !among(ev, nn) {
                let jj = choose|jj: int| 0 <= jj < tags@.len() && (#[trigger] tags@[jj]).spec_name() == nn;
                assert(set.has_key(text::chars_key(nn)));
                let x = set.index_of(text::chars_key(nn));
                assert(names@[x] == set.keys()[x]);
                crate::tags::lemma_chars_key_injective(names@[x]@, nn);
            }
        }
        assert(forall|x: int| 0 <= x < ev.len() ==> (#[trigger] ev[x]) is Some);
    }
    Ok(names)
}


/// The two configuration files offered for a new entry: one in a
/// directory named after the source's own directory (or the source itself
/// where it is a directory), and one mirroring the source's place under
/// the home directory; each also shown relative to the hermit directory.
#[derive(Debug)]
pub struct ConfigDirChoices {
    pub simple_file: String,
    pub simple_shown: String,
    pub deep_file: String,
    pub deep_shown: String,
}

/// A path relative to `base` where it lies inside, else the path.
pub open spec fn shown_under(path: Seq<char>, base: Seq<char>) -> Seq<char> {
    match paths::strip_prefix(path, base) {
        Some(p) => p,
        None => path,
    }
}

/// The name of the directory a source belongs to: its own where it is a
/// directory, else its parent's; empty where there is none.
pub open spec fn last_segment(source: Seq<char>, is_dir: bool) -> Seq<char> {
    let n = if is_dir {
        file_name(source)
    } else {
        match paths::parent(source) {
            Some(p) => file_name(p),
            None => None,
        }
    };
    match n {
        Some(n) => n,
        None => Seq::empty(),
    }
}

/// The deep configuration file for a source (see `ConfigDirChoices`).
pub open spec fn deep_file_of(source: Seq<char>, home: Seq<char>, hermit_dir: Seq<char>) -> Seq<char> {
    let rel = shown_under(source, home);
    let dir = match paths::parent(rel) {
        Some(p) => p,
        None => rel,
    };
    paths::join(paths::join(hermit_dir, dir), "hermit.toml"@)
}

/// The simple configuration file for a source (see `ConfigDirChoices`).
pub open spec fn simple_file_of(source: Seq<char>, is_dir: bool, hermit_dir: Seq<char>) -> Seq<char> {
    paths::join(paths::join(hermit_dir, last_segment(source, is_dir)), "hermit.toml"@)
}

/// The configuration files offered for a new entry whose source (made
/// absolute) is `source`.
pub fn config_dir_choices(source: &str, is_dir: bool, home: &str, hermit_dir: &str) -> (r: ConfigDirChoices)
    ensures
        r.simple_file@ == simple_file_of(source@, is_dir, hermit_dir@),
        r.simple_shown@ == shown_under(r.simple_file@, hermit_dir@),
        r.deep_file@ == deep_file_of(source@, home@, hermit_dir@),
        r.deep_shown@ == shown_under(r.deep_file@, hermit_dir@),
{
    let rel = match paths::strip_path_prefix(source, home) {
        Some(p) => p,
        None => text::owned(source),
    };
    let segment = if is_dir {
        path_file_name(source)
    } else {
        match paths::parent_path(source) {
            Some(p) => path_file_name(p.as_str()),
            None => None,
        }
    };
    let last = match segment {
        Some(n) => n,
        None => String::new(),
    };
    let deep_dir = match paths::parent_path(rel.as_str()) {
        Some(p) => p,
        None => rel,
    };
    let deep_file = paths::join_path(paths::join_path(hermit_dir, deep_dir.as_str()).as_str(), CONF_FILE_NAME);
    let simple_file = paths::join_path(paths::join_path(hermit_dir, last.as_str()).as_str(), CONF_FILE_NAME);
    let deep_shown = match paths::strip_path_prefix(deep_file.as_str(), hermit_dir) {
        Some(p) => p,
        None => deep_file.clone(),
    };
    let simple_shown = match paths::strip_path_prefix(simple_file.as_str(), hermit_dir) {
        Some(p) => p,
        None => simple_file.clone(),
    };
    ConfigDirChoices { simple_file, simple_shown, deep_file, deep_shown }
}

/// The directory of a configuration file path (the path itself where it has
/// no parent, which a joined file path always has).
pub open spec fn dir_of(file: Seq<char>) -> Seq<char> {
    match paths::parent(file) {
        Some(p) => p,
        None => file,
    }
}

/// The directory picked by the answer to the offer: `1` the simple one,
/// `2` the deep one, `3` one to be asked for (none here), `4` the hermit
/// directory; any other answer is refused.
pub fn choose_config_dir(choice: &str, choices: &ConfigDirChoices, hermit_dir: &str) -> (r: Result<Option<String>, AddError>)
    ensures
        match r {
            Ok(Some(d)) => (choice@ == "1"@ && d@ == dir_of(choices.simple_file@)) || (choice@ == "2"@ && d@ == dir_of(
                choices.deep_file@,
            )) || (choice@ == "4"@ && d@ == hermit_dir@),
            Ok(None) => choice@ == "3"@,
            Err(e) => e is InvalidChoice && choice@ != "1"@ && choice@ != "2"@ && choice@ != "3"@ && choice@ != "4"@,
        },
{
    proof {
        reveal_strlit("1");
        reveal_strlit("2");
        reveal_strlit("3");
        reveal_strlit("4");
    }
    let dir_of_file = |f: &String| -> (d: String)
        ensures
            d@ == dir_of(f@),
        {
            match paths::parent_path(f.as_str()) {
                Some(p) => p,
                None => f.clone(),
            }
        };
    if text::str_eq(choice, "1") {
        Ok(Some(dir_of_file(&choices.simple_file)))
    } else if text::str_eq(choice, "2") {
        Ok(Some(dir_of_file(&choices.deep_file)))
    } else if text::str_eq(choice, "3") {
        Ok(None)
    } else if text::str_eq(choice, "4") {
        Ok(Some(text::owned(hermit_dir)))
    } else {
        Err(AddError::InvalidChoice)
    }
}

} // verus!
