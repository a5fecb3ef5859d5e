//! Link actions: placing a file of the configuration at its target.
use crate::action::Status;
use crate::config::{
    FallbackOperation, GlobalConfig, HermitConfig, LinkConfig, LinkType, fallback_text, link_type_text,
    merged_requires, spec_total_order,
};
use crate::paths;
use crate::render::{RenderEnv, expanded};
use crate::tags::{RequireSet, requires_debug, requires_debug_text, requires_id_text, requires_joined};
use crate::text;
use vstd::prelude::*;

verus! {

/// Placing the file `src` at `dst` as a link or a copy.
#[derive(Debug)]
pub struct LinkAction {
    pub rel_src: String,
    pub rel_dst: String,
    pub src: String,
    pub dst: String,
    pub link_type: LinkType,
    pub requires: RequireSet,
    pub fallback: FallbackOperation,
    pub order: u64,
}

/// The source file of a link entry: its path if absolute, else its path
/// under the directory of the file.
pub open spec fn link_source_path(source: Seq<char>, dir: Seq<char>) -> Seq<char> {
    if paths::is_absolute(source) {
        source
    } else {
        paths::join(dir, source)
    }
}

/// A path relative to `base` where it lies inside, else `fallback`.
pub open spec fn relative_or(path: Seq<char>, base: Seq<char>, fallback: Seq<char>) -> Seq<char> {
    match paths::strip_prefix(path, base) {
        Some(p) => p,
        None => fallback,
    }
}

/// The word shown for a link type.
pub open spec fn link_word(t: LinkType) -> Seq<char> {
    match t {
        LinkType::Soft => "Symlink"@,
        LinkType::Hard => "Hardlink"@,
        LinkType::Copy => "Copy"@,
    }
}

/// The source file of a link entry of `cfg`, before it is made canonical.
pub fn link_source(link_config: &LinkConfig, cfg: &HermitConfig) -> (r: String)
    requires
        cfg.has_directory(),
    ensures
        r@ == link_source_path(link_config.source@, cfg.spec_directory()),
{
    if paths::path_is_absolute(link_config.source.as_str()) {
        link_config.source.clone()
    } else {
        let dir = cfg.directory();
        paths::join_path(dir.as_str(), link_config.source.as_str())
    }
}

impl LinkAction {
    /// The same action: equal fields, requirements with the same entries.
    pub open spec fn eqv(&self, o: &Self) -> bool {
        &&& self.rel_src == o.rel_src
        &&& self.rel_dst == o.rel_dst
        &&& self.src == o.src
        &&& self.dst == o.dst
        &&& self.link_type == o.link_type
        &&& self.requires.keys() == o.requires.keys()
        &&& self.requires.vals() == o.requires.vals()
        &&& self.fallback == o.fallback
        &&& self.order == o.order
    }

    /// A copy of the action.
    pub fn duplicate(&self) -> (r: LinkAction)
        requires
            self.requires.wf(),
        ensures
            r.eqv(self),
            r.requires.wf(),
    {
        LinkAction {
            rel_src: self.rel_src.clone(),
            rel_dst: self.rel_dst.clone(),
            src: self.src.clone(),
            dst: self.dst.clone(),
            link_type: self.link_type,
            requires: self.requires.dup_map(),
            fallback: self.fallback,
            order: self.order,
        }
    }

    /// The action of a link entry of `cfg`, where `src` is the canonical form
    /// of its source file (see `link_source`): the target expanded, both
    /// paths also shown relative (the source to the file's directory, else
    /// as written; the target to the home directory, else in full), the
    /// requirements of entry and file together, the fallback given on the
    /// command line or else the entry's.
    pub fn new(
        link_config: &LinkConfig,
        cfg: &HermitConfig,
        global: &GlobalConfig,
        env: &RenderEnv,
        fallback: &Option<FallbackOperation>,
        src: &str,
    ) -> (r: LinkAction)
        requires
            cfg.wf(),
            global.wf(),
            cfg.has_directory(),
            link_config.requires.wf(),
        ensures
            r.src@ == src@,
            r.rel_src@ == relative_or(src@, cfg.spec_directory(), link_config.source@),
            r.dst@ == expanded(*cfg, *global, *env, link_config.target@),
            r.rel_dst@ == relative_or(r.dst@, global.spec_home_dir(), r.dst@),
            r.link_type == link_config.link,
            merged_requires(r.requires, link_config.requires, cfg.requires),
            r.fallback == match fallback {
                Some(f) => *f,
                None => link_config.fallback,
            },
            r.order == spec_total_order(link_config.order, cfg.order),
    {
        let dir = cfg.directory();
        let rel_src = match paths::strip_path_prefix(src, dir.as_str()) {
            Some(p) => p,
            None => link_config.source.clone(),
        };
        let dst = cfg.expand_directory(global, env, link_config.target.as_str());
        let rel_dst = match paths::strip_path_prefix(dst.as_str(), global.home_dir()) {
            Some(p) => p,
            None => dst.clone(),
        };
        let required = cfg.get_all_requires(&link_config.requires);
        let fallback = match fallback {
            Some(f) => *f,
            None => link_config.fallback,
        };
        LinkAction {
            src: text::owned(src),
            rel_src,
            dst,
            rel_dst,
            link_type: link_config.link,
            requires: required,
            fallback,
            order: cfg.total_order(link_config.order),
        }
    }

    /// One line: the kind of link, source and target as shown.
    pub fn short_description(&self) -> (r: String)
        ensures
            r@ == link_word(self.link_type) + " "@ + self.rel_src@ + " -> "@ + self.rel_dst@,
    {
        let mut r = match self.link_type {
            LinkType::Soft => text::owned("Symlink"),
            LinkType::Hard => text::owned("Hardlink"),
            LinkType::Copy => text::owned("Copy"),
        };
        text::push_str(&mut r, " ");
        text::push_str(&mut r, self.rel_src.as_str());
        text::push_str(&mut r, " -> ");
        text::push_str(&mut r, self.rel_dst.as_str());
        r
    }

    /// Source and target in full, with the requirements.
    pub fn long_description(&self) -> (r: String)
        requires
            self.requires.wf(),
        ensures
            r@ == "Symlink from "@ + self.src@ + " to "@ + self.dst@ + " (tags: "@ + requires_debug(
                self.requires.keys(),
            ) + ")"@,
    {
        let mut r = text::owned("Symlink from ");
        text::push_str(&mut r, self.src.as_str());
        text::push_str(&mut r, " to ");
        text::push_str(&mut r, self.dst.as_str());
        text::push_str(&mut r, " (tags: ");
        let d = requires_debug_text(&self.requires);
        text::push_str(&mut r, d.as_str());
        text::push_str(&mut r, ")");
        r
    }

    /// The identity of the action: shown paths, link type, fallback and
    /// requirements.
    pub fn id(&self) -> (r: String)
        requires
            self.requires.wf(),
        ensures
            r@ == "LinkAction:"@ + self.rel_src@ + ":"@ + self.rel_dst@ + ":"@ + link_type_text(self.link_type)
                + ":"@ + fallback_text(self.fallback) + ":"@ + requires_joined(self.requires.keys()),
    {
        let mut r = text::owned("LinkAction:");
        text::push_str(&mut r, self.rel_src.as_str());
        text::push_str(&mut r, ":");
        text::push_str(&mut r, self.rel_dst.as_str());
        text::push_str(&mut r, ":");
        let t = self.link_type.to_text();
        text::push_str(&mut r, t.as_str());
        text::push_str(&mut r, ":");
        let f = self.fallback.to_text();
        text::push_str(&mut r, f.as_str());
        text::push_str(&mut r, ":");
        let q = requires_id_text(&self.requires);
        text::push_str(&mut r, q.as_str());
        r
    }

    /// The requirements.
    pub fn requirements(&self) -> (r: &RequireSet)
        ensures
            *r == self.requires,
    {
        &self.requires
    }

    /// The order.
    pub fn get_order(&self) -> (r: u64)
        ensures
            r == self.order,
    {
        self.order
    }

    /// The status for the outcome of checking the target: fine where it is
    /// linked, an error where the check itself failed, else the issue found
    /// (`message` describes the outcome).
    pub fn get_status(&self, is_ok: bool, is_error: bool, message: &str) -> (r: Status)
        ensures
            match r {
                Status::Good(m) => is_ok && m@ == self.rel_dst@ + " is linked"@,
                Status::Error(m) => !is_ok && is_error && m@ == "File check failed for "@ + self.rel_dst@ + ": "@
                    + message@,
                Status::NotOk(m) => !is_ok && !is_error && m@ == self.rel_dst@ + " has issues: "@ + message@,
                Status::NotSupported => false,
            },
    {
        if is_ok {
            return Status::Good(text::concat(self.rel_dst.as_str(), " is linked"));
        }
        if is_error {
            let mut m = text::concat("File check failed for ", self.rel_dst.as_str());
            text::push_str(&mut m, ": ");
            text::push_str(&mut m, message);
            return Status::Error(m);
        }
        let mut m = text::concat(self.rel_dst.as_str(), " has issues: ");
        text::push_str(&mut m, message);
        Status::NotOk(m)
    }
}

} // verus!
