//! Patch actions: merging or patching a structured file with a source.
use crate::action::{FileOrText, SourceSpec, Status, content_type_text};
use crate::sorted::Dup;
use crate::config::{GlobalConfig, HermitConfig, PatchConfig, PatchType, merged_requires, patch_type_text, spec_total_order};
use crate::paths;
use crate::render::{RenderEnv, expanded};
use crate::tags::{RequireSet, requires_id_text, requires_joined};
use crate::text;
use vstd::prelude::*;
use vstd::string::StringSliceAdditionalSpecFns;

verus! {

/// Merging or patching the file `dst` with the source `src`.
#[derive(Debug)]
pub struct PatchAction {
    pub rel_dst: String,
    pub src: SourceSpec,
    pub dst: String,
    pub patch_type: PatchType,
    pub order: u64,
    pub requires: RequireSet,
}

/// The UTF-8 bytes of a text.
pub open spec fn bytes_of(s: Seq<char>) -> Seq<u8> {
    vstd::utf8::encode_utf8(s)
}

/// How a text source is shown: line breaks written as `\n`; a text of more
/// than thirty bytes cut after its thirtieth byte and marked with `…`.
pub open spec fn text_shown(t: Seq<char>) -> Seq<char> {
    if bytes_of(t).len() > 30 {
        text::replace_char(vstd::utf8::decode_utf8(bytes_of(t).subrange(0, 30)), '\n', "\\n"@) + "…"@
    } else {
        text::replace_char(t, '\n', "\\n"@)
    }
}

impl PatchAction {
    /// The same action: equal fields, requirements with the same entries.
    pub open spec fn eqv(&self, o: &Self) -> bool {
        &&& self.rel_dst == o.rel_dst
        &&& self.src == o.src
        &&& self.dst == o.dst
        &&& self.patch_type == o.patch_type
        &&& self.order == o.order
        &&& self.requires.keys() == o.requires.keys()
        &&& self.requires.vals() == o.requires.vals()
    }

    /// A copy of the action.
    pub fn duplicate(&self) -> (r: PatchAction)
        requires
            self.requires.wf(),
        ensures
            r.eqv(self),
            r.requires.wf(),
    {
        PatchAction {
            rel_dst: self.rel_dst.clone(),
            src: self.src.dup(),
            dst: self.dst.clone(),
            patch_type: self.patch_type,
            order: self.order,
            requires: self.requires.dup_map(),
        }
    }

    /// The action of a patch entry of `cfg`, where `src` is its source
    /// normalized for the target: the target expanded and also shown
    /// relative to `home` where it lies inside, the requirements of entry and
    /// file together.
    pub fn new(
        patch: &PatchConfig,
        cfg: &HermitConfig,
        global: &GlobalConfig,
        env: &RenderEnv,
        home: &str,
        src: SourceSpec,
    ) -> (r: PatchAction)
        requires
            cfg.wf(),
            global.wf(),
            cfg.has_directory(),
            patch.requires.wf(),
        ensures
            r.dst@ == expanded(*cfg, *global, *env, patch.target@),
            r.rel_dst@ == match paths::strip_prefix(r.dst@, home@) {
                Some(p) => p,
                None => r.dst@,
            },
            r.src == src,
            r.patch_type == patch.patch_type,
            r.order == spec_total_order(patch.order, cfg.order),
            merged_requires(r.requires, patch.requires, cfg.requires),
    {
        let dst = cfg.expand_directory(global, env, patch.target.as_str());
        let rel_dst = match paths::strip_path_prefix(dst.as_str(), home) {
            Some(p) => p,
            None => dst.clone(),
        };
        let required = cfg.get_all_requires(&patch.requires);
        PatchAction {
            src,
            dst,
            rel_dst,
            order: cfg.total_order(patch.order),
            patch_type: patch.patch_type,
            requires: required,
        }
    }

    /// One line: patch type, target and source as shown, content type.
    pub fn short_description(&self) -> (r: String)
        ensures
            r@ == patch_type_text(self.patch_type) + " "@ + self.rel_dst@ + " with "@ + self.src.rel_path@ + " ["@
                + content_type_text(self.src.content_type) + "]"@,
    {
        let mut r = self.patch_type.to_text();
        text::push_str(&mut r, " ");
        text::push_str(&mut r, self.rel_dst.as_str());
        text::push_str(&mut r, " with ");
        text::push_str(&mut r, self.src.rel_path.as_str());
        text::push_str(&mut r, " [");
        let c = self.src.content_type.to_text();
        text::push_str(&mut r, c.as_str());
        text::push_str(&mut r, "]");
        r
    }

    /// Patch type, target in full, the source file or text, content type.
    pub fn long_description(&self) -> (r: String)
        requires
            self.src.source matches FileOrText::Text { text: t } ==> bytes_of(t@).len() <= usize::MAX && (
            bytes_of(t@).len() > 30 ==> vstd::utf8::is_char_boundary(bytes_of(t@), 30)),
        ensures
            r@ == patch_type_text(self.patch_type) + " "@ + self.dst@ + match self.src.source {
                FileOrText::File { file } => " with file "@ + file@,
                FileOrText::Text { text: t } => " with '"@ + text_shown(t@) + "'"@,
            } + " ["@ + content_type_text(self.src.content_type) + "]"@,
    {
        let middle = match &self.src.source {
            FileOrText::File { file } => text::concat(" with file ", file.as_str()),
            FileOrText::Text { text: t } => {
                let shown = if t.as_str().len() > 30 {
                    let (head, _) = t.as_str().split_at(30);
                    proof {
                        vstd::utf8::encode_utf8_decode_utf8(head@);
                        assert(head.spec_bytes() == bytes_of(head@));
                    }
                    let h = text::replace_char_str(head, '\n', "\\n");
                    text::concat(h.as_str(), "…")
                } else {
                    text::replace_char_str(t.as_str(), '\n', "\\n")
                };
                let mut m = text::concat(" with '", shown.as_str());
                text::push_str(&mut m, "'");
                m
            },
        };

        let mut r = self.patch_type.to_text();
        text::push_str(&mut r, " ");
        text::push_str(&mut r, self.dst.as_str());
        text::push_str(&mut r, middle.as_str());
        text::push_str(&mut r, " [");
        let c = self.src.content_type.to_text();
        text::push_str(&mut r, c.as_str());
        text::push_str(&mut r, "]");
        r
    }

    /// The identity of the action: source and target as shown, and the requirements.
    pub fn id(&self) -> (r: String)
        requires
            self.requires.wf(),
        ensures
            r@ == "PatchAction:"@ + self.src.rel_path@ + ":"@ + self.rel_dst@ + ":"@ + requires_joined(
                self.requires.keys(),
            ),
    {
        let mut r = text::owned("PatchAction:");
        text::push_str(&mut r, self.src.rel_path.as_str());
        text::push_str(&mut r, ":");
        text::push_str(&mut r, self.rel_dst.as_str());
        text::push_str(&mut r, ":");
        let q = requires_id_text(&self.requires);
        text::push_str(&mut r, q.as_str());
        r
    }

    /// The requirements.
    pub fn requirements(&self) -> (r: &RequireSet)
        ensures
            *r == self.requires,
    {
        &self.requires
    }

    /// The order.
    pub fn get_order(&self) -> (r: u64)
        ensures
            r == self.order,
    {
        self.order
    }

    /// Patches cannot be checked.
    pub fn get_status(&self) -> (r: Status)
        ensures
            r is NotSupported,
    {
        Status::NotSupported
    }
}

} // verus!
