//! Actions: what applying a configuration does, their outputs and sources.
use crate::config::HermitConfig;
use crate::paths;
use crate::sorted::{Dup, Keyed, SortedMap};
use crate::action::install::InstallAction;
use crate::action::link::LinkAction;
use crate::action::patch::{PatchAction, bytes_of};
use crate::tags::{RequireSet, lemma_chars_key_injective, opt_view};
use crate::text;
use vstd::prelude::*;

pub mod content;
pub mod install;
pub mod link;
pub mod patch;

verus! {

/// The views of a list of strings.
pub open spec fn str_views(v: Seq<String>) -> Seq<Seq<char>> {
    v.map_values(|s: String| s@)
}

/// Output of the commands of an action, by name, names in the order in which
/// they first produced output.
#[derive(Debug)]
pub struct ActionOutput {
    pub output_order: Vec<String>,
    standard_output: SortedMap<String, String>,
    error_output: SortedMap<String, String>,
}

impl ActionOutput {
    /// The names, in order.
    pub closed spec fn order(&self) -> Seq<Seq<char>> {
        str_views(self.output_order@)
    }

    /// The standard output recorded under `name`.
    pub closed spec fn stdout_of(&self, name: Seq<char>) -> Option<Seq<char>> {
        match self.standard_output.lookup(text::chars_key(name)) {
            Some(s) => Some(s@),
            None => None,
        }
    }

    /// The error output recorded under `name`.
    pub closed spec fn stderr_of(&self, name: Seq<char>) -> Option<Seq<char>> {
        match self.error_output.lookup(text::chars_key(name)) {
            Some(s) => Some(s@),
            None => None,
        }
    }

    /// Each name once in the order, and exactly the names with some output.
    pub closed spec fn wf(&self) -> bool {
        &&& self.standard_output.wf()
        &&& self.error_output.wf()
        &&& forall|i: int, j: int| 0 <= i < j < self.order().len() ==> self.order()[i] != self.order()[j]
        &&& forall|n: Seq<char>|
            #![trigger self.stdout_of(n)]
            #![trigger self.stderr_of(n)]
            #![trigger self.order().contains(n)]
            self.order().contains(n) <==> (self.stdout_of(n) is Some || self.stderr_of(n) is Some)
    }

    /// An empty output.
    pub fn new() -> (r: ActionOutput)
        ensures
            r.wf(),
            r.order().len() == 0,

            forall|n: Seq<char>| r.stdout_of(n) is None && r.stderr_of(n) is None,
    {
        ActionOutput { output_order: Vec::new(), standard_output: SortedMap::new(), error_output: SortedMap::new() }
    }

    /// An output that holds `stdout` as the standard output named `stdout`.
    pub fn new_stdout(stdout: String) -> (r: ActionOutput)
        ensures
            r.wf(),
            r.order() == seq!["stdout"@],
            r.stdout_of("stdout"@) == Some(stdout@),
            forall|n: Seq<char>| n != "stdout"@ ==> r.stdout_of(n) is None,
            forall|n: Seq<char>| r.stderr_of(n) is None,
    {
        let mut output = ActionOutput::new();
        let ghost v = stdout@;
        let key = text::owned("stdout");
        assert(key.key() == text::chars_key("stdout"@));
        let ghost before = output;
        output.standard_output.insert(key, stdout);
        output.output_order.push(text::owned("stdout"));
        proof {
            assert(output.order() =~= seq!["stdout"@]);
            assert forall|n: Seq<char>| n != "stdout"@ implies output.stdout_of(n) is None by {
                if text::chars_key(n) == text::chars_key("stdout"@) {
                    lemma_chars_key_injective(n, "stdout"@);
                }
                assert(before.stdout_of(n) is None);
            }
            assert forall|n: Seq<char>|
                #![trigger output.stdout_of(n)]
                #![trigger output.stderr_of(n)]
                #![trigger output.order().contains(n)]
                output.order().contains(n) <==> (output.stdout_of(n) is Some || output.stderr_of(n) is Some) by {
                assert(before.stderr_of(n) is None);
                if n == "stdout"@ {
                    assert(output.order()[0] == n);
                } else {
                    assert(output.stdout_of(n) is None);
                    if output.order().contains(n) {
                        let k = choose|k: int| 0 <= k < output.order().len() && output.order()[k] == n;
                        assert(k == 0);
                    }
                }
            }
            assert forall|n: Seq<char>| #[trigger] output.stderr_of(n) is None by {
                assert(before.stderr_of(n) is None);
            }
        }
        output
    }

    /// Whether `name` has output.
    fn has_name(&self, name: &str) -> (r: bool)
        ensures
            r == self.order().contains(name@),
    {
        let mut i: usize = 0;
        while i < self.output_order.len()
            invariant
                i <= self.output_order.len(),
                forall|j: int| 0 <= j < i ==> self.order()[j] != name@,
            decreases self.output_order.len() - i,
        {
            if text::str_eq(self.output_order[i].as_str(), name) {
                assert(self.order()[i as int] == name@);
                return true;
            }
            i = i + 1;
        }
        false
    }

    /// Records the output of the command `name`: each of `stdout` and
    /// `stderr` that is not empty replaces what was recorded before, and a
    /// name that gets output for the first time goes to the end of the order.
    pub fn add(&mut self, name: &str, stdout: &str, stderr: &str)
        requires
            old(self).wf(),
        ensures
            final(self).wf(),
            forall|n: Seq<char>|
                #[trigger] final(self).stdout_of(n) == if n == name@ && stdout@.len() > 0 {
                    Some(stdout@)
                } else {
                    old(self).stdout_of(n)
                },
            forall|n: Seq<char>|
                #[trigger] final(self).stderr_of(n) == if n == name@ && stderr@.len() > 0 {
                    Some(stderr@)
                } else {
                    old(self).stderr_of(n)
                },
            final(self).order() == if (stdout@.len() > 0 || stderr@.len() > 0) && !old(self).order().contains(
                name@,
            ) {
                old(self).order().push(name@)
            } else {
                old(self).order()
            },
    {
        let ghost o = *self;
        if !stdout.is_empty() {
            self.standard_output.insert(text::owned(name), text::owned(stdout));
            if !self.has_name(name) {
                let ghost pre = self.order();
                self.output_order.push(text::owned(name));
                assert(self.order() =~= pre.push(name@));
                assert(self.order()[pre.len() as int] == name@);
            }
        }
        if !stderr.is_empty() {
            self.error_output.insert(text::owned(name), text::owned(stderr));
            if !self.has_name(name) {
                let ghost pre = self.order();
                self.output_order.push(text::owned(name));
                assert(self.order() =~= pre.push(name@));
            }
        }
        proof {
            assert forall|n: Seq<char>| n != name@ implies #[trigger] text::chars_key(n) != text::chars_key(name@) by {
                if text::chars_key(n) == text::chars_key(name@) {
                    lemma_chars_key_injective(n, name@);
                }
            }
            assert forall|n: Seq<char>|
                #[trigger] self.stdout_of(n) == if n == name@ && stdout@.len() > 0 {
                    Some(stdout@)
                } else {
                    o.stdout_of(n)
                } by {
                if n != name@ {
                    assert(text::chars_key(n) != text::chars_key(name@));
                }
            }
            assert forall|n: Seq<char>|
                #[trigger] self.stderr_of(n) == if n == name@ && stderr@.len() > 0 {
                    Some(stderr@)
                } else {
                    o.stderr_of(n)
                } by {
                if n != name@ {
                    assert(text::chars_key(n) != text::chars_key(name@));
                }
            }
            if (stdout@.len() > 0 || stderr@.len() > 0) && !o.order().contains(name@) {
                assert(self.order() =~= o.order().push(name@));
            } else {
                assert(self.order() =~= o.order());
            }
            assert forall|i: int, j: int| 0 <= i < j < self.order().len() implies self.order()[i]
                != self.order()[j] by {
                if j == o.order().len() {
                    assert(!o.order().contains(name@));
                    assert(o.order()[i] == self.order()[i]);
                }
            }
            assert forall|n: Seq<char>|
                #![trigger self.stdout_of(n)]
                #![trigger self.stderr_of(n)]
                #![trigger self.order().contains(n)]
                self.order().contains(n) <==> (self.stdout_of(n) is Some || self.stderr_of(n) is Some) by {
                if n == name@ {
                    if self.stdout_of(n) is Some || self.stderr_of(n) is Some {
                        if !o.order().contains(name@) {
                            assert(self.order()[self.order().len() - 1] == n);
                        }
                    }
                } else {
                    if o.order().contains(n) {
                        let k = choose|k: int| 0 <= k < o.order().len() && o.order()[k] == n;
                        assert(self.order()[k] == n);
                    }
                    if self.order().contains(n) {
                        let k = choose|k: int| 0 <= k < self.order().len() && self.order()[k] == n;
                        assert(o.order()[k] == n);
                    }
                }
            }
        }
    }

    /// Whether nothing was recorded.
    pub fn is_empty(&self) -> (r: bool)
        ensures
            r == (self.order().len() == 0),
    {
        self.output_order.len() == 0
    }

    /// Each name in order with its standard and error output.
    pub fn entries(&self) -> (r: Vec<(String, Option<String>, Option<String>)>)
        requires
            self.wf(),
        ensures
            r@.len() == self.order().len(),
            forall|i: int|
                0 <= i < r@.len() ==> {
                    &&& (#[trigger] r@[i]).0@ == self.order()[i]
                    &&& opt_view(r@[i].1) == self.stdout_of(self.order()[i])
                    &&& opt_view(r@[i].2) == self.stderr_of(self.order()[i])
                },
    {
        let mut r: Vec<(String, Option<String>, Option<String>)> = Vec::new();
        let mut i: usize = 0;
        while i < self.output_order.len()
            invariant
                self.wf(),
                i <= self.output_order.len(),
                r@.len() == i,
                forall|j: int|
                    0 <= j < i ==> {
                        &&& (#[trigger] r@[j]).0@ == self.order()[j]
                        &&& opt_view(r@[j].1) == self.stdout_of(self.order()[j])
                        &&& opt_view(r@[j].2) == self.stderr_of(self.order()[j])
                    },
            decreases self.output_order.len() - i,
        {
            let key = &self.output_order[i];
            let out = match self.standard_output.get_str(key.as_str()) {
                Some(s) => Some(s.clone()),
                None => None,
            };
            let err = match self.error_output.get_str(key.as_str()) {
                Some(s) => Some(s.clone()),
                None => None,
            };
            r.push((key.clone(), out, err));
            i = i + 1;
        }
        r
    }
}

/// The outcome of checking an action (`Good`: nothing to do).
#[derive(Debug)]
pub enum Status {
    Good(String),
    NotOk(String),
    Error(String),
    NotSupported,
}

/// How a source is processed before use.
#[derive(Debug, Clone, Copy, PartialEq, Eq, Structural)]
pub enum PreprocessingType {
    Plain,
    Handlebars,
}

impl PreprocessingType {
    /// Whether this is the default (no processing).
    pub fn is_default(&self) -> (r: bool)
        ensures
            r == (*self == PreprocessingType::Plain),
    {
        match self {
            PreprocessingType::Plain => true,
            PreprocessingType::Handlebars => false,
        }
    }
}

/// The format of a source's content.
#[derive(Debug, Clone, Copy, PartialEq, Eq, Structural)]
pub enum ContentType {
    Auto,
    Json,
    Yaml,
    Toml,
    Unknown,
}

/// The display text of a content type.
pub open spec fn content_type_text(c: ContentType) -> Seq<char> {
    match c {
        ContentType::Auto => "auto"@,
        ContentType::Json => "json"@,
        ContentType::Yaml => "yaml"@,
        ContentType::Toml => "toml"@,
        ContentType::Unknown => "unknown"@,
    }
}

/// The content type a file extension stands for, upper case ignored:
/// `json` and `jsonc`, `yaml` and `yml`, `toml`; any other is unknown.
pub open spec fn content_type_of_ext(ext: Seq<char>) -> ContentType {
    let l = text::lowercase(ext);
    if l == "json"@ || l == "jsonc"@ {
        ContentType::Json
    } else if l == "yaml"@ || l == "yml"@ {
        ContentType::Yaml
    } else if l == "toml"@ {
        ContentType::Toml
    } else {
        ContentType::Unknown
    }
}

impl ContentType {
    /// Whether this is the default (automatic detection).
    pub fn is_default(&self) -> (r: bool)
        ensures
            r == (*self == ContentType::Auto),
    {
        match self {
            ContentType::Auto => true,
            _ => false,
        }
    }

    /// The display text of the content type.
    pub fn to_text(&self) -> (r: String)
        ensures
            r@ == content_type_text(*self),
    {
        match self {
            ContentType::Auto => text::owned("auto"),
            ContentType::Json => text::owned("json"),
            ContentType::Yaml => text::owned("yaml"),
            ContentType::Toml => text::owned("toml"),
            ContentType::Unknown => text::owned("unknown"),
        }
    }

    /// The content type of a file extension.
    pub fn from_extension(ext: &str) -> (r: ContentType)
        ensures
            r == content_type_of_ext(ext@),
    {
        let l = text::to_lowercase(ext);
        if text::str_eq(l.as_str(), "json") || text::str_eq(l.as_str(), "jsonc") {
            ContentType::Json
        } else if text::str_eq(l.as_str(), "yaml") || text::str_eq(l.as_str(), "yml") {
            ContentType::Yaml
        } else if text::str_eq(l.as_str(), "toml") {
            ContentType::Toml
        } else {
            ContentType::Unknown
        }
    }
}

/// A source: a file, or text given in place.
#[derive(Debug)]
pub enum FileOrText {
    File { file: String },
    Text { text: String },
}

impl Dup for FileOrText {
    fn dup(&self) -> (r: Self) {
        match self {
            FileOrText::File { file } => FileOrText::File { file: file.clone() },
            FileOrText::Text { text } => FileOrText::Text { text: text.clone() },
        }
    }
}

/// A source with how to process it; once normalized it names a file.
#[derive(Debug)]
pub struct SourceSpec {
    pub source: FileOrText,
    pub pre_processing: PreprocessingType,
    pub rendered_file: Option<String>,
    pub content_type: ContentType,
    pub rel_path: String,
    pub normalized: bool,
}

/// What `blake3::hash` gives for the UTF-8 bytes of `text`, in hexadecimal.
pub uninterp spec fn blake3_hex_of(text: Seq<char>) -> Seq<char>;

/// `blake3::hash` of the text's bytes, written as hexadecimal; the result is
/// named by `blake3_hex_of`.
#[verifier::external_body]
fn blake3_hex(text: &str) -> (r: String)
    ensures
        r@ == blake3_hex_of(text@),
{
    blake3::hash(text.as_bytes()).to_string()
}

/// The path of the file that a text source is written to: under
/// `data_dir/hermitgrab/sources`, named after the hash of the text, with the
/// extension of the destination (`rendered` where it has none).
pub open spec fn text_source_path(data_dir: Seq<char>, text: Seq<char>, dst: Seq<char>) -> Seq<char> {
    let ext = match paths::extension(dst) {
        Some(e) => e,
        None => "rendered"@,
    };
    paths::join(
        paths::join(paths::join(data_dir, "hermitgrab"@), "sources"@),
        "text_"@ + blake3_hex_of(text) + "."@ + ext,
    )
}

/// The content type a normalized source gets: the given one, or where it is
/// automatic the one of the source's extension, else of the destination's.
pub open spec fn resolved_content_type(given: ContentType, src: Seq<char>, dst: Seq<char>) -> ContentType {
    if given == ContentType::Auto {
        match paths::extension(src) {
            Some(e) => content_type_of_ext(e),
            None => match paths::extension(dst) {
                Some(e) => content_type_of_ext(e),
                None => ContentType::Unknown,
            },
        }
    } else {
        given
    }
}

impl Dup for SourceSpec {
    fn dup(&self) -> (r: Self) {
        SourceSpec {
            source: self.source.dup(),
            pre_processing: self.pre_processing,
            rendered_file: match &self.rendered_file {
                Some(f) => Some(f.clone()),
                None => None,
            },
            content_type: self.content_type,
            rel_path: self.rel_path.clone(),
            normalized: self.normalized,
        }
    }
}

impl SourceSpec {
    /// The path shown for the source.
    pub open spec fn spec_rel_path(&self) -> Seq<char> {
        self.rel_path@
    }

    /// Whether the source has been resolved to a file.
    pub open spec fn spec_normalized(&self) -> bool {
        self.normalized
    }

    /// A plain file source.
    pub fn raw_path(path: &str) -> (r: SourceSpec)
        ensures
            r.source matches FileOrText::File { file } && file@ == path@,
            r.spec_rel_path() == path@,
            r.pre_processing == PreprocessingType::Plain,
            r.rendered_file is None,
            r.content_type == ContentType::Auto,
            !r.spec_normalized(),
    {
        SourceSpec {
            source: FileOrText::File { file: text::owned(path) },
            rel_path: text::owned(path),
            pre_processing: PreprocessingType::Plain,
            rendered_file: None,
            content_type: ContentType::Auto,
            normalized: false,
        }
    }

    /// The path shown for the source.
    pub fn rel_path(&self) -> (r: &str)
        ensures
            r@ == self.spec_rel_path(),
    {
        self.rel_path.as_str()
    }

    /// Whether the source has been resolved to a file.
    pub fn is_normalized(&self) -> (r: bool)
        ensures
            r == self.spec_normalized(),
    {
        self.normalized
    }

    /// The file of a file source.
    pub fn file(&self) -> (r: &String)
        requires
            self.source is File,
        ensures
            *r == self.source->file,
    {
        match &self.source {
            FileOrText::File { file } => file,
            FileOrText::Text { text } => {
                assert(false);
                text
            },
        }
    }

    /// Where the text of a text source is written (see `text_source_path`).
    pub fn text_file_path(data_dir: &str, text: &str, dst: &str) -> (r: String)
        ensures
            r@ == text_source_path(data_dir@, text@, dst@),
    {
        let ext = match paths::path_extension(dst) {
            Some(e) => e,
            None => text::owned("rendered"),
        };
        let mut name = text::owned("text_");
        let h = blake3_hex(text);
        text::push_str(&mut name, h.as_str());
        text::push_str(&mut name, ".");
        text::push_str(&mut name, ext.as_str());
        let base = paths::join_path(paths::join_path(data_dir, "hermitgrab").as_str(), "sources");
        paths::join_path(base.as_str(), name.as_str())
    }

    /// The source resolved to the file `src` for the destination `dst`: the
    /// content type settled, the shown path made relative to the directory of
    /// `cfg` where it lies inside, the rendered file dropped. A source already
    /// normalized stays as it is.
    pub fn normalize_with(&self, cfg: &HermitConfig, src: &str, dst: &str) -> (r: SourceSpec)
        requires
            cfg.has_directory(),
        ensures
            self.spec_normalized() ==> r == *self,
            !self.spec_normalized() ==> {
                &&& r.source matches FileOrText::File { file } && file@ == src@
                &&& r.spec_rel_path() == match paths::strip_prefix(src@, cfg.spec_directory()) {
                    Some(p) => p,
                    None => src@,
                }
                &&& r.pre_processing == self.pre_processing
                &&& r.rendered_file is None
                &&& r.content_type == resolved_content_type(self.content_type, src@, dst@)
                &&& r.spec_normalized()
            },
    {
        if self.normalized {
            return self.dup();
        }
        let content_type = if self.content_type.is_default() {
            match paths::path_extension(src) {
                Some(e) => ContentType::from_extension(e.as_str()),
                None => match paths::path_extension(dst) {
                    Some(e) => ContentType::from_extension(e.as_str()),
                    None => ContentType::Unknown,
                },
            }
        } else {
            self.content_type
        };
        let dir = cfg.directory();
        let rel_path = match paths::strip_path_prefix(src, dir.as_str()) {
            Some(p) => p,
            None => text::owned(src),
        };
        SourceSpec {
            source: FileOrText::File { file: text::owned(src) },
            rel_path,
            pre_processing: self.pre_processing,
            rendered_file: None,
            content_type,
            normalized: true,
        }
    }
}


/// An action of any kind.
#[derive(Debug)]
pub enum Actions {
    Install(InstallAction),
    Link(LinkAction),
    Patch(PatchAction),
}

impl Actions {
    /// The requirements of the action.
    pub open spec fn spec_requires(&self) -> RequireSet {
        match self {
            Actions::Install(a) => a.requires,
            Actions::Link(a) => a.requires,
            Actions::Patch(a) => a.requires,
        }
    }

    /// The order of the action.
    pub open spec fn spec_order(&self) -> u64 {
        match self {
            Actions::Install(a) => a.order,
            Actions::Link(a) => a.order,
            Actions::Patch(a) => a.order,
        }
    }

    /// Whether the requirements are well formed.
    pub open spec fn wf(&self) -> bool {
        self.spec_requires().wf()
    }

    /// The same action: same kind, equal fields, requirements with the same entries.
    pub open spec fn eqv(&self, o: &Self) -> bool {
        match (self, o) {
            (Actions::Install(a), Actions::Install(b)) => a.eqv(b),
            (Actions::Link(a), Actions::Link(b)) => a.eqv(b),
            (Actions::Patch(a), Actions::Patch(b)) => a.eqv(b),
            _ => false,
        }
    }

    /// A copy of the action.
    pub fn duplicate(&self) -> (r: Actions)
        requires
            self.wf(),
        ensures
            r.eqv(self),
            r.wf(),
    {
        match self {
            Actions::Install(a) => Actions::Install(a.duplicate()),
            Actions::Link(a) => Actions::Link(a.duplicate()),
            Actions::Patch(a) => Actions::Patch(a.duplicate()),
        }
    }

    /// The requirements of the action.
    pub fn requirements(&self) -> (r: &RequireSet)
        ensures
            *r == self.spec_requires(),
    {
        match self {
            Actions::Install(a) => a.requirements(),
            Actions::Link(a) => a.requirements(),
            Actions::Patch(a) => a.requirements(),
        }
    }

    /// The order of the action.
    pub fn get_order(&self) -> (r: u64)
        ensures
            r == self.spec_order(),
    {
        match self {
            Actions::Install(a) => a.get_order(),
            Actions::Link(a) => a.get_order(),
            Actions::Patch(a) => a.get_order(),
        }
    }

    /// One line describing the action.
    pub fn short_description(&self) -> (r: String)
        ensures
            match self {
                Actions::Install(a) => r@ == "Install "@ + a.name@,
                Actions::Link(a) => r@ == link::link_word(a.link_type) + " "@ + a.rel_src@ + " -> "@ + a.rel_dst@,
                Actions::Patch(a) => r@ == crate::config::patch_type_text(a.patch_type) + " "@ + a.rel_dst@ + " with "@
                    + a.src.rel_path@ + " ["@ + content_type_text(a.src.content_type) + "]"@,
            },
    {
        match self {
            Actions::Install(a) => a.short_description(),
            Actions::Link(a) => a.short_description(),
            Actions::Patch(a) => a.short_description(),
        }
    }

    /// The identity of the action (see each kind's `id`).
    pub fn id(&self) -> (r: String)
        requires
            self.wf(),
        ensures
            match self {
                Actions::Install(a) => r@ == install::INSTALL_ACTION_TYPE@ + ":"@ + install::hex_fixed(
                    install::install_hash(
                        a.name@,
                        install::hash_parts(a.requires.keys()),
                        opt_view(a.check_cmd),
                        a.install_cmd@,
                        a.order,
                    ) as nat,
                    16,
                ),
                Actions::Link(a) => r@ == "LinkAction:"@ + a.rel_src@ + ":"@ + a.rel_dst@ + ":"@
                    + crate::config::link_type_text(a.link_type) + ":"@ + crate::config::fallback_text(a.fallback)
                    + ":"@ + crate::tags::requires_joined(a.requires.keys()),
                Actions::Patch(a) => r@ == "PatchAction:"@ + a.src.rel_path@ + ":"@ + a.rel_dst@ + ":"@
                    + crate::tags::requires_joined(a.requires.keys()),
            },
    {
        match self {
            Actions::Install(a) => a.id(),
            Actions::Link(a) => a.id(),
            Actions::Patch(a) => a.id(),
        }
    }

    /// Several lines describing the action (see each kind's `long_description`).
    pub fn long_description(&self) -> (r: String)
        requires
            self.wf(),
            self matches Actions::Patch(a) ==> (a.src.source matches FileOrText::Text { text: t } ==> bytes_of(
                t@,
            ).len() <= usize::MAX && (bytes_of(t@).len() > 30 ==> vstd::utf8::is_char_boundary(bytes_of(t@), 30))),
        ensures
            match self {
                Actions::Install(a) => r@ == "Install "@ + a.name@ + " with cmd: "@ + text::debug_str(a.install_cmd@)
                    + ")"@,
                Actions::Link(a) => r@ == "Symlink from "@ + a.src@ + " to "@ + a.dst@ + " (tags: "@
                    + crate::tags::requires_debug(a.requires.keys()) + ")"@,
                Actions::Patch(a) => r@ == crate::config::patch_type_text(a.patch_type) + " "@ + a.dst@
                    + match a.src.source {
                    FileOrText::File { file } => " with file "@ + file@,
                    FileOrText::Text { text: t } => " with '"@ + patch::text_shown(t@) + "'"@,
                } + " ["@ + content_type_text(a.src.content_type) + "]"@,
            },
    {
        match self {
            Actions::Install(a) => a.long_description(),
            Actions::Link(a) => a.long_description(),
            Actions::Patch(a) => a.long_description(),
        }
    }
}

} // verus!
