//! Tags, tag requirements and their textual forms.
//!
//! A tag is a lower-cased name with an optional value (`os=linux`) and the
//! place it came from. Two tags are the same tag when name and value agree;
//! the source plays no part in comparisons.
use crate::sorted::{Dup, Keyed, SortedMap};
use crate::text;
use vstd::prelude::*;

verus! {

/// Where a tag came from.
#[derive(Debug)]
pub enum Source {
    Unknown,
    CommandLine,
    Detector(String),
    BuiltInDetector,
    Config,
}

impl Dup for Source {
    fn dup(&self) -> (r: Self) {
        match self {
            Source::Unknown => Source::Unknown,
            Source::CommandLine => Source::CommandLine,
            Source::Detector(n) => Source::Detector(n.clone()),
            Source::BuiltInDetector => Source::BuiltInDetector,
            Source::Config => Source::Config,
        }
    }
}

/// The text shown for a source.
pub open spec fn source_text(s: Source) -> Seq<char> {
    match s {
        Source::Unknown => "unknown"@,
        Source::CommandLine => "command line"@,
        Source::Detector(n) => "detector: "@ + n@,
        Source::BuiltInDetector => "built-in detector"@,
        Source::Config => "config"@,
    }
}

impl Source {
    /// The display text of the source.
    pub fn to_text(&self) -> (r: String)
        ensures
            r@ == source_text(*self),
    {
        match self {
            Source::Unknown => text::owned("unknown"),
            Source::CommandLine => text::owned("command line"),
            Source::Detector(n) => text::concat("detector: ", n.as_str()),
            Source::BuiltInDetector => text::owned("built-in detector"),
            Source::Config => text::owned("config"),
        }
    }
}

/// The view of an optional string.
pub open spec fn opt_view(o: Option<String>) -> Option<Seq<char>> {
    match o {
        Some(s) => Some(s@),
        None => None,
    }
}

/// The ordering key of a tag identity: the name, a separator, and the value
/// where there is one. It orders tags by name, then by value (no value first).
pub open spec fn tag_key(name: Seq<char>, value: Option<Seq<char>>) -> Seq<u32> {
    text::chars_key(name) + seq![0u32] + match value {
        None => Seq::<u32>::empty(),
        Some(v) => seq![1u32] + text::chars_key(v),
    }
}

/// Name and value of a tag as written: `name=value` splits at the first `=`.
pub open spec fn parse_tag(s: Seq<char>) -> (Seq<char>, Option<Seq<char>>) {
    match text::split_once(s, '=') {
        Some((k, v)) => (text::lowercase(k), Some(v)),
        None => (text::lowercase(s), None),
    }
}

/// The text of a tag: `name` or `name=value`.
pub open spec fn tag_text(name: Seq<char>, value: Option<Seq<char>>) -> Seq<char> {
    match value {
        Some(v) => name + "="@ + v,
        None => name,
    }
}

/// A tag: a lower-cased name, an optional value and its source.
#[derive(Debug)]
pub struct Tag(String, Option<String>, Source);

impl Tag {
    /// The name.
    pub closed spec fn spec_name(&self) -> Seq<char> {
        self.0@
    }

    /// The value, if any.
    pub closed spec fn spec_value(&self) -> Option<Seq<char>> {
        opt_view(self.1)
    }

    /// The source.
    pub closed spec fn spec_source(&self) -> Source {
        self.2
    }

    /// Name and value: what makes two tags the same tag.
    pub open spec fn id(&self) -> (Seq<char>, Option<Seq<char>>) {
        (self.spec_name(), self.spec_value())
    }

    /// A tag without value; the name is lower-cased.
    pub fn new(tag: &str, source: Source) -> (r: Tag)
        ensures
            r.spec_name() == text::lowercase(tag@),
            r.spec_value() is None,
            r.spec_source() == source,
    {
        Tag(text::to_lowercase(tag), None, source)
    }

    /// A tag with a value; the name is lower-cased, the value kept as given.
    pub fn new_with_value(tag: &str, value: &str, source: Source) -> (r: Tag)
        ensures
            r.spec_name() == text::lowercase(tag@),
            r.spec_value() == Some(value@),
            r.spec_source() == source,
    {
        Tag(text::to_lowercase(tag), Some(text::owned(value)), source)
    }

    /// The name.
    pub fn name(&self) -> (r: &str)
        ensures
            r@ == self.spec_name(),
    {
        self.0.as_str()
    }

    /// The value.
    pub fn value(&self) -> (r: &Option<String>)
        ensures
            opt_view(*r) == self.spec_value(),
    {
        &self.1
    }

    /// The source.
    pub fn source(&self) -> (r: &Source)
        ensures
            *r == self.spec_source(),
    {
        &self.2
    }

    /// Whether a detector (configured or built in) produced the tag.
    pub fn is_detected(&self) -> (r: bool)
        ensures
            r == (self.spec_source() is Detector || self.spec_source() is BuiltInDetector),
    {
        match self.2 {
            Source::Detector(_) | Source::BuiltInDetector => true,
            _ => false,
        }
    }

    /// Reads a tag from text (`name` or `name=value`) with an unknown source.
    pub fn parse(s: &str) -> (r: Tag)
        ensures
            r.id() == parse_tag(s@),
            r.spec_source() == Source::Unknown,
    {
        match text::split_once_char(s, '=') {
            Some((key, value)) => Tag::new_with_value(key.as_str(), value.as_str(), Source::Unknown),
            None => Tag::new(s, Source::Unknown),
        }
    }

    /// Reads a tag from text and gives it the source `config`.
    pub fn from_str_with_src(s: &str, config: Source) -> (r: Tag)
        ensures
            r.id() == parse_tag(s@),
            r.spec_source() == config,
    {
        let t = Tag::parse(s);
        Tag(t.0, t.1, config)
    }

    /// The text of the tag: `name` or `name=value`.
    pub fn to_text(&self) -> (r: String)
        ensures
            r@ == tag_text(self.spec_name(), self.spec_value()),
    {
        match &self.1 {
            Some(v) => {
                let mut r = text::concat(self.0.as_str(), "=");
                text::push_str(&mut r, v.as_str());
                r
            },
            None => self.0.clone(),
        }
    }

    /// Whether two tags have the same name and value.
    pub fn same_tag(&self, other: &Tag) -> (r: bool)
        ensures
            r == (self.id() == other.id()),
    {
        if !(self.0 == other.0) {
            return false;
        }
        match (&self.1, &other.1) {
            (None, None) => true,
            (Some(a), Some(b)) => *a == *b,
            _ => false,
        }
    }
}

impl Dup for Tag {
    fn dup(&self) -> (r: Self) {
        let value = match &self.1 {
            Some(v) => Some(v.clone()),
            None => None,
        };
        Tag(self.0.clone(), value, self.2.dup())
    }
}

impl Keyed for Tag {
    open spec fn key(&self) -> Seq<u32> {
        tag_key(self.spec_name(), self.spec_value())
    }

    fn make_key(&self) -> (r: Vec<u32>) {
        let mut r = text::key_of_str(self.0.as_str());
        r.push(0);
        match &self.1 {
            None => {
                assert(r@ =~= tag_key(self.spec_name(), self.spec_value()));
            },
            Some(v) => {
                r.push(1);
                let mut vk = text::key_of_str(v.as_str());
                r.append(&mut vk);
                assert(r@ =~= tag_key(self.spec_name(), self.spec_value()));
            },
        }
        r
    }
}

/// Two tags with the same key have the same name and value: a set of tags
/// keyed this way holds each name and value once, whatever its source.
pub proof fn law_tag_key_injective(
    n1: Seq<char>,
    v1: Option<Seq<char>>,
    n2: Seq<char>,
    v2: Option<Seq<char>>,
)
    requires
        tag_key(n1, v1) == tag_key(n2, v2),
    ensures
        n1 == n2,
        v1 == v2,
{
    let k = tag_key(n1, v1);
    assert(k.take(n1.len() as int) =~= text::chars_key(n1));
    assert(k.take(n2.len() as int) =~= text::chars_key(n2));
    assert(k[n1.len() as int] == 0);
    assert(k[n2.len() as int] == 0);
    lemma_chars_key_split(n1, n2, k);
    let rest1 = k.skip((n1.len() + 1) as int);
    assert(rest1 =~= match v1 {
        None => Seq::<u32>::empty(),
        Some(v) => seq![1u32] + text::chars_key(v),
    });
    assert(rest1 =~= match v2 {
        None => Seq::<u32>::empty(),
        Some(v) => seq![1u32] + text::chars_key(v),
    });
    match (v1, v2) {
        (Some(a), Some(b)) => {
            assert(text::chars_key(a) =~= rest1.drop_first());
            assert(text::chars_key(b) =~= rest1.drop_first());
            lemma_chars_key_injective(a, b);
        },
        (None, Some(b)) => {
            assert(rest1.len() > 0);
        },
        (Some(a), None) => {
            assert(rest1.len() > 0);
        },
        (None, None) => {},
    }
}

/// The keys of distinct strings differ.
pub proof fn lemma_chars_key_injective(a: Seq<char>, b: Seq<char>)
    requires
        text::chars_key(a) == text::chars_key(b),
    ensures
        a == b,
{
    assert(text::chars_key(a).len() == a.len());
    assert(text::chars_key(b).len() == b.len());
    assert(a.len() == b.len());
    assert forall|i: int| 0 <= i < a.len() implies a[i] == b[i] by {
        assert(text::chars_key(a)[i] == text::chars_key(b)[i]);
        vstd::utf8::char_is_scalar(a[i]);
        vstd::utf8::char_is_scalar(b[i]);
        let u = a[i] as u32;
        assert(u <= 0x10FFFF);
        assert(b[i] as u32 <= 0x10FFFF);
        assert(text::chars_key(a)[i] == (u + 1) as u32);
        assert(text::chars_key(b)[i] == (b[i] as u32 + 1) as u32);
        assert(u == b[i] as u32);
        vstd::utf8::char_u32_cast(a[i], u);
        vstd::utf8::char_u32_cast(b[i], u);
    }
    assert(a =~= b);
}

/// In a key of the form `chars_key(n) + [0] + ...` the name ends at the first `0`.
proof fn lemma_chars_key_split(n1: Seq<char>, n2: Seq<char>, k: Seq<u32>)
    requires
        k.take(n1.len() as int) == text::chars_key(n1),
        k[n1.len() as int] == 0,
        k.take(n2.len() as int) == text::chars_key(n2),
        k[n2.len() as int] == 0,
        n1.len() < k.len(),
        n2.len() < k.len(),
    ensures
        n1 == n2,
{
    assert forall|i: int| 0 <= i < n1.len() implies k[i] != 0 by {
        assert(k.take(n1.len() as int)[i] == text::chars_key(n1)[i]);
        vstd::utf8::char_is_scalar(n1[i]);
    }
    assert forall|i: int| 0 <= i < n2.len() implies k[i] != 0 by {
        assert(k.take(n2.len() as int)[i] == text::chars_key(n2)[i]);
        vstd::utf8::char_is_scalar(n2[i]);
    }
    if n1.len() < n2.len() {
        assert(k[n1.len() as int] != 0);
    } else if n2.len() < n1.len() {
        assert(k[n2.len() as int] != 0);
    }
    lemma_chars_key_injective(n1, n2);
}

/// A requirement on the active tags: a tag that must be active, or one that must not.
#[derive(Debug)]
pub enum RequireTag {
    Positive(Tag),
    Negative(Tag),
}

/// The ordering key of a requirement: positive ones first, then by tag.
pub open spec fn require_key(negative: bool, t: Tag) -> Seq<u32> {
    seq![if negative { 1u32 } else { 0u32 }] + t.key()
}

/// How a requirement is read: surrounding white space is dropped, a leading
/// `+` makes it positive, a leading `-` or `~` negative, and none positive.
pub open spec fn parse_require(s: Seq<char>) -> (bool, Seq<char>) {
    let t = text::trim(s);
    match text::strip_prefix_char(t, '+') {
        Some(rest) => (false, rest),
        None => match text::strip_prefix_char(t, '-') {
            Some(rest) => (true, rest),
            None => match text::strip_prefix_char(t, '~') {
                Some(rest) => (true, rest),
                None => (false, t),
            },
        },
    }
}

impl RequireTag {
    /// Whether the requirement is negative.
    pub open spec fn is_negative(&self) -> bool {
        self is Negative
    }

    /// The tag the requirement is about.
    pub open spec fn tag(&self) -> Tag {
        match self {
            RequireTag::Positive(t) => *t,
            RequireTag::Negative(t) => *t,
        }
    }

    /// Whether the requirement holds for a set of active tags: a positive one
    /// when its tag is in the set, a negative one when it is not.
    pub open spec fn holds(&self, tags: TagSet) -> bool {
        match self {
            RequireTag::Positive(t) => tags.has_key(t.key()),
            RequireTag::Negative(t) => !tags.has_key(t.key()),
        }
    }

    /// Whether the requirement holds for the active tags.
    pub fn matches(&self, tags: &TagSet) -> (r: bool)
        requires
            tags.wf(),
        ensures
            r == self.holds(*tags),
    {
        match self {
            RequireTag::Positive(tag) => {
                let k = tag.make_key();
                tags.contains_key(&k)
            },
            RequireTag::Negative(tag) => {
                let k = tag.make_key();
                !tags.contains_key(&k)
            },
        }
    }

    /// The name of the tag required.
    pub fn name(&self) -> (r: &str)
        ensures
            r@ == self.tag().spec_name(),
    {
        match self {
            RequireTag::Positive(tag) => tag.name(),
            RequireTag::Negative(tag) => tag.name(),
        }
    }

    /// Reads a requirement: `+tag`, `-tag`, `~tag` or `tag`, where the tag
    /// may carry a value (`+os=linux`).
    pub fn parse(s: &str) -> (r: RequireTag)
        ensures
            r.is_negative() == parse_require(s@).0,
            r.tag().id() == parse_tag(parse_require(s@).1),
            r.tag().spec_source() == Source::Unknown,
    {
        let trimmed = text::trim_str(s);
        match text::strip_prefix_char_str(trimmed.as_str(), '+') {
            Some(rest) => RequireTag::Positive(Tag::parse(rest.as_str())),
            None => match text::strip_prefix_char_str(trimmed.as_str(), '-') {
                Some(rest) => RequireTag::Negative(Tag::parse(rest.as_str())),
                None => match text::strip_prefix_char_str(trimmed.as_str(), '~') {
                    Some(rest) => RequireTag::Negative(Tag::parse(rest.as_str())),
                    None => RequireTag::Positive(Tag::parse(trimmed.as_str())),
                },
            },
        }
    }

    /// The text of the requirement: `+tag` or `-tag`.
    pub fn to_text(&self) -> (r: String)
        ensures
            r@ == (if self.is_negative() {
                "-"@
            } else {
                "+"@
            }) + tag_text(self.tag().spec_name(), self.tag().spec_value()),
    {
        match self {
            RequireTag::Positive(tag) => {
                let t = tag.to_text();
                text::concat("+", t.as_str())
            },
            RequireTag::Negative(tag) => {
                let t = tag.to_text();
                text::concat("-", t.as_str())
            },
        }
    }
}

impl Dup for RequireTag {
    fn dup(&self) -> (r: Self) {
        match self {
            RequireTag::Positive(t) => RequireTag::Positive(t.dup()),
            RequireTag::Negative(t) => RequireTag::Negative(t.dup()),
        }
    }
}

impl Keyed for RequireTag {
    open spec fn key(&self) -> Seq<u32> {
        require_key(self.is_negative(), self.tag())
    }

    fn make_key(&self) -> (r: Vec<u32>) {
        let (first, tag): (u32, &Tag) = match self {
            RequireTag::Positive(t) => (0, t),
            RequireTag::Negative(t) => (1, t),
        };
        let mut r: Vec<u32> = Vec::new();
        r.push(first);
        let mut k = tag.make_key();
        r.append(&mut k);
        assert(r@ =~= require_key(self.is_negative(), self.tag()));
        r
    }
}

/// A set of tags ordered by name and value.
pub type TagSet = SortedMap<Tag, ()>;

/// A set of requirements, positive ones first.
pub type RequireSet = SortedMap<RequireTag, ()>;


/// How `Debug` writes a source.
pub open spec fn source_debug(s: Source) -> Seq<char> {
    match s {
        Source::Unknown => "Unknown"@,
        Source::CommandLine => "CommandLine"@,
        Source::Detector(n) => "Detector("@ + text::debug_str(n@) + ")"@,
        Source::BuiltInDetector => "BuiltInDetector"@,
        Source::Config => "Config"@,
    }
}

/// How `Debug` writes an optional string.
pub open spec fn opt_debug(o: Option<Seq<char>>) -> Seq<char> {
    match o {
        Some(v) => "Some("@ + text::debug_str(v) + ")"@,
        None => "None"@,
    }
}

/// How `Debug` writes a tag.
pub open spec fn tag_debug(t: Tag) -> Seq<char> {
    "Tag("@ + text::debug_str(t.spec_name()) + ", "@ + opt_debug(t.spec_value()) + ", "@ + source_debug(
        t.spec_source(),
    ) + ")"@
}

/// How `Debug` writes a requirement.
pub open spec fn require_debug(r: RequireTag) -> Seq<char> {
    match r {
        RequireTag::Positive(t) => "Positive("@ + tag_debug(t) + ")"@,
        RequireTag::Negative(t) => "Negative("@ + tag_debug(t) + ")"@,
    }
}

impl Source {
    /// The `Debug` text of the source.
    pub fn debug_text(&self) -> (r: String)
        ensures
            r@ == source_debug(*self),
    {
        match self {
            Source::Unknown => text::owned("Unknown"),
            Source::CommandLine => text::owned("CommandLine"),
            Source::Detector(n) => {
                let mut r = text::owned("Detector(");
                let d = text::debug_string(n.as_str());
                text::push_str(&mut r, d.as_str());
                text::push_str(&mut r, ")");
                r
            },
            Source::BuiltInDetector => text::owned("BuiltInDetector"),
            Source::Config => text::owned("Config"),
        }
    }
}

impl Tag {
    /// The `Debug` text of the tag.
    pub fn debug_text(&self) -> (r: String)
        ensures
            r@ == tag_debug(*self),
    {
        let mut r = text::owned("Tag(");
        let n = text::debug_string(self.0.as_str());
        text::push_str(&mut r, n.as_str());
        text::push_str(&mut r, ", ");
        match &self.1 {
            Some(v) => {
                text::push_str(&mut r, "Some(");
                let d = text::debug_string(v.as_str());
                text::push_str(&mut r, d.as_str());
                text::push_str(&mut r, ")");
            },
            None => text::push_str(&mut r, "None"),
        }
        text::push_str(&mut r, ", ");
        let s = self.2.debug_text();
        text::push_str(&mut r, s.as_str());
        text::push_str(&mut r, ")");
        r
    }
}

impl RequireTag {
    /// The `Debug` text of the requirement.
    pub fn debug_text(&self) -> (r: String)
        ensures
            r@ == require_debug(*self),
    {
        match self {
            RequireTag::Positive(t) => {
                let mut r = text::owned("Positive(");
                let d = t.debug_text();
                text::push_str(&mut r, d.as_str());
                text::push_str(&mut r, ")");
                r
            },
            RequireTag::Negative(t) => {
                let mut r = text::owned("Negative(");
                let d = t.debug_text();
                text::push_str(&mut r, d.as_str());
                text::push_str(&mut r, ")");
                r
            },
        }
    }
}


/// The text of a requirement: `+tag` or `-tag`.
pub open spec fn require_text(r: RequireTag) -> Seq<char> {
    (if r.is_negative() {
        "-"@
    } else {
        "+"@
    }) + tag_text(r.tag().spec_name(), r.tag().spec_value())
}

/// The texts of requirements joined with `,`.
pub open spec fn requires_joined(rs: Seq<RequireTag>) -> Seq<char> {
    text::join(rs.map_values(|r: RequireTag| require_text(r)), ","@)
}

/// How `Debug` writes a list of requirements.
pub open spec fn requires_debug(rs: Seq<RequireTag>) -> Seq<char> {
    "["@ + text::join(rs.map_values(|r: RequireTag| require_debug(r)), ", "@) + "]"@
}

/// The requirements of a set, in order, as text joined with `,`.
pub fn requires_id_text(rs: &RequireSet) -> (r: String)
    requires
        rs.wf(),
    ensures
        r@ == requires_joined(rs.keys()),
{
    let n = rs.len();
    let mut parts: Vec<String> = Vec::new();
    let mut i: usize = 0;
    while i < n
        invariant
            rs.wf(),
            n == rs.keys().len(),
            i <= n,
            parts@.map_values(|p: String| p@) == rs.keys().take(i as int).map_values(|r: RequireTag| require_text(r)),
        decreases n - i,
    {
        let t = rs.key(i).to_text();
        let ghost pre = parts@;
        parts.push(t);
        assert(parts@.map_values(|p: String| p@) =~= pre.map_values(|p: String| p@).push(t@));
        assert(rs.keys().take(i + 1).map_values(|r: RequireTag| require_text(r)) =~= rs.keys().take(
            i as int,
        ).map_values(|r: RequireTag| require_text(r)).push(require_text(rs.keys()[i as int])));
        i = i + 1;
    }
    assert(rs.keys().take(n as int) =~= rs.keys());
    text::join_strs(&parts, ",")
}

/// The requirements of a set, in order, as `Debug` writes a list of them.
pub fn requires_debug_text(rs: &RequireSet) -> (r: String)
    requires
        rs.wf(),
    ensures
        r@ == requires_debug(rs.keys()),
{
    let n = rs.len();
    let mut parts: Vec<String> = Vec::new();
    let mut i: usize = 0;
    while i < n
        invariant
            rs.wf(),
            n == rs.keys().len(),
            i <= n,
            parts@.map_values(|p: String| p@) == rs.keys().take(i as int).map_values(|r: RequireTag| require_debug(r)),
        decreases n - i,
    {
        let t = rs.key(i).debug_text();
        let ghost pre = parts@;
        parts.push(t);
        assert(parts@.map_values(|p: String| p@) =~= pre.map_values(|p: String| p@).push(t@));
        assert(rs.keys().take(i + 1).map_values(|r: RequireTag| require_debug(r)) =~= rs.keys().take(
            i as int,
        ).map_values(|r: RequireTag| require_debug(r)).push(require_debug(rs.keys()[i as int])));
        i = i + 1;
    }
    assert(rs.keys().take(n as int) =~= rs.keys());
    let inner = text::join_strs(&parts, ", ");
    let mut r = text::owned("[");
    text::push_str(&mut r, inner.as_str());
    text::push_str(&mut r, "]");
    r
}


/// A negative requirement holds exactly where the positive one on the same
/// tag does not: `+t` and `-t` never both hold, and one of them always does.
pub proof fn law_requirement_complement(t: Tag, tags: TagSet)
    ensures
        RequireTag::Negative(t).holds(tags) == !RequireTag::Positive(t).holds(tags),
{
}

/// A tag is active as a requirement's tag exactly when it is in the set by
/// name and value: the source plays no part.
pub proof fn law_holds_ignores_source(a: Tag, b: Tag, tags: TagSet)
    requires
        a.id() == b.id(),
    ensures
        RequireTag::Positive(a).holds(tags) == RequireTag::Positive(b).holds(tags),
        RequireTag::Negative(a).holds(tags) == RequireTag::Negative(b).holds(tags),
{
    assert(a.key() == b.key());
}

/// The first `c` in `s + rest`, where `s` holds none, is the first one of `rest`.
proof fn lemma_first_index_after(s: Seq<char>, rest: Seq<char>, c: char)
    requires
        !s.contains(c),
    ensures
        text::first_index_of(s + rest, c) == s.len() + text::first_index_of(rest, c),
    decreases s.len(),
{
    if s.len() == 0 {
        assert(s + rest =~= rest);
    } else {
        assert(s[0] != c);
        assert((s + rest)[0] == s[0]);
        assert((s + rest).drop_first() =~= s.drop_first() + rest);
        assert(!s.drop_first().contains(c)) by {
            if s.drop_first().contains(c) {
                let j = choose|j: int| 0 <= j < s.drop_first().len() && s.drop_first()[j] == c;
                assert(s[j + 1] == c);
            }
        }
        lemma_first_index_after(s.drop_first(), rest, c);
    }
}

/// Writing a tag as text and reading the text back gives the same name and
/// value, where the name is already lower-case and holds no `=`.
pub proof fn law_tag_text_roundtrip(name: Seq<char>, value: Option<Seq<char>>)
    requires
        text::lowercase(name) == name,
        !name.contains('='),
    ensures
        parse_tag(tag_text(name, value)) == (name, value),
{
    let body = tag_text(name, value);
    reveal_strlit("=");
    match value {
        Some(v) => {
            let rest = "="@ + v;
            assert(body =~= name + rest);
            lemma_first_index_after(name, rest, '=');
            assert(rest[0] == '=');
            assert(text::first_index_of(rest, '=') == 0);
            assert(body.take(name.len() as int) =~= name);
            assert(body.skip(name.len() as int + 1) =~= v);
        },
        None => {
            let empty = Seq::<char>::empty();
            assert(body =~= name + empty);
            lemma_first_index_after(name, empty, '=');
        },
    }
}

/// Writing a requirement as text and reading the text back gives the same
/// requirement: the same sign, tag name and value. This holds where the
/// name is already lower-case and holds no `=`, and the text has no white
/// space at either end.
pub proof fn law_requirement_text_roundtrip(r: RequireTag)
    requires
        text::lowercase(r.tag().spec_name()) == r.tag().spec_name(),
        !r.tag().spec_name().contains('='),
        text::trim(require_text(r)) == require_text(r),
    ensures
        parse_require(require_text(r)).0 == r.is_negative(),
        parse_tag(parse_require(require_text(r)).1) == r.tag().id(),
{
    let body = tag_text(r.tag().spec_name(), r.tag().spec_value());
    let sign: Seq<char> = if r.is_negative() {
        "-"@
    } else {
        "+"@
    };
    reveal_strlit("-");
    reveal_strlit("+");
    let t = require_text(r);
    assert(t == sign + body);
    assert(t[0] == sign[0]);
    assert(t.drop_first() =~= body);
    assert(parse_require(t).1 == body);
    law_tag_text_roundtrip(r.tag().spec_name(), r.tag().spec_value());
}

} // verus!
