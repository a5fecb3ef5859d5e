//! Paths as strings, with the Unix meaning of `/`.
use crate::text;
use vstd::prelude::*;

verus! {

/// Whether a path is absolute (starts at the root).
pub open spec fn is_absolute(p: Seq<char>) -> bool {
    p.len() > 0 && p[0] == '/'
}

/// `PathBuf::join` on Unix: an absolute `rel` replaces `base`; otherwise a
/// separator is put between them unless `base` is empty or already ends in one.
pub open spec fn join(base: Seq<char>, rel: Seq<char>) -> Seq<char> {
    if is_absolute(rel) {
        rel
    } else if base.len() == 0 {
        rel
    } else if base.last() == '/' {
        base + rel
    } else {
        base + seq!['/'] + rel
    }
}

/// What `Path::strip_prefix` returns: the remainder of `path` after the
/// components of `base`, where `base` is a prefix of it by components.
pub uninterp spec fn strip_prefix(path: Seq<char>, base: Seq<char>) -> Option<Seq<char>>;

/// What `Path::parent` returns for a path.
pub uninterp spec fn parent(path: Seq<char>) -> Option<Seq<char>>;

/// What `Path::extension` returns for a path.
pub uninterp spec fn extension(path: Seq<char>) -> Option<Seq<char>>;

/// Tilde expansion as `shellexpand::tilde_with_context` does it: a leading
/// `~` that is alone or followed by `/` becomes the home directory, where
/// one is known; any other input is returned as it is.
pub open spec fn tilde(input: Seq<char>, home: Option<Seq<char>>) -> Seq<char> {
    if input.len() > 0 && input[0] == '~' && (input.len() == 1 || input[1] == '/') && home is Some {
        home->0 + input.drop_first()
    } else {
        input
    }
}

/// Whether a path string is absolute.
pub fn path_is_absolute(p: &str) -> (r: bool)
    ensures
        r == is_absolute(p@),
{
    let v = text::chars_of(p);
    v.len() > 0 && v[0] == '/'
}

/// Joins two paths (`Path::join` on Unix).
pub fn join_path(base: &str, rel: &str) -> (r: String)
    ensures
        r@ == join(base@, rel@),
{
    if path_is_absolute(rel) {
        return text::owned(rel);
    }
    let vb = text::chars_of(base);
    if vb.len() == 0 {
        text::owned(rel)
    } else if vb[vb.len() - 1] == '/' {
        text::concat(base, rel)
    } else {
        let mut r = text::owned(base);
        text::push_char(&mut r, '/');
        text::push_str(&mut r, rel);
        r
    }
}

/// `Path::strip_prefix` on string paths, the result rendered as a string.
#[verifier::external_body]
pub(crate) fn strip_path_prefix(path: &str, base: &str) -> (r: Option<String>)
    ensures
        match r {
            Some(s) => strip_prefix(path@, base@) == Some(s@),
            None => strip_prefix(path@, base@) is None,
        },
{
    std::path::Path::new(path).strip_prefix(base).ok().map(|p| p.to_string_lossy().to_string())
}

/// `Path::parent` on a string path.
#[verifier::external_body]
pub(crate) fn parent_path(path: &str) -> (r: Option<String>)
    ensures
        match r {
            Some(s) => parent(path@) == Some(s@),
            None => parent(path@) is None,
        },
{
    std::path::Path::new(path).parent().map(|p| p.to_string_lossy().to_string())
}

/// `Path::extension` on a string path.
#[verifier::external_body]
pub(crate) fn path_extension(path: &str) -> (r: Option<String>)
    ensures
        match r {
            Some(s) => extension(path@) == Some(s@),
            None => extension(path@) is None,
        },
{
    std::path::Path::new(path).extension().map(|e| e.to_string_lossy().to_string())
}

/// `shellexpand::tilde_with_context` with a given home directory.
#[verifier::external_body]
pub(crate) fn expand_tilde(input: &str, home: &Option<String>) -> (r: String)
    ensures
        r@ == tilde(input@, match home {
            Some(h) => Some(h@),
            None => None,
        }),
{
    shellexpand::tilde_with_context(input, || home.clone()).into_owned()
}

} // verus!
