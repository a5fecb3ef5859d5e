//! Checking a placed link or copy: which status each observed state of the
//! files gets, and how the status reads.
use crate::config::LinkType;
use crate::text;
use vstd::prelude::*;

verus! {

/// What checking a placed file found (paths as text, errors by message).
#[derive(Debug)]
pub enum FileCheck {
    Good,
    DestinationNotSymLink(String),
    FailedToReadSymlink(String),
    SymlinkDestinationMismatch(String, String),
    DestinationDoesNotExist(String),
    InodeMismatch(String),
    SizeDiffers(String, u64, u64),
    SrcIsFileButTargetIsDir(String),
    SrcIsDirButTargetIsFile(String),
    HashDiffers(String, String, String),
    FailedToGetMetadata(String, String),
    FailedToAccessFile(String, String),
    FailedToTraverseDir(String, String),
    FailedToHashFile(String, String),
    /// Not decided yet: the copy is to be checked as a tree.
    CheckCopy,
    /// Not decided yet: each entry of the source directory is to be checked.
    CheckEntries,
    /// Not decided yet: the contents are to be compared by hash.
    CompareHashes,
}

impl FileCheck {
    /// Whether all is well.
    pub fn is_ok(&self) -> (r: bool)
        ensures
            r == (*self is Good),
    {
        match self {
            FileCheck::Good => true,
            _ => false,
        }
    }

    /// Whether the check itself failed (a file could not be read).
    pub fn is_error(&self) -> (r: bool)
        ensures
            r == (*self is FailedToAccessFile || *self is FailedToGetMetadata || *self is FailedToHashFile
                || *self is FailedToTraverseDir),
    {
        match self {
            FileCheck::FailedToAccessFile(..) | FileCheck::FailedToGetMetadata(..) | FileCheck::FailedToHashFile(..)
            | FileCheck::FailedToTraverseDir(..) => true,
            _ => false,
        }
    }
}

/// The status of a link or copy at `dst` of the source `src` (canonical),
/// from what was observed: whether the target exists (or the error
/// reaching it); for a symlink, whether the target is one and where it
/// leads (canonical, or the error); for a hard link, the inodes of target
/// and source (or the errors). A copy is checked as a tree.
pub open spec fn link_check_of(
    link_type: LinkType,
    src: Seq<char>,
    dst: Seq<char>,
    exists: Result<bool, Seq<char>>,
    is_symlink: bool,
    resolved: Result<Seq<char>, Seq<char>>,
    dst_inode: Result<u64, Seq<char>>,
    src_inode: Result<u64, Seq<char>>,
    r: FileCheck,
) -> bool {
    match exists {
        Err(e) => r matches FileCheck::FailedToAccessFile(p, m) && p@ == dst && m@ == e,
        Ok(false) => r matches FileCheck::DestinationDoesNotExist(p) && p@ == dst,
        Ok(true) => match link_type {
            LinkType::Soft => if !is_symlink {
                r matches FileCheck::DestinationNotSymLink(p) && p@ == dst
            } else {
                match resolved {
                    Err(_) => r matches FileCheck::FailedToReadSymlink(p) && p@ == dst,
                    Ok(to) => if to != src {
                        r matches FileCheck::SymlinkDestinationMismatch(p, t) && p@ == dst && t@ == to
                    } else {
                        r is Good
                    },
                }
            },
            LinkType::Hard => match (dst_inode, src_inode) {
                (Err(e), _) => r matches FileCheck::FailedToGetMetadata(p, m) && p@ == dst && m@ == e,
                (Ok(_), Err(e)) => r matches FileCheck::FailedToGetMetadata(p, m) && p@ == src && m@ == e,
                (Ok(a), Ok(b)) => if a != b {
                    r matches FileCheck::InodeMismatch(p) && p@ == dst
                } else {
                    r is Good
                },
            },
            LinkType::Copy => r is CheckCopy,
        },
    }
}

/// Decides the status of a link (see `link_check_of`).
pub fn link_check(
    link_type: LinkType,
    src: &str,
    dst: &str,
    exists: &Result<bool, String>,
    is_symlink: bool,
    resolved: &Result<String, String>,
    dst_inode: &Result<u64, String>,
    src_inode: &Result<u64, String>,
) -> (r: FileCheck)
    ensures
        link_check_of(
            link_type,
            src@,
            dst@,
            match exists {
                Ok(b) => Ok(*b),
                Err(e) => Err(e@),
            },
            is_symlink,
            match resolved {
                Ok(t) => Ok(t@),
                Err(e) => Err(e@),
            },
            match dst_inode {
                Ok(i) => Ok(*i),
                Err(e) => Err(e@),
            },
            match src_inode {
                Ok(i) => Ok(*i),
                Err(e) => Err(e@),
            },
            r,
        ),
{
    match exists {
        Err(e) => return FileCheck::FailedToAccessFile(text::owned(dst), e.clone()),
        Ok(false) => return FileCheck::DestinationDoesNotExist(text::owned(dst)),
        Ok(true) => {},
    }
    match link_type {
        LinkType::Soft => {
            if !is_symlink {
                return FileCheck::DestinationNotSymLink(text::owned(dst));
            }
            match resolved {
                Err(_) => FileCheck::FailedToReadSymlink(text::owned(dst)),
                Ok(to) => if text::str_eq(to.as_str(), src) {
                    FileCheck::Good
                } else {
                    FileCheck::SymlinkDestinationMismatch(text::owned(dst), to.clone())
                },
            }
        },
        LinkType::Hard => match (dst_inode, src_inode) {
            (Err(e), _) => FileCheck::FailedToGetMetadata(text::owned(dst), e.clone()),
            (Ok(_), Err(e)) => FileCheck::FailedToGetMetadata(text::owned(src), e.clone()),
            (Ok(a), Ok(b)) => if *a != *b {
                FileCheck::InodeMismatch(text::owned(dst))
            } else {
                FileCheck::Good
            },
        },
        LinkType::Copy => FileCheck::CheckCopy,
    }
}

/// The status of a copy at `dst` of `src` as far as metadata tells: the
/// target must exist; a file target needs a file source of the same size
/// (then, unless `quick`, the contents are compared by hash); a directory
/// target needs a directory source (then each entry is checked).
pub open spec fn copy_check_of(
    src: Seq<char>,
    dst: Seq<char>,
    exists: Result<bool, Seq<char>>,
    dst_is_file: bool,
    src_is_file: bool,
    src_is_dir: bool,
    dst_len: Result<u64, Seq<char>>,
    src_len: Result<u64, Seq<char>>,
    quick: bool,
    r: FileCheck,
) -> bool {
    match exists {
        Err(e) => r matches FileCheck::FailedToAccessFile(p, m) && p@ == dst && m@ == e,
        Ok(false) => r matches FileCheck::DestinationDoesNotExist(p) && p@ == dst,
        Ok(true) => if dst_is_file {
            if !src_is_file {
                r matches FileCheck::SrcIsDirButTargetIsFile(p) && p@ == dst
            } else {
                match (dst_len, src_len) {
                    (Err(e), _) => r matches FileCheck::FailedToGetMetadata(p, m) && p@ == dst && m@ == e,
                    (Ok(_), Err(e)) => r matches FileCheck::FailedToGetMetadata(p, m) && p@ == src && m@ == e,
                    (Ok(d), Ok(s)) => if s != d {
                        r matches FileCheck::SizeDiffers(p, a, b) && p@ == dst && a == s && b == d
                    } else if quick {
                        r is Good
                    } else {
                        r is CompareHashes
                    },
                }
            }
        } else if !src_is_dir {
            r matches FileCheck::SrcIsFileButTargetIsDir(p) && p@ == dst
        } else {
            r is CheckEntries
        },
    }
}

/// Decides the status of a copied file from its metadata (see `copy_check_of`).
pub fn copy_check(
    src: &str,
    dst: &str,
    exists: &Result<bool, String>,
    dst_is_file: bool,
    src_is_file: bool,
    src_is_dir: bool,
    dst_len: &Result<u64, String>,
    src_len: &Result<u64, String>,
    quick: bool,
) -> (r: FileCheck)
    ensures
        copy_check_of(
            src@,
            dst@,
            match exists {
                Ok(b) => Ok(*b),
                Err(e) => Err(e@),
            },
            dst_is_file,
            src_is_file,
            src_is_dir,
            match dst_len {
                Ok(i) => Ok(*i),
                Err(e) => Err(e@),
            },
            match src_len {
                Ok(i) => Ok(*i),
                Err(e) => Err(e@),
            },
            quick,
            r,
        ),
{
    match exists {
        Err(e) => return FileCheck::FailedToAccessFile(text::owned(dst), e.clone()),
        Ok(false) => return FileCheck::DestinationDoesNotExist(text::owned(dst)),
        Ok(true) => {},
    }
    if dst_is_file {
        if !src_is_file {
            return FileCheck::SrcIsDirButTargetIsFile(text::owned(dst));
        }
        match (dst_len, src_len) {
            (Err(e), _) => FileCheck::FailedToGetMetadata(text::owned(dst), e.clone()),
            (Ok(_), Err(e)) => FileCheck::FailedToGetMetadata(text::owned(src), e.clone()),
            (Ok(d), Ok(s)) => if *s != *d {
                FileCheck::SizeDiffers(text::owned(dst), *s, *d)
            } else if quick {
                FileCheck::Good
            } else {
                FileCheck::CompareHashes
            },
        }
    } else if !src_is_dir {
        FileCheck::SrcIsFileButTargetIsDir(text::owned(dst))
    } else {
        FileCheck::CheckEntries
    }
}

/// The status of a copied file from the hashes of source and target (or
/// the errors computing them): the source's first.
pub open spec fn hash_check_of(
    src: Seq<char>,
    dst: Seq<char>,
    src_hash: Result<Seq<char>, Seq<char>>,
    dst_hash: Result<Seq<char>, Seq<char>>,
    r: FileCheck,
) -> bool {
    match (src_hash, dst_hash) {
        (Err(e), _) => r matches FileCheck::FailedToHashFile(p, m) && p@ == src && m@ == e,
        (Ok(_), Err(e)) => r matches FileCheck::FailedToHashFile(p, m) && p@ == dst && m@ == e,
        (Ok(a), Ok(b)) => if a != b {
            r matches FileCheck::HashDiffers(p, x, y) && p@ == dst && x@ == a && y@ == b
        } else {
            r is Good
        },
    }
}

/// Decides the status of a copied file from the hashes (see `hash_check_of`).
pub fn hash_check(src: &str, dst: &str, src_hash: &Result<String, String>, dst_hash: &Result<String, String>) -> (r: FileCheck)
    ensures
        hash_check_of(
            src@,
            dst@,
            match src_hash {
                Ok(h) => Ok(h@),
                Err(e) => Err(e@),
            },
            match dst_hash {
                Ok(h) => Ok(h@),
                Err(e) => Err(e@),
            },
            r,
        ),
{
    match (src_hash, dst_hash) {
        (Err(e), _) => FileCheck::FailedToHashFile(text::owned(src), e.clone()),
        (Ok(_), Err(e)) => FileCheck::FailedToHashFile(text::owned(dst), e.clone()),
        (Ok(a), Ok(b)) => if text::str_eq(a.as_str(), b.as_str()) {
            FileCheck::Good
        } else {
            FileCheck::HashDiffers(text::owned(dst), a.clone(), b.clone())
        },
    }
}

/// How a status reads; a path is quoted as `Debug` quotes it.
pub open spec fn check_message(c: FileCheck) -> Seq<char> {
    match c {
        FileCheck::Good => "OK"@,
        FileCheck::DestinationNotSymLink(p) => "The destination "@ + text::debug_str(p@)
            + " is not a symlink to the expected source"@,
        FileCheck::FailedToReadSymlink(p) => "Failed to read symlink destination of file "@ + text::debug_str(p@),
        FileCheck::SymlinkDestinationMismatch(p, l) => "The destination "@ + text::debug_str(p@) + " links to "@
            + text::debug_str(l@),
        FileCheck::DestinationDoesNotExist(p) => "The destination "@ + text::debug_str(p@) + " does not exist"@,
        FileCheck::InodeMismatch(p) => "The file "@ + text::debug_str(p@) + " is not hardlinked to the source"@,
        FileCheck::SizeDiffers(p, s, d) => "The target file "@ + text::debug_str(p@) + " differ in size "@
            + text::dec_digits(d as nat) + " (dst) vs "@ + text::dec_digits(s as nat) + " (src)"@,
        FileCheck::SrcIsFileButTargetIsDir(p) => "Src is a file, but destination "@ + text::debug_str(p@)
            + " is a directory"@,
        FileCheck::SrcIsDirButTargetIsFile(p) => "Src is a directory, but destination "@ + text::debug_str(p@)
            + " is a file"@,
        FileCheck::HashDiffers(p, s, d) => "The hash of the file "@ + text::debug_str(p@) + " differs: "@ + s@
            + " (src) vs "@ + d@ + " (dst)"@,
        FileCheck::FailedToGetMetadata(p, e) => "Failed to get metadata for the file "@ + text::debug_str(p@)
            + ", error was "@ + e@,
        FileCheck::FailedToAccessFile(p, e) => "Failed to access the file "@ + text::debug_str(p@) + ", error was "@
            + e@,
        FileCheck::FailedToTraverseDir(p, e) => "Failed to traverse the directory "@ + text::debug_str(p@)
            + ", error was "@ + e@,
        FileCheck::FailedToHashFile(p, e) => "Failed to hash the file "@ + text::debug_str(p@) + ", error was "@
            + e@,
        _ => "not checked yet"@,
    }
}

impl FileCheck {
    /// How the status reads (see `check_message`).
    pub fn message(&self) -> (r: String)
        ensures
            r@ == check_message(*self),
    {
        let q = |p: &String| -> (d: String)
            ensures
                d@ == text::debug_str(p@),
            { text::debug_string(p.as_str()) };
        match self {
            FileCheck::Good => text::owned("OK"),
            FileCheck::DestinationNotSymLink(p) => {
                let mut r = text::concat("The destination ", q(p).as_str());
                text::push_str(&mut r, " is not a symlink to the expected source");
                r
            },
            FileCheck::FailedToReadSymlink(p) => text::concat("Failed to read symlink destination of file ", q(p).as_str()),
            FileCheck::SymlinkDestinationMismatch(p, l) => {
                let mut r = text::concat("The destination ", q(p).as_str());
                text::push_str(&mut r, " links to ");
                text::push_str(&mut r, q(l).as_str());
                r
            },
            FileCheck::DestinationDoesNotExist(p) => {
                let mut r = text::concat("The destination ", q(p).as_str());
                text::push_str(&mut r, " does not exist");
                r
            },
            FileCheck::InodeMismatch(p) => {
                let mut r = text::concat("The file ", q(p).as_str());
                text::push_str(&mut r, " is not hardlinked to the source");
                r
            },
            FileCheck::SizeDiffers(p, s, d) => {
                let mut r = text::concat("The target file ", q(p).as_str());
                text::push_str(&mut r, " differ in size ");
                text::push_str(&mut r, text::u64_text(*d).as_str());
                text::push_str(&mut r, " (dst) vs ");
                text::push_str(&mut r, text::u64_text(*s).as_str());
                text::push_str(&mut r, " (src)");
                r
            },
            FileCheck::SrcIsFileButTargetIsDir(p) => {
                let mut r = text::concat("Src is a file, but destination ", q(p).as_str());
                text::push_str(&mut r, " is a directory");
                r
            },
            FileCheck::SrcIsDirButTargetIsFile(p) => {
                let mut r = text::concat("Src is a directory, but destination ", q(p).as_str());
                text::push_str(&mut r, " is a file");
                r
            },
            FileCheck::HashDiffers(p, s, d) => {
                let mut r = text::concat("The hash of the file ", q(p).as_str());
                text::push_str(&mut r, " differs: ");
                text::push_str(&mut r, s.as_str());
                text::push_str(&mut r, " (src) vs ");
                text::push_str(&mut r, d.as_str());
                text::push_str(&mut r, " (dst)");
                r
            },
            FileCheck::FailedToGetMetadata(p, e) => {
                let mut r = text::concat("Failed to get metadata for the file ", q(p).as_str());
                text::push_str(&mut r, ", error was ");
                text::push_str(&mut r, e.as_str());
                r
            },
            FileCheck::FailedToAccessFile(p, e) => {
                let mut r = text::concat("Failed to access the file ", q(p).as_str());
                text::push_str(&mut r, ", error was ");
                text::push_str(&mut r, e.as_str());
                r
            },
            FileCheck::FailedToTraverseDir(p, e) => {
                let mut r = text::concat("Failed to traverse the directory ", q(p).as_str());
                text::push_str(&mut r, ", error was ");
                text::push_str(&mut r, e.as_str());
                r
            },
            FileCheck::FailedToHashFile(p, e) => {
                let mut r = text::concat("Failed to hash the file ", q(p).as_str());
                text::push_str(&mut r, ", error was ");
                text::push_str(&mut r, e.as_str());
                r
            },
            _ => text::owned("not checked yet"),
        }
    }
}


/// A placed link is reported good exactly when it is correct: the target
/// exists and is a symlink leading to the source, or a hard link whose
/// inode, like the source's, could be read and is the source's. An inode
/// mismatch is reported exactly when both inodes were read and differ, and a
/// missing target exactly when the target is found not to exist.
pub proof fn law_link_check_correct(
    link_type: LinkType,
    src: Seq<char>,
    dst: Seq<char>,
    exists: Result<bool, Seq<char>>,
    is_symlink: bool,
    resolved: Result<Seq<char>, Seq<char>>,
    dst_inode: Result<u64, Seq<char>>,
    src_inode: Result<u64, Seq<char>>,
    r: FileCheck,
)
    requires
        link_check_of(link_type, src, dst, exists, is_symlink, resolved, dst_inode, src_inode, r),
    ensures
        (r is Good) == (exists == Ok::<bool, Seq<char>>(true) && ((link_type == LinkType::Soft && is_symlink
            && resolved == Ok::<Seq<char>, Seq<char>>(src)) || (link_type == LinkType::Hard && dst_inode is Ok
            && src_inode is Ok && dst_inode->Ok_0 == src_inode->Ok_0))),
        (r is InodeMismatch) == (exists == Ok::<bool, Seq<char>>(true) && link_type == LinkType::Hard
            && dst_inode is Ok && src_inode is Ok && dst_inode->Ok_0 != src_inode->Ok_0),
        (r is DestinationDoesNotExist) == (exists == Ok::<bool, Seq<char>>(false)),
{
}

/// A copied file is reported good exactly when it is correct as far as the
/// check looks: target and source are files of the same size (read for
/// both) and the quick check was asked for; a size difference is reported
/// exactly when both sizes were read and differ.
pub proof fn law_copy_check_correct(
    src: Seq<char>,
    dst: Seq<char>,
    exists: Result<bool, Seq<char>>,
    dst_is_file: bool,
    src_is_file: bool,
    src_is_dir: bool,
    dst_len: Result<u64, Seq<char>>,
    src_len: Result<u64, Seq<char>>,
    quick: bool,
    r: FileCheck,
)
    requires
        copy_check_of(src, dst, exists, dst_is_file, src_is_file, src_is_dir, dst_len, src_len, quick, r),
    ensures
        dst_is_file ==> ((r is Good) == (exists == Ok::<bool, Seq<char>>(true) && src_is_file && quick
            && dst_len is Ok && src_len is Ok && dst_len->Ok_0 == src_len->Ok_0)),
        (r is SizeDiffers) == (exists == Ok::<bool, Seq<char>>(true) && dst_is_file && src_is_file && dst_len is Ok
            && src_len is Ok && dst_len->Ok_0 != src_len->Ok_0),
{
}

/// Compared by hash, a copy is good exactly when both hashes were computed
/// and are equal, and reported as differing exactly when both were computed
/// and differ.
pub proof fn law_hash_check_correct(
    src: Seq<char>,
    dst: Seq<char>,
    src_hash: Result<Seq<char>, Seq<char>>,
    dst_hash: Result<Seq<char>, Seq<char>>,
    r: FileCheck,
)
    requires
        hash_check_of(src, dst, src_hash, dst_hash, r),
    ensures
        (r is Good) == (src_hash is Ok && dst_hash is Ok && src_hash->Ok_0 == dst_hash->Ok_0),
        (r is HashDiffers) == (src_hash is Ok && dst_hash is Ok && src_hash->Ok_0 != dst_hash->Ok_0),
{
}

} // verus!
