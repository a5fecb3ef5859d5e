//! Decisions of file operations: what placing a link does with what is
//! already at its target.
use crate::config::FallbackOperation;
use crate::errors::FileOpsError;
use crate::text;
use vstd::prelude::*;

verus! {

/// What `Path::file_name` gives for a path.
pub uninterp spec fn file_name(path: Seq<char>) -> Option<Seq<char>>;

/// What `Path::with_file_name` gives for a path and a file name.
pub uninterp spec fn with_file_name(path: Seq<char>, name: Seq<char>) -> Seq<char>;

/// `Path::file_name` on a string path, the result as a string.
#[verifier::external_body]
pub(crate) fn path_file_name(path: &str) -> (r: Option<String>)
    ensures
        match r {
            Some(s) => file_name(path@) == Some(s@),
            None => file_name(path@) is None,
        },
{
    std::path::Path::new(path).file_name().map(|n| n.to_string_lossy().to_string())
}

/// `Path::with_file_name` on string paths, the result as a string.
#[verifier::external_body]
fn path_with_file_name(path: &str, name: &str) -> (r: String)
    ensures
        r@ == with_file_name(path@, name@),
{
    std::path::Path::new(path).with_file_name(name).to_string_lossy().to_string()
}

/// The backup of a target: its file name with `.bak` appended, beside it;
/// none where the path has no file name.
pub open spec fn backup_of(dst: Seq<char>) -> Option<Seq<char>> {
    match file_name(dst) {
        Some(n) => Some(with_file_name(dst, n + ".bak"@)),
        None => None,
    }
}

/// The path a target is moved to as a backup (see `backup_of`).
pub fn backup_path(dst: &str) -> (r: Option<String>)
    ensures
        match r {
            Some(b) => backup_of(dst@) == Some(b@),
            None => backup_of(dst@) is None,
        },
{
    match path_file_name(dst) {
        Some(n) => {
            let name = text::concat(n.as_str(), ".bak");
            Some(path_with_file_name(dst, name.as_str()))
        },
        None => None,
    }
}

/// What is at the target of a link before it is placed: whether something
/// exists there (a broken symbolic link counts), whether it is a directory,
/// and whether its backup path is taken.
#[derive(Debug)]
pub struct TargetState {
    pub exists: bool,
    pub is_dir: bool,
    pub backup_exists: bool,
}

/// What to do with the target before the link is placed.
#[derive(Debug)]
pub enum ClearOp {
    Nothing,
    Rename(String),
    RemoveDir,
    RemoveFile,
    RemoveDirAll,
}

/// The next step of placing a link.
#[derive(Debug)]
pub enum LinkStep {
    Fail(FileOpsError),
    Finish,
    Proceed(ClearOp),
}

/// Decides how to place a link from `src` to `dst` (both canonical where
/// they exist): a missing source fails; a free target is linked; a target
/// that is the source is left as it is; otherwise the fallback decides:
/// abort fails, backup moves the target to its backup unless that is
/// taken, backup-overwrite moves it there regardless, delete removes the
/// file or empty directory, delete-dir removes the file or the whole
/// directory, ignore leaves it.
pub fn link_step(
    src: &str,
    dst: &str,
    src_exists: bool,
    target: &TargetState,
    fallback: &FallbackOperation,
    backup: &Option<String>,
) -> (r: LinkStep)
    requires
        src_exists && target.exists && src@ != dst@ && (*fallback == FallbackOperation::Backup || *fallback
            == FallbackOperation::BackupOverwrite) ==> backup is Some,
    ensures
        !src_exists ==> (r matches LinkStep::Fail(FileOpsError::SourceNotFound(s)) && s@ == src@),
        src_exists && !target.exists ==> r matches LinkStep::Proceed(ClearOp::Nothing),
        src_exists && target.exists && src@ == dst@ ==> r is Finish,
        src_exists && target.exists && src@ != dst@ ==> match *fallback {
            FallbackOperation::Abort => r matches LinkStep::Fail(FileOpsError::DestinationExists(d)) && d@ == dst@,
            FallbackOperation::Backup => if target.backup_exists {
                r matches LinkStep::Fail(FileOpsError::BackupAlreadyExists(d)) && d@ == dst@
            } else {
                r matches LinkStep::Proceed(ClearOp::Rename(b)) && Some(b) == *backup
            },
            FallbackOperation::BackupOverwrite => r matches LinkStep::Proceed(ClearOp::Rename(b)) && Some(b)
                == *backup,
            FallbackOperation::Delete => if target.is_dir {
                r matches LinkStep::Proceed(ClearOp::RemoveDir)
            } else {
                r matches LinkStep::Proceed(ClearOp::RemoveFile)
            },
            FallbackOperation::DeleteDir => if target.is_dir {
                r matches LinkStep::Proceed(ClearOp::RemoveDirAll)
            } else {
                r matches LinkStep::Proceed(ClearOp::RemoveFile)
            },
            FallbackOperation::Ignore => r is Finish,
        },
{
    if !src_exists {
        return LinkStep::Fail(FileOpsError::SourceNotFound(text::owned(src)));
    }
    if !target.exists {
        return LinkStep::Proceed(ClearOp::Nothing);
    }
    if text::str_eq(src, dst) {
        return LinkStep::Finish;
    }
    match fallback {
        FallbackOperation::Abort => LinkStep::Fail(FileOpsError::DestinationExists(text::owned(dst))),
        FallbackOperation::Backup => {
            if target.backup_exists {
                LinkStep::Fail(FileOpsError::BackupAlreadyExists(text::owned(dst)))
            } else {
                match backup {
                    Some(b) => LinkStep::Proceed(ClearOp::Rename(b.clone())),
                    None => LinkStep::Finish,
                }
            }
        },
        FallbackOperation::BackupOverwrite => match backup {
            Some(b) => LinkStep::Proceed(ClearOp::Rename(b.clone())),
            None => LinkStep::Finish,
        },
        FallbackOperation::Delete => {
            if target.is_dir {
                LinkStep::Proceed(ClearOp::RemoveDir)
            } else {
                LinkStep::Proceed(ClearOp::RemoveFile)
            }
        },
        FallbackOperation::DeleteDir => {
            if target.is_dir {
                LinkStep::Proceed(ClearOp::RemoveDirAll)
            } else {
                LinkStep::Proceed(ClearOp::RemoveFile)
            }
        },
        FallbackOperation::Ignore => LinkStep::Finish,
    }
}

} // verus!
