use vstd::prelude::*;
use crate::fsplan::within;
use crate::paths::path_is_under;

verus! {

/// What a path names on disk, following symbolic links.
#[derive(Debug)]
pub enum PathKind {
    Directory,
    File,
    /// Nothing, or something that is neither a file nor a directory.
    Other,
}

/// How a path is to be removed.
#[derive(Debug)]
pub enum RemovalAction {
    /// Remove the directory and everything in it.
    RemoveTree,
    /// Remove the single file.
    RemoveFile,
}

/// Why a path is not removed.
#[derive(Debug)]
pub enum RemovalError {
    /// The path does not lie inside the workspace root.
    OutsideWorkspace,
    /// A folder was to be removed, but the path is not a directory.
    NotAFolder,
    /// A document was to be removed, but the path is not a file.
    NotAFile,
    /// A character was to be removed, but nothing removable is there.
    NotFound,
}

/// Refuses a canonical path that does not lie inside the canonical workspace
/// root (the root itself counts as inside).
pub fn ensure_within_workspace(abs_path: &str, root: &str) -> (r: Result<(), RemovalError>)
    ensures
        r.is_ok() <==> within(abs_path@, root@),
        r.is_err() ==> r matches Err(RemovalError::OutsideWorkspace),
{
    let a = String::from_str(abs_path);
    let b = String::from_str(root);
    if a == b {
        return Ok(());
    }
    if path_is_under(abs_path, root) {
        Ok(())
    } else {
        Err(RemovalError::OutsideWorkspace)
    }
}

/// Removing a folder path: only a directory, as a whole tree.
pub fn folder_removal(kind: PathKind) -> (r: Result<RemovalAction, RemovalError>)
    ensures
        kind is Directory ==> r matches Ok(RemovalAction::RemoveTree),
        !(kind is Directory) ==> r matches Err(RemovalError::NotAFolder),
{
    match kind {
        PathKind::Directory => Ok(RemovalAction::RemoveTree),
        _ => Err(RemovalError::NotAFolder),
    }
}

/// Removing a document path: only a file.
pub fn doc_removal(kind: PathKind) -> (r: Result<RemovalAction, RemovalError>)
    ensures
        kind is File ==> r matches Ok(RemovalAction::RemoveFile),
        !(kind is File) ==> r matches Err(RemovalError::NotAFile),
{
    match kind {
        PathKind::File => Ok(RemovalAction::RemoveFile),
        _ => Err(RemovalError::NotAFile),
    }
}

/// Removing a character path: a directory as a whole tree, or a single file.
pub fn character_removal(kind: PathKind) -> (r: Result<RemovalAction, RemovalError>)
    ensures
        kind is Directory ==> r matches Ok(RemovalAction::RemoveTree),
        kind is File ==> r matches Ok(RemovalAction::RemoveFile),
        kind is Other ==> r matches Err(RemovalError::NotFound),
{
    match kind {
        PathKind::Directory => Ok(RemovalAction::RemoveTree),
        PathKind::File => Ok(RemovalAction::RemoveFile),
        PathKind::Other => Err(RemovalError::NotFound),
    }
}

} // verus!
