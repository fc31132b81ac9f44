//! Whether a request may go ahead.
//!
//! A request names a path and says what is to be done with it. Before
//! anything is read or written, the path is resolved, the resolved path is
//! looked up among the approved ones, and what stands at the path is held
//! against what the request needs: a file to read, a folder to list, a
//! folder to write a new file into. The functions here decide; looking at
//! the disk is left to the caller, who hands in what it saw.

use vstd::prelude::*;
use crate::allowlist::{admitted, allows, is_path_allowed, resolution, verdict, Allowlist};
use crate::error::{AccessError, ParentFault, Refusal, Stage};
use crate::path::{
    is_canonical, law_parent_of_resolved, parent, parent_of, segments_of, CanonicalPath,
};

verus! {

/// What stands at a path.
#[derive(Debug, Clone, Copy, PartialEq, Eq, Structural)]
pub enum TargetKind {
    /// A regular file.
    File,
    /// A folder.
    Directory,
    /// Something else: a socket, a device.
    Other,
}

/// What a request wants done.
#[derive(Debug, Clone, Copy, PartialEq, Eq, Structural)]
pub enum Operation {
    /// Read a file that exists.
    ReadFile,
    /// Write a file, new or not, into a folder that exists.
    WriteFile,
    /// List a folder.
    ListDirectory,
}

/// A path and what is to be done with it.
pub struct AccessRequest {
    pub path: String,
    pub operation: Operation,
}

/// What asking for a path's kind came to: the kind, or what the operating
/// system said when it failed.
pub open spec fn inspection(kind: Result<TargetKind, String>) -> Result<TargetKind, Seq<char>> {
    match kind {
        Ok(kind) => Ok(kind),
        Err(detail) => Err(detail@),
    }
}

/// The decision on reading a file. `resolved` is what resolving `path`
/// came to, `kind` what stands at the resolved path.
pub open spec fn file_verdict(
    approved: Seq<Seq<Seq<char>>>,
    path: Seq<char>,
    resolved: Result<Seq<char>, Seq<char>>,
    kind: Result<TargetKind, Seq<char>>,
) -> Result<Seq<char>, Refusal> {
    match admitted(approved, path, resolved) {
        Ok(text) => match kind {
            Ok(TargetKind::File) => Ok(text),
            Ok(_) => Err(Refusal::NotAFile),
            Err(detail) => Err(Refusal::PathResolution { stage: Stage::FileMetadata, detail }),
        },
        Err(refusal) => Err(refusal),
    }
}

/// The decision on listing a folder. `resolved` is what resolving `path`
/// came to, `kind` what stands at the resolved path.
pub open spec fn directory_verdict(
    approved: Seq<Seq<Seq<char>>>,
    path: Seq<char>,
    resolved: Result<Seq<char>, Seq<char>>,
    kind: Result<TargetKind, Seq<char>>,
) -> Result<Seq<char>, Refusal> {
    match admitted(approved, path, resolved) {
        Ok(text) => match kind {
            Ok(TargetKind::Directory) => Ok(text),
            Ok(_) => Err(Refusal::NotADirectory),
            Err(detail) => Err(
                Refusal::PathResolution { stage: Stage::DirectoryMetadata, detail },
            ),
        },
        Err(refusal) => Err(refusal),
    }
}

/// The decision on writing a file that need not exist yet. It is made on
/// the folder that `path` lies in: `resolved` is what resolving that folder
/// came to, `kind` what stands there, with a failure read as "nothing".
/// What is let through is the folder's resolved path.
pub open spec fn write_verdict(
    approved: Seq<Seq<Seq<char>>>,
    path: Seq<char>,
    resolved: Result<Seq<char>, Seq<char>>,
    kind: Result<TargetKind, Seq<char>>,
) -> Result<Seq<char>, Refusal> {
    match parent_of(path) {
        Some(above) => match admitted(approved, above, resolved) {
            Ok(text) => match kind {
                Ok(TargetKind::Directory) => Ok(text),
                Ok(_) => Err(Refusal::InvalidParent { fault: ParentFault::NotADirectory }),
                Err(_) => Err(Refusal::InvalidParent { fault: ParentFault::Missing }),
            },
            Err(refusal) => Err(refusal),
        },
        None => Err(Refusal::InvalidParent { fault: ParentFault::NoParent }),
    }
}

/// The decision on a request, by what it wants done.
pub open spec fn request_verdict(
    approved: Seq<Seq<Seq<char>>>,
    operation: Operation,
    path: Seq<char>,
    resolved: Result<Seq<char>, Seq<char>>,
    kind: Result<TargetKind, Seq<char>>,
) -> Result<Seq<char>, Refusal> {
    match operation {
        Operation::ReadFile => file_verdict(approved, path, resolved, kind),
        Operation::WriteFile => write_verdict(approved, path, resolved, kind),
        Operation::ListDirectory => directory_verdict(approved, path, resolved, kind),
    }
}

/// Decides whether the file at `path` may be read. `resolved` is what
/// resolving `path` came to and `kind` what stands at the resolved path.
/// Gives the resolved path to read from.
pub fn validate_file_path(
    allowlist: &Allowlist,
    path: &str,
    resolved: &Result<String, String>,
    kind: &Result<TargetKind, String>,
) -> (outcome: Result<CanonicalPath, AccessError>)
    ensures
        verdict(outcome) == file_verdict(
            allowlist@,
            path@,
            resolution(*resolved),
            inspection(*kind),
        ),
        outcome matches Ok(canonical) ==> canonical@ == segments_of(canonical.text()),
{
    let canonical = match is_path_allowed(allowlist, path, resolved) {
        Ok(canonical) => canonical,
        Err(refusal) => {
            return Err(refusal);
        },
    };
    match kind {
        Ok(TargetKind::File) => Ok(canonical),
        Ok(_) => Err(AccessError::NotAFile),
        Err(detail) => Err(
            AccessError::PathResolution { stage: Stage::FileMetadata, detail: detail.clone() },
        ),
    }
}

/// Decides whether the folder at `path` may be listed. `resolved` is what
/// resolving `path` came to and `kind` what stands at the resolved path.
/// Gives the resolved path to list.
pub fn validate_read_dir(
    allowlist: &Allowlist,
    path: &str,
    resolved: &Result<String, String>,
    kind: &Result<TargetKind, String>,
) -> (outcome: Result<CanonicalPath, AccessError>)
    ensures
        verdict(outcome) == directory_verdict(
            allowlist@,
            path@,
            resolution(*resolved),
            inspection(*kind),
        ),
        outcome matches Ok(canonical) ==> canonical@ == segments_of(canonical.text()),
{
    let canonical = match is_path_allowed(allowlist, path, resolved) {
        Ok(canonical) => canonical,
        Err(refusal) => {
            return Err(refusal);
        },
    };
    match kind {
        Ok(TargetKind::Directory) => Ok(canonical),
        Ok(_) => Err(AccessError::NotADirectory),
        Err(detail) => Err(
            AccessError::PathResolution { stage: Stage::DirectoryMetadata, detail: detail.clone() },
        ),
    }
}

/// Decides whether a file may be written at `path`, where none need exist
/// yet. The decision is made on the folder that `path` lies in, which
/// `parent` gives: `resolved` is what resolving that folder came to and
/// `kind` what stands there. Gives the folder's resolved path.
pub fn validate_write_path(
    allowlist: &Allowlist,
    path: &str,
    resolved: &Result<String, String>,
    kind: &Result<TargetKind, String>,
) -> (outcome: Result<CanonicalPath, AccessError>)
    ensures
        verdict(outcome) == write_verdict(
            allowlist@,
            path@,
            resolution(*resolved),
            inspection(*kind),
        ),
        outcome matches Ok(canonical) ==> canonical@ == segments_of(canonical.text()),
{
    let above = match parent(path) {
        Some(above) => above,
        None => {
            return Err(AccessError::InvalidParent { fault: ParentFault::NoParent });
        },
    };
    let canonical = match is_path_allowed(allowlist, above.as_str(), resolved) {
        Ok(canonical) => canonical,
        Err(refusal) => {
            return Err(refusal);
        },
    };
    match kind {
        Ok(TargetKind::Directory) => Ok(canonical),
        Ok(_) => Err(AccessError::InvalidParent { fault: ParentFault::NotADirectory }),
        Err(_) => Err(AccessError::InvalidParent { fault: ParentFault::Missing }),
    }
}

/// Decides on a request. What `resolved` and `kind` are about depends on
/// what the request wants done: for a file to write they are about the
/// folder it lies in, else about the path itself.
pub fn validate(
    allowlist: &Allowlist,
    request: &AccessRequest,
    resolved: &Result<String, String>,
    kind: &Result<TargetKind, String>,
) -> (outcome: Result<CanonicalPath, AccessError>)
    ensures
        verdict(outcome) == request_verdict(
            allowlist@,
            request.operation,
            request.path@,
            resolution(*resolved),
            inspection(*kind),
        ),
        outcome matches Ok(canonical) ==> canonical@ == segments_of(canonical.text()),
{
    match request.operation {
        Operation::ReadFile => validate_file_path(allowlist, request.path.as_str(), resolved, kind),
        Operation::WriteFile => validate_write_path(
            allowlist,
            request.path.as_str(),
            resolved,
            kind,
        ),
        Operation::ListDirectory => validate_read_dir(
            allowlist,
            request.path.as_str(),
            resolved,
            kind,
        ),
    }
}

/// No request goes ahead on a path that no approval covers: whatever is
/// let through is the resolved path that was handed in, it is in resolved
/// form, and an approved path is it or lies above it.
pub proof fn law_nothing_passes_unapproved(
    approved: Seq<Seq<Seq<char>>>,
    operation: Operation,
    path: Seq<char>,
    resolved: Result<Seq<char>, Seq<char>>,
    kind: Result<TargetKind, Seq<char>>,
)
    requires
        request_verdict(approved, operation, path, resolved, kind) is Ok,
    ensures
        resolved == Ok::<Seq<char>, Seq<char>>(
            request_verdict(approved, operation, path, resolved, kind)->Ok_0,
        ),
        is_canonical(resolved->Ok_0),
        allows(approved, segments_of(resolved->Ok_0)),
{
}

/// Reading a path that resolves and that no approval covers is refused
/// for want of approval, whatever stands at the path and whether or not
/// anything does.
pub proof fn law_unapproved_read_is_denied(
    approved: Seq<Seq<Seq<char>>>,
    path: Seq<char>,
    text: Seq<char>,
    kind: Result<TargetKind, Seq<char>>,
)
    requires
        is_canonical(text),
        !allows(approved, segments_of(text)),
    ensures
        file_verdict(approved, path, Ok(text), kind) == Err::<Seq<char>, Refusal>(
            Refusal::AccessDenied { path },
        ),
{
}

/// Reading an approved path at which a folder stands is refused: it is not
/// a file.
pub proof fn law_read_of_folder_is_refused(
    approved: Seq<Seq<Seq<char>>>,
    path: Seq<char>,
    text: Seq<char>,
)
    requires
        is_canonical(text),
        allows(approved, segments_of(text)),
    ensures
        file_verdict(approved, path, Ok(text), Ok(TargetKind::Directory)) == Err::<
            Seq<char>,
            Refusal,
        >(Refusal::NotAFile),
{
}

/// Reading a file at or below an approved path goes ahead.
pub proof fn law_approved_file_is_read(
    approved: Seq<Seq<Seq<char>>>,
    path: Seq<char>,
    text: Seq<char>,
)
    requires
        is_canonical(text),
        allows(approved, segments_of(text)),
    ensures
        file_verdict(approved, path, Ok(text), Ok(TargetKind::File)) == Ok::<Seq<char>, Refusal>(
            text,
        ),
{
}

/// A file may be written into a folder that exists at or below an approved
/// path, whether or not the file exists.
pub proof fn law_write_into_approved_folder(
    approved: Seq<Seq<Seq<char>>>,
    path: Seq<char>,
    folder: Seq<char>,
)
    requires
        parent_of(path) is Some,
        is_canonical(folder),
        allows(approved, segments_of(folder)),
    ensures
        write_verdict(approved, path, Ok(folder), Ok(TargetKind::Directory)) == Ok::<
            Seq<char>,
            Refusal,
        >(folder),
{
}

/// A file may be written under a new name right inside a folder that is
/// approved or lies below an approved one: for a path in resolved form,
/// the folder it lies in is the path of its names but the last, and where
/// that folder is covered and exists the write goes ahead.
pub proof fn law_new_file_below_approved_folder(approved: Seq<Seq<Seq<char>>>, path: Seq<char>)
    requires
        is_canonical(path),
        path.len() > 1,
        allows(approved, segments_of(path).drop_last()),
    ensures
        parent_of(path) is Some,
        write_verdict(approved, path, Ok(parent_of(path)->0), Ok(TargetKind::Directory)) == Ok::<
            Seq<char>,
            Refusal,
        >(parent_of(path)->0),
{
    law_parent_of_resolved(path);
}

} // verus!
