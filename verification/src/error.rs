//! Why a request was refused.

use vstd::prelude::*;
use vstd::string::*;

verus! {

/// The step at which the operating system could not say what a path is.
#[derive(Debug, Clone, Copy, PartialEq, Eq, Structural)]
pub enum Stage {
    /// Following the path to its resolved form.
    Resolve,
    /// Asking what the resolved path is, where a file was expected.
    FileMetadata,
    /// Asking what the resolved path is, where a folder was expected.
    DirectoryMetadata,
}

/// What is wrong with the folder that a new file was to be written into.
#[derive(Debug, Clone, Copy, PartialEq, Eq, Structural)]
pub enum ParentFault {
    /// The path has no folder above it.
    NoParent,
    /// The folder does not exist.
    Missing,
    /// What stands there is not a folder.
    NotADirectory,
}

/// The input or output step that failed after the request had been allowed.
#[derive(Debug, Clone, Copy, PartialEq, Eq, Structural)]
pub enum IoStep {
    /// Reading the file's bytes.
    Read,
    /// Asking for the file's size.
    Metadata,
    /// Writing the file's bytes.
    Save,
    /// Turning the file's bytes into text.
    Decode,
}

/// A refused request.
#[derive(Debug, PartialEq, Eq)]
pub enum AccessError {
    /// The path could not be resolved: it does not exist, a link dangles,
    /// or the operating system refused to look. `detail` is what the
    /// operating system said.
    PathResolution { stage: Stage, detail: String },
    /// No approved folder contains the path. `path` is the path as it was
    /// asked for.
    AccessDenied { path: String },
    /// A file was asked for and the path is something else.
    NotAFile,
    /// A folder was asked for and the path is something else.
    NotADirectory,
    /// The folder that the file was to be written into cannot take it.
    InvalidParent { fault: ParentFault },
    /// Reading or writing failed although the request was allowed.
    ReadError { step: IoStep, detail: String },
    /// The lock around the approved folders was left poisoned.
    LockPoisoned,
}

/// A refused request, with its texts as sequences of characters.
pub enum Refusal {
    PathResolution { stage: Stage, detail: Seq<char> },
    AccessDenied { path: Seq<char> },
    NotAFile,
    NotADirectory,
    InvalidParent { fault: ParentFault },
    ReadError { step: IoStep, detail: Seq<char> },
    LockPoisoned,
}

impl View for AccessError {
    type V = Refusal;

    open spec fn view(&self) -> Refusal {
        match *self {
            AccessError::PathResolution { stage, detail } => Refusal::PathResolution {
                stage,
                detail: detail@,
            },
            AccessError::AccessDenied { path } => Refusal::AccessDenied { path: path@ },
            AccessError::NotAFile => Refusal::NotAFile,
            AccessError::NotADirectory => Refusal::NotADirectory,
            AccessError::InvalidParent { fault } => Refusal::InvalidParent { fault },
            AccessError::ReadError { step, detail } => Refusal::ReadError { step, detail: detail@ },
            AccessError::LockPoisoned => Refusal::LockPoisoned,
        }
    }
}

impl Refusal {
    /// The sentence shown to the user. It names the path or the reason, so
    /// that a refusal reads differently from a failure to read.
    pub open spec fn message(self) -> Seq<char> {
        match self {
            Refusal::PathResolution { stage: Stage::Resolve, detail } => "Cannot resolve path: "@
                + detail,
            Refusal::PathResolution { stage: Stage::FileMetadata, detail } =>
                "Cannot access file metadata: "@ + detail,
            Refusal::PathResolution { stage: Stage::DirectoryMetadata, detail } =>
                "Cannot access directory metadata: "@ + detail,
            Refusal::AccessDenied { path } => "Access denied: "@ + path
                + " not in approved paths. User must open file/folder first."@,
            Refusal::NotAFile => "Path is not a regular file"@,
            Refusal::NotADirectory => "Path is not a directory"@,
            Refusal::InvalidParent { fault: ParentFault::NoParent } =>
                "Invalid file path (no parent directory)"@,
            Refusal::InvalidParent { fault: ParentFault::Missing } =>
                "Parent directory does not exist"@,
            Refusal::InvalidParent { fault: ParentFault::NotADirectory } =>
                "Parent path is not a directory"@,
            Refusal::ReadError { step: IoStep::Read, detail } => "Failed to read file: "@ + detail,
            Refusal::ReadError { step: IoStep::Metadata, detail } => "Failed to get metadata: "@
                + detail,
            Refusal::ReadError { step: IoStep::Save, detail } => "Failed to save file: "@ + detail,
            Refusal::ReadError { step: IoStep::Decode, detail } => "Failed to decode file as "@
                + detail,
            Refusal::LockPoisoned => "Allowlist lock poisoned"@,
        }
    }
}

/// `head` followed by `tail`.
fn sentence(head: &str, tail: &str) -> (text: String)
    ensures
        text@ == head@ + tail@,
{
    let mut text = String::from_str(head);
    text.append(tail);
    text
}

impl AccessError {
    /// The sentence shown to the user.
    pub fn message(&self) -> (text: String)
        ensures
            text@ == self@.message(),
    {
        match self {
            AccessError::PathResolution { stage, detail } => match stage {
                Stage::Resolve => sentence("Cannot resolve path: ", detail.as_str()),
                Stage::FileMetadata => sentence("Cannot access file metadata: ", detail.as_str()),
                Stage::DirectoryMetadata => sentence(
                    "Cannot access directory metadata: ",
                    detail.as_str(),
                ),
            },
            AccessError::AccessDenied { path } => {
                let mut text = sentence("Access denied: ", path.as_str());
                text.append(" not in approved paths. User must open file/folder first.");
                text
            },
            AccessError::NotAFile => String::from_str("Path is not a regular file"),
            AccessError::NotADirectory => String::from_str("Path is not a directory"),
            AccessError::InvalidParent { fault } => match fault {
                ParentFault::NoParent => String::from_str(
                    "Invalid file path (no parent directory)",
                ),
                ParentFault::Missing => String::from_str("Parent directory does not exist"),
                ParentFault::NotADirectory => String::from_str("Parent path is not a directory"),
            },
            AccessError::ReadError { step, detail } => match step {
                IoStep::Read => sentence("Failed to read file: ", detail.as_str()),
                IoStep::Metadata => sentence("Failed to get metadata: ", detail.as_str()),
                IoStep::Save => sentence("Failed to save file: ", detail.as_str()),
                IoStep::Decode => sentence("Failed to decode file as ", detail.as_str()),
            },
            AccessError::LockPoisoned => String::from_str("Allowlist lock poisoned"),
        }
    }
}

} // verus!
