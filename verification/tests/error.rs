use editor_access::error::{AccessError, IoStep, ParentFault, Stage};

#[test]
fn every_refusal_has_its_sentence() {
    let cases = [
        (
            AccessError::PathResolution { stage: Stage::Resolve, detail: "gone".to_string() },
            "Cannot resolve path: gone",
        ),
        (
            AccessError::PathResolution { stage: Stage::FileMetadata, detail: "gone".to_string() },
            "Cannot access file metadata: gone",
        ),
        (
            AccessError::PathResolution {
                stage: Stage::DirectoryMetadata,
                detail: "gone".to_string(),
            },
            "Cannot access directory metadata: gone",
        ),
        (
            AccessError::AccessDenied { path: "/etc/passwd".to_string() },
            "Access denied: /etc/passwd not in approved paths. User must open file/folder first.",
        ),
        (AccessError::NotAFile, "Path is not a regular file"),
        (AccessError::NotADirectory, "Path is not a directory"),
        (
            AccessError::InvalidParent { fault: ParentFault::NoParent },
            "Invalid file path (no parent directory)",
        ),
        (
            AccessError::InvalidParent { fault: ParentFault::Missing },
            "Parent directory does not exist",
        ),
        (
            AccessError::InvalidParent { fault: ParentFault::NotADirectory },
            "Parent path is not a directory",
        ),
        (
            AccessError::ReadError { step: IoStep::Read, detail: "denied".to_string() },
            "Failed to read file: denied",
        ),
        (
            AccessError::ReadError { step: IoStep::Metadata, detail: "denied".to_string() },
            "Failed to get metadata: denied",
        ),
        (
            AccessError::ReadError { step: IoStep::Save, detail: "denied".to_string() },
            "Failed to save file: denied",
        ),
        (
            AccessError::ReadError { step: IoStep::Decode, detail: "klingon".to_string() },
            "Failed to decode file as klingon",
        ),
        (AccessError::LockPoisoned, "Allowlist lock poisoned"),
    ];
    for (refusal, sentence) in cases {
        assert_eq!(refusal.message(), sentence);
    }
}

#[test]
fn denial_reads_differently_from_a_failure_to_read() {
    let denied = AccessError::AccessDenied { path: "/a".to_string() }.message();
    let unread = AccessError::ReadError { step: IoStep::Read, detail: "/a".to_string() }.message();
    assert_ne!(denied, unread);
    assert!(denied.contains("/a"));
}
