use editor_access::allowlist::{approve_path, Allowlist};
use editor_access::error::{AccessError, ParentFault, Stage};
use editor_access::path::CanonicalPath;
use editor_access::validate::{
    validate, validate_file_path, validate_read_dir, validate_write_path, AccessRequest,
    Operation, TargetKind,
};

fn resolved(text: &str) -> Result<String, String> {
    Ok(text.to_string())
}

fn failed(detail: &str) -> Result<String, String> {
    Err(detail.to_string())
}

fn project() -> Allowlist {
    let mut store = Allowlist::new();
    assert_eq!(approve_path(&mut store, &resolved("/home/u/project")), Ok(()));
    store
}

fn text_of(outcome: Result<CanonicalPath, AccessError>) -> Result<String, AccessError> {
    outcome.map(|path| path.as_str().to_string())
}

#[test]
fn read_of_approved_file_succeeds() {
    let store = project();
    let outcome = validate_file_path(
        &store,
        "/home/u/project/src/main.txt",
        &resolved("/home/u/project/src/main.txt"),
        &Ok(TargetKind::File),
    );
    assert_eq!(text_of(outcome), Ok("/home/u/project/src/main.txt".to_string()));
}

#[test]
fn read_without_approval_is_denied() {
    let store = Allowlist::new();
    let outcome = validate_file_path(
        &store,
        "/home/u/project/src/main.txt",
        &resolved("/home/u/project/src/main.txt"),
        &Ok(TargetKind::File),
    );
    assert_eq!(
        text_of(outcome),
        Err(AccessError::AccessDenied { path: "/home/u/project/src/main.txt".to_string() })
    );
}

#[test]
fn read_outside_the_approved_folder_is_denied_whatever_stands_there() {
    let store = project();
    let kinds: [Result<TargetKind, String>; 4] = [
        Ok(TargetKind::File),
        Ok(TargetKind::Directory),
        Ok(TargetKind::Other),
        Err("gone".to_string()),
    ];
    for kind in kinds {
        let outcome = validate_file_path(&store, "/etc/passwd", &resolved("/etc/passwd"), &kind);
        assert_eq!(
            text_of(outcome),
            Err(AccessError::AccessDenied { path: "/etc/passwd".to_string() })
        );
    }
}

#[test]
fn read_of_sibling_with_shared_prefix_is_denied() {
    let store = project();
    let outcome = validate_file_path(
        &store,
        "/home/u/project2/secret",
        &resolved("/home/u/project2/secret"),
        &Ok(TargetKind::File),
    );
    assert_eq!(
        text_of(outcome),
        Err(AccessError::AccessDenied { path: "/home/u/project2/secret".to_string() })
    );
}

#[test]
fn read_through_a_link_that_leaves_the_folder_is_denied() {
    let store = project();
    let outcome = validate_file_path(
        &store,
        "/home/u/project/link",
        &resolved("/etc/passwd"),
        &Ok(TargetKind::File),
    );
    assert_eq!(
        text_of(outcome),
        Err(AccessError::AccessDenied { path: "/home/u/project/link".to_string() })
    );
}

#[test]
fn read_of_approved_directory_is_not_a_file() {
    let store = project();
    let outcome = validate_file_path(
        &store,
        "/home/u/project",
        &resolved("/home/u/project"),
        &Ok(TargetKind::Directory),
    );
    assert_eq!(text_of(outcome), Err(AccessError::NotAFile));
}

#[test]
fn read_of_something_else_is_not_a_file() {
    let store = project();
    let outcome = validate_file_path(
        &store,
        "/home/u/project/socket",
        &resolved("/home/u/project/socket"),
        &Ok(TargetKind::Other),
    );
    assert_eq!(text_of(outcome), Err(AccessError::NotAFile));
}

#[test]
fn read_of_unresolvable_path_is_reported() {
    let store = project();
    let outcome = validate_file_path(
        &store,
        "/home/u/project/missing",
        &failed("No such file or directory (os error 2)"),
        &Ok(TargetKind::File),
    );
    assert_eq!(
        text_of(outcome),
        Err(AccessError::PathResolution {
            stage: Stage::Resolve,
            detail: "No such file or directory (os error 2)".to_string(),
        })
    );
}

#[test]
fn read_of_file_that_vanished_before_the_look_is_reported() {
    let store = project();
    let outcome = validate_file_path(
        &store,
        "/home/u/project/a",
        &resolved("/home/u/project/a"),
        &Err("vanished".to_string()),
    );
    assert_eq!(
        text_of(outcome),
        Err(AccessError::PathResolution {
            stage: Stage::FileMetadata,
            detail: "vanished".to_string(),
        })
    );
}

#[test]
fn list_of_approved_directory_succeeds() {
    let store = project();
    let outcome = validate_read_dir(
        &store,
        "/home/u/project",
        &resolved("/home/u/project"),
        &Ok(TargetKind::Directory),
    );
    assert_eq!(text_of(outcome), Ok("/home/u/project".to_string()));
}

#[test]
fn list_of_file_is_not_a_directory() {
    let store = project();
    let outcome = validate_read_dir(
        &store,
        "/home/u/project/readme.md",
        &resolved("/home/u/project/readme.md"),
        &Ok(TargetKind::File),
    );
    assert_eq!(text_of(outcome), Err(AccessError::NotADirectory));
}

#[test]
fn list_without_approval_is_denied() {
    let store = project();
    let outcome =
        validate_read_dir(&store, "/home/u", &resolved("/home/u"), &Ok(TargetKind::Directory));
    assert_eq!(text_of(outcome), Err(AccessError::AccessDenied { path: "/home/u".to_string() }));
}

#[test]
fn list_of_directory_that_vanished_is_reported() {
    let store = project();
    let outcome = validate_read_dir(
        &store,
        "/home/u/project/src",
        &resolved("/home/u/project/src"),
        &Err("vanished".to_string()),
    );
    assert_eq!(
        text_of(outcome),
        Err(AccessError::PathResolution {
            stage: Stage::DirectoryMetadata,
            detail: "vanished".to_string(),
        })
    );
}

#[test]
fn write_of_new_file_in_approved_folder_succeeds() {
    let store = project();
    let outcome = validate_write_path(
        &store,
        "/home/u/project/new.txt",
        &resolved("/home/u/project"),
        &Ok(TargetKind::Directory),
    );
    assert_eq!(text_of(outcome), Ok("/home/u/project".to_string()));
}

#[test]
fn write_outside_approved_folder_names_the_parent() {
    let store = project();
    let outcome = validate_write_path(
        &store,
        "/home/u/other/new.txt",
        &resolved("/home/u/other"),
        &Ok(TargetKind::Directory),
    );
    assert_eq!(
        text_of(outcome),
        Err(AccessError::AccessDenied { path: "/home/u/other".to_string() })
    );
}

#[test]
fn write_without_parent_is_invalid() {
    let store = project();
    for path in ["/", ""] {
        let outcome =
            validate_write_path(&store, path, &resolved("/"), &Ok(TargetKind::Directory));
        assert_eq!(
            text_of(outcome),
            Err(AccessError::InvalidParent { fault: ParentFault::NoParent })
        );
    }
}

#[test]
fn write_into_missing_parent_is_invalid() {
    let store = project();
    let outcome = validate_write_path(
        &store,
        "/home/u/project/sub/new.txt",
        &resolved("/home/u/project/sub"),
        &Err("gone".to_string()),
    );
    assert_eq!(text_of(outcome), Err(AccessError::InvalidParent { fault: ParentFault::Missing }));
}

#[test]
fn write_into_parent_that_is_a_file_is_invalid() {
    let store = project();
    let outcome = validate_write_path(
        &store,
        "/home/u/project/readme.md/new.txt",
        &resolved("/home/u/project/readme.md"),
        &Ok(TargetKind::File),
    );
    assert_eq!(
        text_of(outcome),
        Err(AccessError::InvalidParent { fault: ParentFault::NotADirectory })
    );
}

#[test]
fn write_with_unresolvable_parent_is_reported() {
    let store = project();
    let outcome = validate_write_path(
        &store,
        "/home/u/project/sub/new.txt",
        &failed("No such file or directory (os error 2)"),
        &Err("gone".to_string()),
    );
    assert_eq!(
        text_of(outcome),
        Err(AccessError::PathResolution {
            stage: Stage::Resolve,
            detail: "No such file or directory (os error 2)".to_string(),
        })
    );
}

#[test]
fn validate_goes_by_the_operation() {
    let store = project();
    let read = AccessRequest {
        path: "/home/u/project/a.txt".to_string(),
        operation: Operation::ReadFile,
    };
    let outcome =
        validate(&store, &read, &resolved("/home/u/project/a.txt"), &Ok(TargetKind::File));
    assert_eq!(text_of(outcome), Ok("/home/u/project/a.txt".to_string()));
    let outcome =
        validate(&store, &read, &resolved("/home/u/project/a.txt"), &Ok(TargetKind::Directory));
    assert_eq!(text_of(outcome), Err(AccessError::NotAFile));

    let list =
        AccessRequest { path: "/home/u/project".to_string(), operation: Operation::ListDirectory };
    let outcome =
        validate(&store, &list, &resolved("/home/u/project"), &Ok(TargetKind::Directory));
    assert_eq!(text_of(outcome), Ok("/home/u/project".to_string()));
    let outcome = validate(&store, &list, &resolved("/home/u/project"), &Ok(TargetKind::File));
    assert_eq!(text_of(outcome), Err(AccessError::NotADirectory));

    let write = AccessRequest {
        path: "/home/u/project/new.txt".to_string(),
        operation: Operation::WriteFile,
    };
    let outcome =
        validate(&store, &write, &resolved("/home/u/project"), &Ok(TargetKind::Directory));
    assert_eq!(text_of(outcome), Ok("/home/u/project".to_string()));
    let outcome = validate(&store, &write, &resolved("/home/u/project"), &Ok(TargetKind::File));
    assert_eq!(
        text_of(outcome),
        Err(AccessError::InvalidParent { fault: ParentFault::NotADirectory })
    );
}

#[test]
fn validation_leaves_the_store_as_it_was() {
    let store = project();
    let _ = validate_file_path(&store, "/x", &resolved("/x"), &Ok(TargetKind::File));
    assert_eq!(store.len(), 1);
    assert!(store.is_allowed(&CanonicalPath::parse("/home/u/project/a").unwrap()));
}
