use editor_access::allowlist::{approve_path, clear_approved_paths, is_path_allowed, Allowlist};
use editor_access::error::{AccessError, Stage};
use editor_access::path::CanonicalPath;

fn resolved(text: &str) -> Result<String, String> {
    Ok(text.to_string())
}

fn canonical(text: &str) -> CanonicalPath {
    CanonicalPath::parse(text).expect("a resolved path")
}

#[test]
fn new_store_allows_nothing() {
    let store = Allowlist::new();
    assert_eq!(store.len(), 0);
    assert!(!store.is_allowed(&canonical("/")));
    assert!(!store.is_allowed(&canonical("/home/u/project")));
}

#[test]
fn approved_path_is_allowed() {
    let mut store = Allowlist::new();
    store.approve(canonical("/home/u/project"));
    assert!(store.is_allowed(&canonical("/home/u/project")));
}

#[test]
fn descendants_of_approved_path_are_allowed() {
    let mut store = Allowlist::new();
    store.approve(canonical("/home/u/project"));
    assert!(store.is_allowed(&canonical("/home/u/project/src")));
    assert!(store.is_allowed(&canonical("/home/u/project/src/main.txt")));
}

#[test]
fn ancestors_of_approved_path_are_refused() {
    let mut store = Allowlist::new();
    store.approve(canonical("/home/u/project"));
    assert!(!store.is_allowed(&canonical("/home/u")));
    assert!(!store.is_allowed(&canonical("/home")));
    assert!(!store.is_allowed(&canonical("/")));
}

#[test]
fn sibling_sharing_a_string_prefix_is_refused() {
    let mut store = Allowlist::new();
    store.approve(canonical("/a/b"));
    assert!(store.is_allowed(&canonical("/a/b")));
    assert!(store.is_allowed(&canonical("/a/b/c")));
    assert!(!store.is_allowed(&canonical("/a/bb")));
    assert!(!store.is_allowed(&canonical("/a/bb/c")));
    assert!(!store.is_allowed(&canonical("/a/b.txt")));
    assert!(!store.is_allowed(&canonical("/a/c")));
}

#[test]
fn approved_root_allows_everything() {
    let mut store = Allowlist::new();
    store.approve(canonical("/"));
    assert!(store.is_allowed(&canonical("/")));
    assert!(store.is_allowed(&canonical("/etc/hosts")));
}

#[test]
fn any_of_several_approvals_allows() {
    let mut store = Allowlist::new();
    store.approve(canonical("/a/b"));
    store.approve(canonical("/x/y"));
    assert_eq!(store.len(), 2);
    assert!(store.is_allowed(&canonical("/a/b/1")));
    assert!(store.is_allowed(&canonical("/x/y/2")));
    assert!(!store.is_allowed(&canonical("/x/z")));
}

#[test]
fn duplicate_approvals_are_kept_and_harmless() {
    let mut store = Allowlist::new();
    store.approve(canonical("/a/b"));
    store.approve(canonical("/a/b"));
    assert_eq!(store.len(), 2);
    assert!(store.is_allowed(&canonical("/a/b/c")));
    assert!(!store.is_allowed(&canonical("/a/bb")));
}

#[test]
fn clear_refuses_every_previously_approved_path() {
    let mut store = Allowlist::new();
    store.approve(canonical("/a/b"));
    store.approve(canonical("/x"));
    store.clear();
    assert_eq!(store.len(), 0);
    assert!(!store.is_allowed(&canonical("/a/b")));
    assert!(!store.is_allowed(&canonical("/a/b/c")));
    assert!(!store.is_allowed(&canonical("/x")));
}

#[test]
fn clear_approved_paths_empties_the_store() {
    let mut store = Allowlist::new();
    assert_eq!(approve_path(&mut store, &resolved("/home/u/project")), Ok(()));
    clear_approved_paths(&mut store);
    assert_eq!(store.len(), 0);
    let outcome = is_path_allowed(&store, "/home/u/project", &resolved("/home/u/project"));
    assert_eq!(
        outcome.err(),
        Some(AccessError::AccessDenied { path: "/home/u/project".to_string() })
    );
}

#[test]
fn approval_after_clear_counts_again() {
    let mut store = Allowlist::new();
    store.approve(canonical("/a"));
    store.clear();
    store.approve(canonical("/b"));
    assert!(!store.is_allowed(&canonical("/a")));
    assert!(store.is_allowed(&canonical("/b/c")));
}

#[test]
fn approve_path_adds_the_resolved_path() {
    let mut store = Allowlist::new();
    assert_eq!(approve_path(&mut store, &resolved("/home/u/project")), Ok(()));
    assert_eq!(store.len(), 1);
    assert!(store.is_allowed(&canonical("/home/u/project/readme.md")));
}

#[test]
fn approve_path_reports_a_failed_resolution() {
    let mut store = Allowlist::new();
    let failed: Result<String, String> = Err("No such file or directory (os error 2)".to_string());
    assert_eq!(
        approve_path(&mut store, &failed),
        Err(AccessError::PathResolution {
            stage: Stage::Resolve,
            detail: "No such file or directory (os error 2)".to_string(),
        })
    );
    assert_eq!(store.len(), 0);
}

#[test]
fn approve_path_refuses_text_that_is_not_resolved() {
    let mut store = Allowlist::new();
    assert_eq!(
        approve_path(&mut store, &resolved("/home/u/../v")),
        Err(AccessError::PathResolution {
            stage: Stage::Resolve,
            detail: "not a resolved path: /home/u/../v".to_string(),
        })
    );
    assert_eq!(store.len(), 0);
}

#[test]
fn is_path_allowed_gives_the_resolved_path() {
    let mut store = Allowlist::new();
    store.approve(canonical("/home/u/project"));
    let outcome = is_path_allowed(&store, "link/to/file", &resolved("/home/u/project/file"));
    assert_eq!(outcome.ok().map(|path| path.as_str().to_string()), Some("/home/u/project/file".to_string()));
}

#[test]
fn is_path_allowed_names_the_requested_path_when_denying() {
    let mut store = Allowlist::new();
    store.approve(canonical("/home/u/project"));
    let outcome = is_path_allowed(&store, "../other/file", &resolved("/home/u/other/file"));
    assert_eq!(
        outcome.err(),
        Some(AccessError::AccessDenied { path: "../other/file".to_string() })
    );
}

#[test]
fn is_path_allowed_reports_a_failed_resolution() {
    let mut store = Allowlist::new();
    store.approve(canonical("/home/u/project"));
    let failed: Result<String, String> = Err("gone".to_string());
    let outcome = is_path_allowed(&store, "/home/u/project/x", &failed);
    assert_eq!(
        outcome.err(),
        Some(AccessError::PathResolution { stage: Stage::Resolve, detail: "gone".to_string() })
    );
}
