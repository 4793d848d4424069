use diaryx_core::crdt::sanity::{validate_workspace, BodyDocs, IssueKind, WorkspaceListing};
use diaryx_core::crdt::types::FileMetadata;

fn empty() -> (WorkspaceListing, BodyDocs) {
    (WorkspaceListing { files: vec![], paths: vec![] }, BodyDocs { docs: vec![] })
}

#[test]
fn test_empty_workspace_is_ok() {
    let (workspace, body_docs) = empty();
    let report = validate_workspace(&workspace, &body_docs, "ws");
    assert!(report.is_ok());
    assert_eq!(report.file_count, 0);
}

#[test]
fn test_healthy_workspace() {
    let (mut workspace, mut body_docs) = empty();
    let meta = FileMetadata::with_filename("note.md".to_string(), Some("Note".to_string()));
    workspace.files.push(("doc-1".to_string(), meta));
    workspace.paths.push(("doc-1".to_string(), "note.md".to_string()));
    body_docs.docs.push(("body:ws/note.md".to_string(), "Some content".to_string()));

    let report = validate_workspace(&workspace, &body_docs, "ws");
    assert!(report.is_ok());
    assert_eq!(report.file_count, 1);
    assert_eq!(report.body_doc_count, 1);
}

#[test]
fn test_broken_parent_chain() {
    let (mut workspace, body_docs) = empty();
    let mut meta = FileMetadata::with_filename("orphan.md".to_string(), Some("Orphan".to_string()));
    meta.part_of = Some("non-existent-uuid".to_string());
    workspace.files.push(("some-uuid".to_string(), meta));

    let report = validate_workspace(&workspace, &body_docs, "ws");
    assert!(!report.is_ok());
    let found = report.issues_of_kind(&IssueKind::BrokenParentChain);
    assert_eq!(found.len(), 1);
    assert_eq!(
        found[0].message,
        "File 'some-uuid' references non-existent parent 'non-existent-uuid'"
    );
    assert_eq!(found[0].key, Some("some-uuid".to_string()));
}

#[test]
fn test_missing_child() {
    let (mut workspace, body_docs) = empty();
    let mut meta = FileMetadata::with_filename("index.md".to_string(), Some("Index".to_string()));
    meta.contents = Some(vec!["non-existent-child-uuid".to_string(), "a/b.md".to_string()]);
    workspace.files.push(("parent-uuid".to_string(), meta));

    let report = validate_workspace(&workspace, &body_docs, "ws");
    assert!(!report.is_ok());
    assert_eq!(report.issues_of_kind(&IssueKind::MissingChild).len(), 1);
    assert_eq!(report.issue_count(), 1);
}

#[test]
fn test_deleted_files_skipped() {
    let (mut workspace, body_docs) = empty();
    let mut meta = FileMetadata::with_filename("deleted.md".to_string(), Some("Deleted".to_string()));
    meta.mark_deleted();
    meta.part_of = Some("missing".to_string());
    workspace.files.push(("gone".to_string(), meta));

    let report = validate_workspace(&workspace, &body_docs, "ws");
    assert!(report.is_ok());
    assert_eq!(report.file_count, 0);
}

#[test]
fn test_empty_body_detected() {
    let (mut workspace, mut body_docs) = empty();
    let meta = FileMetadata::with_filename("empty.md".to_string(), Some("Empty".to_string()));
    workspace.files.push(("doc-e".to_string(), meta));
    workspace.paths.push(("doc-e".to_string(), "empty.md".to_string()));
    body_docs.docs.push(("body:ws/empty.md".to_string(), String::new()));

    let report = validate_workspace(&workspace, &body_docs, "ws");
    let found = report.issues_of_kind(&IssueKind::EmptyBody);
    assert_eq!(found.len(), 1);
    assert_eq!(found[0].message, "Non-index file 'empty.md' has an empty body");
}

#[test]
fn test_index_files_allowed_empty_body() {
    let (mut workspace, mut body_docs) = empty();
    let mut meta = FileMetadata::with_filename("index.md".to_string(), Some("Index".to_string()));
    meta.contents = Some(vec![]);
    workspace.files.push(("doc-i".to_string(), meta));
    workspace.paths.push(("doc-i".to_string(), "index.md".to_string()));
    body_docs.docs.push(("body:ws/index.md".to_string(), String::new()));

    let report = validate_workspace(&workspace, &body_docs, "ws");
    assert_eq!(report.issues_of_kind(&IssueKind::EmptyBody).len(), 0);
}

#[test]
fn test_path_keys_are_their_own_path() {
    let (mut workspace, mut body_docs) = empty();
    let meta = FileMetadata::with_filename("n.md".to_string(), None);
    workspace.files.push(("dir/n.md".to_string(), meta));
    body_docs.docs.push(("body:w/dir/n.md".to_string(), String::new()));
    let report = validate_workspace(&workspace, &body_docs, "w");
    assert_eq!(report.body_doc_count, 1);
    assert_eq!(report.issues_of_kind(&IssueKind::EmptyBody).len(), 1);
}

#[test]
fn issue_kind_counts_add_up_to_issue_count() {
    let (mut workspace, mut body_docs) = empty();
    let mut meta = FileMetadata::with_filename("a.md".to_string(), Some("A".to_string()));
    meta.part_of = Some("missing-parent".to_string());
    meta.contents = Some(vec!["missing-child".to_string()]);
    workspace.files.push(("doc-a".to_string(), meta));
    body_docs.docs.push(("body:ws/stray.md".to_string(), "x".to_string()));
    let report = validate_workspace(&workspace, &body_docs, "ws");
    let kinds = [
        IssueKind::EmptyBody,
        IssueKind::BrokenParentChain,
        IssueKind::OrphanBodyDoc,
        IssueKind::MissingBodyDoc,
        IssueKind::MissingChild,
    ];
    let sum: usize = kinds.iter().map(|k| report.issues_of_kind(k).len()).sum();
    assert!(report.issue_count() >= 2);
    assert_eq!(sum, report.issue_count());
}
