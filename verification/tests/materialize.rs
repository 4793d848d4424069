use diaryx_core::crdt::git::compaction_targets;
use diaryx_core::crdt::materialize::{resolve_path, SkipReason, SkippedFile};

#[test]
fn test_resolve_path_with_path_key() {
    let map: Vec<(String, String)> = Vec::new();
    assert_eq!(
        resolve_path("folder/file.md", &map),
        Some("folder/file.md".to_string())
    );
    assert_eq!(resolve_path("file.md", &map), Some("file.md".to_string()));
}

#[test]
fn test_resolve_path_with_doc_id() {
    let mut map: Vec<(String, String)> = Vec::new();
    map.push(("abc-123".to_string(), "folder/file.md".to_string()));
    assert_eq!(
        resolve_path("abc-123", &map),
        Some("folder/file.md".to_string())
    );
    assert_eq!(resolve_path("unknown-id", &map), None);
}

#[test]
fn test_resolve_path_prefers_path_form() {
    let map = vec![("a/b.md".to_string(), "elsewhere.md".to_string())];
    assert_eq!(resolve_path("a/b.md", &map), Some("a/b.md".to_string()));
    let skipped = SkippedFile { key: "k".to_string(), reason: SkipReason::Deleted };
    assert_eq!(skipped.reason, SkipReason::Deleted);
}

use diaryx_core::crdt::materialize::materialize_workspace;
use diaryx_core::crdt::sanity::{BodyDocs, WorkspaceListing};
use diaryx_core::crdt::types::FileMetadata;

fn empty() -> (WorkspaceListing, BodyDocs) {
    (WorkspaceListing { files: vec![], paths: vec![] }, BodyDocs { docs: vec![] })
}

#[test]
fn test_materialize_empty_workspace() {
    let (workspace, body_docs) = empty();
    let result = materialize_workspace(&workspace, &body_docs, "test-ws");
    assert!(result.files.is_empty());
    assert!(result.skipped.is_empty());
}

#[test]
fn test_materialize_single_file() {
    let (mut workspace, mut body_docs) = empty();
    let meta = FileMetadata::with_filename("hello.md".to_string(), Some("Hello".to_string()));
    workspace.files.push(("doc-1".to_string(), meta));
    workspace.paths.push(("doc-1".to_string(), "hello.md".to_string()));
    body_docs.docs.push(("body:test-ws/hello.md".to_string(), "Hello world".to_string()));

    let result = materialize_workspace(&workspace, &body_docs, "test-ws");
    assert_eq!(result.files.len(), 1);
    assert_eq!(result.files[0].path, "hello.md");
    assert!(result.files[0].content.contains("Hello world"));
    assert!(result.files[0].content.contains("title: Hello"));
}

#[test]
fn test_materialize_skips_deleted() {
    let (mut workspace, body_docs) = empty();
    let mut meta = FileMetadata::with_filename("deleted.md".to_string(), Some("Gone".to_string()));
    meta.mark_deleted();
    workspace.files.push(("doc-1".to_string(), meta));
    workspace.paths.push(("doc-1".to_string(), "deleted.md".to_string()));

    let result = materialize_workspace(&workspace, &body_docs, "test-ws");
    assert!(result.files.is_empty());
    assert_eq!(result.skipped.len(), 1);
    assert_eq!(result.skipped[0].reason, SkipReason::Deleted);
}

#[test]
fn test_materialize_nested_path() {
    let (mut workspace, mut body_docs) = empty();
    let parent_meta = FileMetadata::with_filename("daily".to_string(), Some("Daily".to_string()));
    workspace.files.push(("parent-id".to_string(), parent_meta));
    workspace.paths.push(("parent-id".to_string(), "daily".to_string()));
    let mut child_meta = FileMetadata::with_filename("note.md".to_string(), Some("Note".to_string()));
    child_meta.part_of = Some("parent-id".to_string());
    workspace.files.push(("child-id".to_string(), child_meta));
    workspace.paths.push(("child-id".to_string(), "daily/note.md".to_string()));
    body_docs.docs.push(("body:test-ws/daily/note.md".to_string(), "Daily note content".to_string()));

    let result = materialize_workspace(&workspace, &body_docs, "test-ws");
    let child_file = result.files.iter().find(|f| f.path == "daily/note.md");
    assert!(child_file.is_some());
    let child = child_file.unwrap();
    assert!(child.content.contains("Daily note content"));
    assert!(child.content.contains("part_of:"));
    assert!(child.content.contains("(/daily)"));
}

#[test]
fn test_materialize_unresolved_and_body_by_key() {
    let (mut workspace, mut body_docs) = empty();
    let meta = FileMetadata::with_filename("x.md".to_string(), Some("X".to_string()));
    workspace.files.push(("lost-id".to_string(), meta));
    let meta = FileMetadata::with_filename("y.md".to_string(), None);
    workspace.files.push(("notes/y.md".to_string(), meta));
    body_docs.docs.push(("body:ws/notes/y.md".to_string(), "by key".to_string()));

    let result = materialize_workspace(&workspace, &body_docs, "ws");
    assert_eq!(result.skipped.len(), 1);
    assert_eq!(result.skipped[0].key, "lost-id");
    assert_eq!(result.skipped[0].reason, SkipReason::UnresolvedPath);
    assert_eq!(result.files.len(), 1);
    assert_eq!(result.files[0].path, "notes/y.md");
    assert!(result.files[0].content.ends_with("\n---\n\nby key"));
}

#[test]
fn compaction_targets_lists_stored_bodies_of_live_files() {
    let (mut workspace, mut body_docs) = empty();
    let mut gone = FileMetadata::with_filename("gone.md".to_string(), None);
    gone.mark_deleted();
    workspace.files.push(("doc-1".to_string(), FileMetadata::with_filename("a.md".to_string(), None)));
    workspace.files.push(("notes/b.md".to_string(), FileMetadata::with_filename("b.md".to_string(), None)));
    workspace.files.push(("gone.md".to_string(), gone));
    workspace.files.push(("doc-9".to_string(), FileMetadata::with_filename("c.md".to_string(), None)));
    workspace.files.push(("no-body.md".to_string(), FileMetadata::with_filename("x.md".to_string(), None)));
    workspace.paths.push(("doc-1".to_string(), "dir/a.md".to_string()));
    body_docs.docs.push(("body:ws/dir/a.md".to_string(), "A".to_string()));
    body_docs.docs.push(("body:ws/notes/b.md".to_string(), "B".to_string()));
    body_docs.docs.push(("body:ws/gone.md".to_string(), "G".to_string()));
    assert_eq!(
        compaction_targets(&workspace, &body_docs, "ws"),
        vec!["body:ws/dir/a.md".to_string(), "body:ws/notes/b.md".to_string()]
    );
}
