use diaryx_core::crdt::types::{BinaryRef, FileMetadata, UpdateOrigin};

#[test]
fn test_file_metadata_default() {
    let meta = FileMetadata::default();
    assert!(meta.title.is_none());
    assert!(meta.filename.is_empty());
    assert!(!meta.deleted);
    assert!(meta.attachments.is_empty());
}

#[test]
fn test_file_metadata_new() {
    let meta = FileMetadata::new(Some("Test".to_string()));
    assert_eq!(meta.title, Some("Test".to_string()));
    assert!(meta.modified_at > 0);
}

#[test]
fn test_file_metadata_with_filename() {
    let meta = FileMetadata::with_filename("test.md".to_string(), Some("Test".to_string()));
    assert_eq!(meta.filename, "test.md");
    assert_eq!(meta.title, Some("Test".to_string()));
    assert!(meta.modified_at > 0);
}

#[test]
fn test_file_metadata_mark_deleted() {
    let mut meta = FileMetadata::default();
    let original_time = meta.modified_at;
    meta.mark_deleted();
    assert!(meta.deleted);
    assert!(meta.modified_at > original_time);
}

#[test]
fn test_normalize_title_to_filename() {
    assert_eq!(
        FileMetadata::normalize_title_to_filename("My Note Title"),
        "my-note-title.md"
    );
    assert_eq!(
        FileMetadata::normalize_title_to_filename("Hello World!"),
        "hello-world.md"
    );
    assert_eq!(
        FileMetadata::normalize_title_to_filename("Test_File Name"),
        "test-file-name.md"
    );
    assert_eq!(
        FileMetadata::normalize_title_to_filename("  Multiple   Spaces  "),
        "multiple-spaces.md"
    );
    assert_eq!(FileMetadata::normalize_title_to_filename(""), "untitled.md");
    assert_eq!(
        FileMetadata::normalize_title_to_filename("!!!"),
        "untitled.md"
    );
}

#[test]
fn test_is_legacy_format() {
    let mut meta = FileMetadata::default();
    assert!(!meta.is_legacy_format()); // No part_of

    meta.part_of = Some("abc123-uuid".to_string());
    assert!(!meta.is_legacy_format()); // UUID format

    meta.part_of = Some("workspace/index.md".to_string());
    assert!(meta.is_legacy_format()); // Path format

    meta.part_of = Some("index.md".to_string());
    assert!(meta.is_legacy_format()); // Filename with .md
}

#[test]
fn test_binary_ref_new_local() {
    let binary = BinaryRef::new_local(
        "test.png".to_string(),
        "abc123".to_string(),
        "image/png".to_string(),
        1024,
    );
    assert_eq!(binary.source, "local");
    assert!(binary.uploaded_at.is_some());
}

#[test]
fn test_binary_ref_new_pending() {
    let binary = BinaryRef::new_pending("a.png".to_string(), "image/png".to_string(), 7);
    assert_eq!(binary.source, "pending");
    assert_eq!(binary.hash, "");
    assert_eq!(binary.size, 7);
    assert!(binary.uploaded_at.is_none());
    assert!(!binary.deleted);
}

#[test]
fn test_is_index() {
    let mut meta = FileMetadata::default();
    assert!(!meta.is_index());
    meta.contents = Some(vec![]);
    assert!(!meta.is_index());
    meta.contents = Some(vec!["child".to_string()]);
    assert!(meta.is_index());
}

#[test]
fn test_update_origin_display() {
    assert_eq!(UpdateOrigin::Local.to_string(), "local");
    assert_eq!(UpdateOrigin::Remote.to_string(), "remote");
    assert_eq!(UpdateOrigin::Sync.to_string(), "sync");
}

#[test]
fn test_update_origin_from_str() {
    assert_eq!(
        "local".parse::<UpdateOrigin>().unwrap(),
        UpdateOrigin::Local
    );
    assert_eq!(
        "remote".parse::<UpdateOrigin>().unwrap(),
        UpdateOrigin::Remote
    );
    assert!("invalid".parse::<UpdateOrigin>().is_err());
}

#[test]
fn test_update_origin_unknown_message() {
    assert_eq!(
        "Local".parse::<UpdateOrigin>(),
        Err("Unknown update origin: Local".to_string())
    );
    assert_eq!("sync".parse::<UpdateOrigin>(), Ok(UpdateOrigin::Sync));
}

#[test]
fn normalize_title_removes_other_punctuation() {
    assert_eq!(FileMetadata::normalize_title_to_filename("Don't Stop"), "dont-stop.md");
    assert_eq!(FileMetadata::normalize_title_to_filename("a--b__c"), "a-b-c.md");
    assert_eq!(FileMetadata::normalize_title_to_filename("-x-"), "x.md");
}
