use diaryx_core::fs::crdt_fs::{move_plan, MovePlan};
use diaryx_core::fs::async_fs::SyncToAsyncFs;
use diaryx_core::fs::crdt_fs::{parse_link_format, CrdtFs};
use diaryx_core::fs::is_temp_file;
use diaryx_core::link_parser::LinkFormat;

/// A stand-in filesystem: the decorator state under test does not touch it.
#[derive(Clone, Debug, PartialEq)]
struct NullFs(u8);

fn create_test_crdt_fs() -> CrdtFs<SyncToAsyncFs<NullFs>> {
    let inner = SyncToAsyncFs::new(NullFs(0));
    let fs = CrdtFs::new(inner);
    // Enable for tests — production code enables after sync handshake
    fs.set_enabled(true);
    fs
}

#[test]
fn test_toggle_enabled() {
    let fs = create_test_crdt_fs();

    assert!(fs.is_enabled());
    fs.set_enabled(false);
    assert!(!fs.is_enabled());
    fs.set_enabled(true);
    assert!(fs.is_enabled());
}

#[test]
fn test_clone_shares_enabled_state() {
    let fs = create_test_crdt_fs();
    let clone = fs.clone();

    assert!(fs.is_enabled());
    assert!(clone.is_enabled());

    fs.set_enabled(false);
    assert!(!fs.is_enabled());
    assert!(!clone.is_enabled());

    clone.set_enabled(true);
    assert!(fs.is_enabled());
    assert!(clone.is_enabled());
}

#[test]
fn test_local_write_tracking() {
    let mut fs = create_test_crdt_fs();

    assert!(!fs.is_local_write_in_progress("test.md"));

    fs.mark_local_write_start("test.md");
    assert!(fs.is_local_write_in_progress("test.md"));

    fs.mark_local_write_end("test.md");
    assert!(!fs.is_local_write_in_progress("test.md"));
}

#[test]
fn test_sync_write_tracking() {
    let mut fs = create_test_crdt_fs();

    assert!(!fs.is_sync_write_in_progress("test.md"));

    fs.mark_sync_write_start("test.md");
    assert!(fs.is_sync_write_in_progress("test.md"));

    fs.mark_sync_write_end("test.md");
    assert!(!fs.is_sync_write_in_progress("test.md"));
}

#[test]
fn test_write_markers_are_independent() {
    let mut fs = create_test_crdt_fs();
    fs.mark_local_write_start("a.md");
    fs.mark_local_write_start("a.md");
    fs.mark_sync_write_start("b.md");
    assert!(fs.is_local_write_in_progress("a.md"));
    assert!(!fs.is_sync_write_in_progress("a.md"));
    assert!(fs.is_sync_write_in_progress("b.md"));
    fs.mark_local_write_end("a.md");
    assert!(!fs.is_local_write_in_progress("a.md"));
    let clone = fs.clone();
    assert!(!clone.is_sync_write_in_progress("b.md"));
    assert_eq!(*fs.inner().inner(), NullFs(0));
}

#[test]
fn test_sync_to_async_inner_access() {
    let async_fs = SyncToAsyncFs::new(NullFs(7));
    assert_eq!(async_fs.inner(), &NullFs(7));
    let recovered = async_fs.into_inner();
    assert_eq!(recovered, NullFs(7));
}

#[test]
fn test_parse_link_format() {
    assert_eq!(parse_link_format(" Markdown_Root "), Some(LinkFormat::MarkdownRoot));
    assert_eq!(parse_link_format("plain_relative"), Some(LinkFormat::PlainRelative));
    assert_eq!(parse_link_format("PLAIN_CANONICAL\n"), Some(LinkFormat::PlainCanonical));
    assert_eq!(parse_link_format("markdown_relative"), Some(LinkFormat::MarkdownRelative));
    assert_eq!(parse_link_format("markdown"), None);
}

#[test]
fn test_is_temp_file() {
    assert!(is_temp_file("notes/a.md.tmp"));
    assert!(is_temp_file("a.md.bak"));
    assert!(is_temp_file("x.swap"));
    assert!(!is_temp_file("a.md"));
    assert!(!is_temp_file("tmp"));
}

#[test]
fn sha256_hex_of_known_inputs() {
    assert_eq!(
        diaryx_core::fs::sha256_hex(b"abc"),
        "ba7816bf8f01cfea414140de5dae2223b00361a396177a9cb410ff61f20015ad"
    );
    assert_eq!(
        diaryx_core::fs::sha256_hex(b""),
        "e3b0c44298fc1c149afbf4c8996fb92427ae41e4649b934ca495991b7852b855"
    );
}

#[test]
fn safe_write_names_are_temp_files() {
    let t = diaryx_core::fs::temp_path_for("notes/a.md");
    let b = diaryx_core::fs::backup_path_for("notes/a.md");
    assert_eq!(t, "notes/a.md.tmp");
    assert_eq!(b, "notes/a.md.bak");
    assert!(is_temp_file(&t) && is_temp_file(&b));
}

#[test]
fn move_plan_decides_what_the_crdt_records() {
    assert_eq!(move_plan("a/x.md", "a/y.md", true, Some("id1")), MovePlan::Untracked);
    assert_eq!(move_plan("a/x.md", "a/x.md.tmp", false, Some("id1")), MovePlan::Untracked);
    assert_eq!(move_plan("a/x.md", "b/x.md", false, None), MovePlan::Recreate { legacy_key: None });
    assert_eq!(
        move_plan("a/x.md", "b/x.md", false, Some("a/x.md")),
        MovePlan::Recreate { legacy_key: Some("a/x.md".to_string()) }
    );
    assert_eq!(
        move_plan("a/x.md", "a/y.md", false, Some("id1")),
        MovePlan::Rename { doc_id: "id1".to_string(), filename: "y.md".to_string() }
    );
    assert_eq!(
        move_plan("x.md", "y.md", false, Some("id1")),
        MovePlan::Rename { doc_id: "id1".to_string(), filename: "y.md".to_string() }
    );
    assert_eq!(
        move_plan("a/x.md", "b/c/x.md", false, Some("id1")),
        MovePlan::Move { doc_id: "id1".to_string(), filename: "x.md".to_string() }
    );
}
