use diaryx_core::frontmatter::{extract_body, extract_yaml, serialize};
use diaryx_core::entry::{
    add_attachment_entry, append_to_body, attachments_of, entry_template, get_property,
    insert_property, prepend_to_body, remove_attachment_entry, remove_property, DiaryxApp,
    DiaryxAppSync,
};
use diaryx_core::yaml::Value;

fn s(t: &str) -> Value {
    Value::String(t.to_string())
}

fn fm(entries: Vec<(&str, Value)>) -> Vec<(String, Value)> {
    entries.into_iter().map(|(k, v)| (k.to_string(), v)).collect()
}

fn keys(m: &[(String, Value)]) -> Vec<&str> {
    m.iter().map(|(k, _)| k.as_str()).collect()
}

fn strs(v: &Value) -> Vec<String> {
    match v {
        Value::Sequence(items) => items
            .iter()
            .map(|i| match i {
                Value::String(t) => t.clone(),
                _ => "?".to_string(),
            })
            .collect(),
        _ => vec![],
    }
}

#[test]
fn test_entry_template() {
    assert_eq!(entry_template("notes/a.md"), "---\ntitle: notes/a.md\n---\n\n# notes/a.md\n\n");
}

#[test]
fn test_append_and_prepend() {
    assert_eq!(append_to_body("", "new"), "new");
    assert_eq!(append_to_body("old\n", "new"), "old\nnew");
    assert_eq!(append_to_body("old", "new"), "old\nnew");
    assert_eq!(prepend_to_body("", "new"), "new");
    assert_eq!(prepend_to_body("old", "new\n"), "new\nold");
    assert_eq!(prepend_to_body("old", "new"), "new\nold");
}

#[test]
fn test_insert_remove_get_property() {
    let m = fm(vec![("title", s("A")), ("tags", s("x"))]);
    let m = insert_property(m, "title", s("B"));
    assert_eq!(keys(&m), vec!["title", "tags"]);
    assert!(matches!(get_property(&m, "title"), Some(Value::String(t)) if t == "B"));
    let m = insert_property(m, "new", Value::Int(1));
    assert_eq!(keys(&m), vec!["title", "tags", "new"]);
    let (m, removed) = remove_property(m, "tags");
    assert!(matches!(removed, Some(Value::String(t)) if t == "x"));
    assert_eq!(keys(&m), vec!["title", "new"]);
    let (m, removed) = remove_property(m, "missing");
    assert!(removed.is_none());
    assert!(get_property(&m, "missing").is_none());
}

#[test]
fn test_add_attachment_entry() {
    let m = fm(vec![("title", s("A"))]);
    let m = add_attachment_entry(m, "_attachments/a.png", "notes/e.md");
    assert_eq!(keys(&m), vec!["title", "attachments"]);
    assert_eq!(strs(&m[1].1), vec!["_attachments/a.png"]);
    // Same attachment under another spelling: no duplicate.
    let m = add_attachment_entry(m, "[A](/notes/_attachments/a.png)", "notes/e.md");
    assert_eq!(strs(&m[1].1), vec!["_attachments/a.png"]);
    // An attachment note and the binary it wraps share a key.
    let m = add_attachment_entry(m, "_attachments/a.png.md", "notes/e.md");
    assert_eq!(strs(&m[1].1), vec!["_attachments/a.png"]);
    let m = add_attachment_entry(m, "_attachments/b.pdf", "notes/e.md");
    assert_eq!(strs(&m[1].1), vec!["_attachments/a.png", "_attachments/b.pdf"]);
    assert_eq!(attachments_of(&m), vec!["_attachments/a.png", "_attachments/b.pdf"]);
    // Not a list: left alone.
    let odd = fm(vec![("attachments", s("x"))]);
    let odd = add_attachment_entry(odd, "y", "e.md");
    assert!(matches!(&odd[0].1, Value::String(t) if t == "x"));
    assert!(attachments_of(&odd).is_empty());
}

#[test]
fn test_remove_attachment_entry() {
    let m = fm(vec![
        ("attachments", Value::Sequence(vec![s("_attachments/a.png"), Value::Int(3), s("b.pdf")])),
        ("title", s("T")),
    ]);
    let m = remove_attachment_entry(m, "/notes/_attachments/a.png", "notes/e.md");
    assert_eq!(keys(&m), vec!["attachments", "title"]);
    assert!(matches!(&m[0].1, Value::Sequence(items) if items.len() == 2));
    let m = remove_attachment_entry(m, "b.pdf", "notes/e.md");
    let m = match &m[0].1 {
        Value::Sequence(items) if items.len() == 1 => m,
        _ => panic!("expected one item left"),
    };
    let only_int = fm(vec![("attachments", Value::Sequence(vec![s("z.png")]))]);
    let cleared = remove_attachment_entry(only_int, "z.png", "e.md");
    assert!(cleared.is_empty());
    assert_eq!(keys(&m), vec!["attachments", "title"]);
}

#[test]
fn test_app_handles() {
    let app = DiaryxApp::new(5u8);
    assert_eq!(*app.fs(), 5);
    let app = DiaryxAppSync::new("fs".to_string());
    assert_eq!(app.fs(), "fs");
}

#[test]
fn add_attachment_dedups_angled_note_form() {
    // An index already lists the attachment's note, in markdown form with
    // its target in angle brackets; adding the binary is a duplicate.
    let m = vec![
        ("title".to_string(), Value::String("Index".to_string())),
        (
            "attachments".to_string(),
            Value::Sequence(vec![Value::String(
                "[photo.jpg](</folder/photo.jpg.md>)".to_string(),
            )]),
        ),
    ];
    let m = add_attachment_entry(m, "photo.jpg", "folder/index.md");
    let list = attachments_of(&m);
    assert_eq!(list, vec!["[photo.jpg](</folder/photo.jpg.md>)".to_string()]);
}

#[test]
fn prepend_and_append_read_back_through_written_document() {
    let fm = vec![("title".to_string(), Value::String("Day".to_string()))];
    let prepended = prepend_to_body("Existing", "Prepended");
    let doc = serialize(&fm, &prepended).unwrap();
    assert_eq!(extract_body(&doc), "Prepended\nExisting");
    assert_eq!(extract_yaml(&doc), Some("title: Day"));
    let appended = append_to_body("No trailing newline", "Appended");
    let doc = serialize(&fm, &appended).unwrap();
    assert_eq!(extract_body(&doc), "No trailing newline\nAppended");
    assert_eq!(extract_yaml(&doc), Some("title: Day"));
}
