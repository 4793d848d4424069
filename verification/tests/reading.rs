use diaryx_core::crdt::materialize::{parse_snapshot_markdown, snapshot_metadata_at};
use diaryx_core::crdt::reading::parse_updated_value;
use diaryx_core::crdt::types::FileMetadata;
use diaryx_core::frontmatter::split;
use diaryx_core::text::parse_i64;
use diaryx_core::yaml::Value;

fn from_yaml(v: &serde_yaml::Value) -> Value {
    match v {
        serde_yaml::Value::Null => Value::Null,
        serde_yaml::Value::Bool(b) => Value::Bool(*b),
        serde_yaml::Value::Number(n) => match n.as_i64() {
            Some(i) => Value::Int(i),
            None => {
                let f = n.as_f64().unwrap_or(0.0);
                Value::Real(n.to_string(), f as i64)
            }
        },
        serde_yaml::Value::String(s) => Value::String(s.clone()),
        serde_yaml::Value::Sequence(items) => Value::Sequence(items.iter().map(from_yaml).collect()),
        serde_yaml::Value::Mapping(m) => Value::Mapping(
            m.iter()
                .map(|(k, v)| (k.as_str().unwrap_or_default().to_string(), from_yaml(v)))
                .collect(),
        ),
        serde_yaml::Value::Tagged(t) => from_yaml(&t.value),
    }
}

fn frontmatter_of(content: &str) -> (Vec<(String, Value)>, String) {
    match split(content) {
        Some((yaml, body)) => {
            let parsed: serde_yaml::Mapping = serde_yaml::from_str(yaml).unwrap();
            let fm = parsed
                .iter()
                .map(|(k, v)| (k.as_str().unwrap().to_string(), from_yaml(v)))
                .collect();
            (fm, body.to_string())
        }
        None => (Vec::new(), content.to_string()),
    }
}

fn read(content: &str) -> Vec<(String, Value)> {
    frontmatter_of(content).0
}

#[test]
fn test_parse_snapshot_markdown_with_frontmatter() {
    let content = "---\ntitle: Test\nupdated: 1700000000000\n---\n\nBody text here";
    let (fm, body) = frontmatter_of(content);
    let (meta, body) = parse_snapshot_markdown("test.md", &fm, body);
    assert_eq!(meta.title, Some("Test".to_string()));
    assert_eq!(meta.modified_at, 1700000000000);
    assert!(body.contains("Body text here"));
    assert_eq!(meta.filename, "test.md");
}

#[test]
fn test_parse_snapshot_markdown_no_frontmatter() {
    let content = "Just body text";
    let (fm, body) = frontmatter_of(content);
    let (meta, body) = parse_snapshot_markdown("note.md", &fm, body);
    assert!(meta.title.is_none());
    assert_eq!(body, "Just body text");
    assert_eq!(meta.filename, "note.md");
}

#[test]
fn test_snapshot_links_resolve_from_file() {
    let fm = read(
        "---\npart_of: \"[Notes](../index.md)\"\ncontents:\n- a.md\n- 7\nattachments:\n- _attachments/p.png\ndeleted: true\n---\n",
    );
    let meta = snapshot_metadata_at("notes/day.md", &fm, 42);
    assert_eq!(meta.part_of, Some("index.md".to_string()));
    assert_eq!(meta.contents, Some(vec!["notes/a.md".to_string()]));
    assert_eq!(meta.attachments.len(), 1);
    assert_eq!(meta.attachments[0].path, "notes/_attachments/p.png");
    assert_eq!(meta.attachments[0].source, "local");
    assert!(meta.deleted);
    assert_eq!(meta.modified_at, 42);
    assert!(meta.extra.is_empty());
}

#[test]
fn test_parse_i64() {
    assert_eq!(parse_i64("0"), Some(0));
    assert_eq!(parse_i64("+17"), Some(17));
    assert_eq!(parse_i64("-9223372036854775808"), Some(i64::MIN));
    assert_eq!(parse_i64("9223372036854775807"), Some(i64::MAX));
    assert_eq!(parse_i64("9223372036854775808"), None);
    assert_eq!(parse_i64(""), None);
    assert_eq!(parse_i64("-"), None);
    assert_eq!(parse_i64(" 1"), None);
    assert_eq!(parse_i64("1a"), None);
}

#[test]
fn test_parse_updated_value() {
    assert_eq!(parse_updated_value(&Value::Int(5)), Some(5));
    assert_eq!(parse_updated_value(&Value::Real("1.5e3".to_string(), 1500)), Some(1500));
    assert_eq!(parse_updated_value(&Value::String("123".to_string())), Some(123));
    assert_eq!(
        parse_updated_value(&Value::String("2023-11-14T22:13:20Z".to_string())),
        Some(1700000000000)
    );
    assert_eq!(
        parse_updated_value(&Value::String("2023-11-14T23:13:20+01:00".to_string())),
        Some(1700000000000)
    );
    assert_eq!(parse_updated_value(&Value::String("yesterday".to_string())), None);
    assert_eq!(parse_updated_value(&Value::Bool(true)), None);
}

#[test]
fn test_from_frontmatter_typed_reading() {
    let fm = read("---\ntitle: 5\ncontents:\n- a.md\ncustom: x\nupdated: 99\nextra:\n  kept: 1\n---\n");
    let meta = FileMetadata::from_frontmatter_at(&fm, 7);
    assert_eq!(meta.title, Some("5".to_string()));
    assert_eq!(meta.contents, Some(vec!["a.md".to_string()]));
    assert_eq!(meta.modified_at, 99);
    let keys: Vec<&str> = meta.extra.iter().map(|(k, _)| k.as_str()).collect();
    assert_eq!(keys, vec!["kept", "custom"]);
}

#[test]
fn test_from_frontmatter_stamps_now_without_time() {
    let fm = read("---\ntitle: Hello\n---\n");
    let meta = FileMetadata::from_frontmatter_at(&fm, 1234);
    assert_eq!(meta.title, Some("Hello".to_string()));
    assert_eq!(meta.modified_at, 1234);
    let meta = FileMetadata::from_frontmatter(&fm);
    assert!(meta.modified_at > 0);
}

#[test]
fn test_from_frontmatter_loose_reading() {
    // String attachments do not read as typed references, so every field is
    // picked out the loose way.
    let fm = read(
        "---\ntitle: [not, text]\nfilename: x.md\nattachments:\n- img.png\n- path: doc.pdf\n  size: 3\n- 5\nmodified_at: 10\nnote: n\n---\n",
    );
    let meta = FileMetadata::from_frontmatter_at(&fm, 77);
    assert_eq!(meta.title, None);
    assert_eq!(meta.filename, "");
    assert_eq!(meta.attachments.len(), 2);
    assert_eq!(meta.attachments[0].path, "img.png");
    assert_eq!(meta.attachments[0].source, "local");
    assert_eq!(meta.attachments[1].path, "doc.pdf");
    assert_eq!(meta.attachments[1].size, 3);
    assert_eq!(meta.modified_at, 77);
    let keys: Vec<&str> = meta.extra.iter().map(|(k, _)| k.as_str()).collect();
    assert_eq!(keys, vec!["note"]);
}
