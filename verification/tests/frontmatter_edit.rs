use diaryx_core::frontmatter::FrontmatterError;
use diaryx_core::frontmatter::{
    extract_body, extract_yaml, remove_property_in_text, rename_property_in_text,
    reorder_keys_in_text, set_properties_in_text, set_property_in_text,
};
use diaryx_core::yaml::Value;

const NOTE: &str = "---\ntitle: Hello\n# keep this comment\ntags:\n- a\n- b\n---\n# Body\n\nprose\n";

const CONTENTS: &str = "---\ntitle: T\ncontents:\n- a # note a\n# leading c\n- c\n- b\n---\nbody\n";

fn frontmatter(out: &str) -> serde_yaml::Value {
    let yaml = extract_yaml(out).expect("frontmatter");
    if yaml.trim().is_empty() {
        return serde_yaml::Value::Mapping(serde_yaml::Mapping::new());
    }
    serde_yaml::from_str(yaml).expect("valid YAML")
}

fn get(out: &str, key: &str) -> Option<serde_yaml::Value> {
    frontmatter(out).get(key).cloned()
}

fn text(out: &str, key: &str) -> Option<String> {
    get(out, key).and_then(|v| v.as_str().map(|s| s.to_string()))
}

fn seq(items: &[&str]) -> Value {
    Value::Sequence(items.iter().map(|s| Value::String((*s).into())).collect())
}

fn list_of(out: &str, key: &str) -> Vec<String> {
    get(out, key)
        .unwrap()
        .as_sequence()
        .unwrap()
        .iter()
        .map(|v| v.as_str().unwrap().to_string())
        .collect()
}

#[test]
fn set_property_replaces_preserving_comment_and_body() {
    let out = set_property_in_text(NOTE, "title", &Value::String("Hi there".into())).unwrap();
    assert!(out.contains("title: Hi there"));
    assert!(out.contains("# keep this comment"));
    assert!(out.contains("prose"));
    assert_eq!(text(&out, "title"), Some("Hi there".to_string()));
}

#[test]
fn set_property_inserts_new_key() {
    let out = set_property_in_text(NOTE, "author", &Value::String("me".into())).unwrap();
    assert_eq!(text(&out, "author"), Some("me".to_string()));
    assert!(out.contains("# keep this comment"));
}

#[test]
fn set_property_creates_frontmatter_when_missing() {
    let out = set_property_in_text("just body\n", "title", &Value::String("T".into())).unwrap();
    assert_eq!(text(&out, "title"), Some("T".to_string()));
    assert!(extract_body(&out).contains("just body"));
}

#[test]
fn set_collection_property_preserves_comments() {
    let tags = Value::Sequence(vec![Value::String("x".into()), Value::String("y".into())]);
    let out = set_property_in_text(NOTE, "tags", &tags).unwrap();
    assert!(out.contains("# keep this comment"), "comment lost: {out}");
    let got = get(&out, "tags").unwrap();
    let got = got.as_sequence().unwrap();
    assert_eq!(got.len(), 2);
    assert_eq!(got[0].as_str(), Some("x"));
    let seeded = "---\ntitle: T\n# c\nitems: []\n---\nbody\n";
    let out2 = set_property_in_text(seeded, "items", &tags).unwrap();
    assert!(out2.contains("# c"));
    assert_eq!(get(&out2, "items").unwrap().as_sequence().unwrap().len(), 2);
}

#[test]
fn seq_reorder_preserves_item_comments() {
    let out = set_property_in_text(CONTENTS, "contents", &seq(&["c", "a", "b"])).unwrap();
    assert_eq!(list_of(&out, "contents"), vec!["c", "a", "b"]);
    assert!(out.contains("# note a"), "lost inline comment: {out}");
    assert!(out.contains("# leading c"), "lost leading comment: {out}");
}

#[test]
fn seq_remove_middle_keeps_other_comments() {
    let out = set_property_in_text(CONTENTS, "contents", &seq(&["a", "b"])).unwrap();
    assert_eq!(list_of(&out, "contents"), vec!["a", "b"]);
    assert!(out.contains("# note a"));
    assert!(!out.contains("- c"));
}

#[test]
fn seq_append_keeps_existing_comments() {
    let out = set_property_in_text(CONTENTS, "contents", &seq(&["a", "c", "b", "d"])).unwrap();
    assert_eq!(list_of(&out, "contents"), vec!["a", "c", "b", "d"]);
    assert!(out.contains("# note a"));
    assert!(out.contains("# leading c"));
}

#[test]
fn seq_add_remove_reorder_combined() {
    let out = set_property_in_text(CONTENTS, "contents", &seq(&["b", "d", "a"])).unwrap();
    assert_eq!(list_of(&out, "contents"), vec!["b", "d", "a"]);
    assert!(out.contains("# note a"), "comment on surviving `a` lost: {out}");
}

#[test]
fn seq_duplicate_survivor_and_removed_duplicate() {
    let src = "---\nx:\n- a # first\n- a # second\n- a # third\n---\nbody\n";
    let out = set_property_in_text(src, "x", &seq(&["a", "a"])).unwrap();
    assert_eq!(list_of(&out, "x"), vec!["a", "a"]);
    assert!(out.contains("# first"));
    assert!(out.contains("# second"));
    assert!(!out.contains("# third"));
}

#[test]
fn seq_duplicate_with_reorder_no_spurious_churn() {
    let src = "---\nx:\n- a # one\n- b # two\n- a # three\n---\nbody\n";
    let out = set_property_in_text(src, "x", &seq(&["a", "a", "b"])).unwrap();
    assert_eq!(list_of(&out, "x"), vec!["a", "a", "b"]);
    assert!(out.contains("# one") && out.contains("# two") && out.contains("# three"));
}

#[test]
fn seq_flow_reorder_stays_flow() {
    let src = "---\nx: [a, b, c]\n---\nbody\n";
    let out = set_property_in_text(src, "x", &seq(&["c", "a", "b"])).unwrap();
    assert!(out.contains("[c, a, b]"), "expected flow list: {out}");
}

#[test]
fn seq_noop_is_byte_identical() {
    let out = set_property_in_text(CONTENTS, "contents", &seq(&["a", "c", "b"])).unwrap();
    assert_eq!(out, CONTENTS);
}

#[test]
fn seq_falls_back_when_not_eligible() {
    let empty = "---\ntitle: T\n# c\nitems: []\n---\nbody\n";
    let out = set_property_in_text(empty, "items", &seq(&["x", "y"])).unwrap();
    assert!(out.contains("# c"));
    assert_eq!(list_of(&out, "items"), vec!["x", "y"]);

    let out2 = set_property_in_text(CONTENTS, "contents", &Value::Sequence(vec![])).unwrap();
    assert!(out2.contains("title: T"));
    assert!(get(&out2, "contents").unwrap().as_sequence().unwrap().is_empty());

    let out3 = set_property_in_text(CONTENTS, "contents", &seq(&["p", "q"])).unwrap();
    assert_eq!(list_of(&out3, "contents"), vec!["p", "q"]);

    let out4 = set_property_in_text(CONTENTS, "newlist", &seq(&["z"])).unwrap();
    assert_eq!(list_of(&out4, "newlist"), vec!["z"]);
}

#[test]
fn remove_property_drops_key_keeps_comment() {
    let out = remove_property_in_text(NOTE, "title").unwrap();
    assert!(!out.contains("title:"));
    assert!(out.contains("# keep this comment"));
    assert!(out.contains("prose"));
}

#[test]
fn remove_absent_key_is_unchanged() {
    assert_eq!(remove_property_in_text(NOTE, "nope").unwrap(), NOTE);
    assert_eq!(remove_property_in_text("plain body", "x").unwrap(), "plain body");
}

#[test]
fn rename_property_preserves_value_and_returns_some() {
    let out = rename_property_in_text(NOTE, "title", "name").unwrap().unwrap();
    assert!(get(&out, "title").is_none());
    assert_eq!(text(&out, "name"), Some("Hello".to_string()));
    assert!(out.contains("# keep this comment"));
}

#[test]
fn rename_absent_or_no_frontmatter_returns_none() {
    assert!(rename_property_in_text(NOTE, "nope", "x").unwrap().is_none());
    assert!(rename_property_in_text("plain", "a", "b").unwrap().is_none());
}

#[test]
fn reorder_keys_puts_listed_keys_first_keeping_comments() {
    let out = reorder_keys_in_text(NOTE, &vec!["tags".to_string(), "missing".to_string()]).unwrap();
    let yaml = extract_yaml(&out).unwrap();
    assert!(yaml.find("tags:").unwrap() < yaml.find("title:").unwrap(), "{out}");
    assert!(out.contains("# keep this comment"));
    assert!(extract_body(&out).contains("prose"));
    assert_eq!(reorder_keys_in_text("plain", &vec!["a".to_string()]).unwrap(), "plain");
}

#[test]
fn set_property_exact_text_of_created_block_and_replacement() {
    assert_eq!(
        set_property_in_text("body\n", "title", &Value::String("T".into())).unwrap(),
        "---\ntitle: T\n---\nbody\n"
    );
    assert_eq!(
        set_property_in_text("---\ntitle: A\n---\nbody\n", "title", &Value::String("B".into())).unwrap(),
        "---\ntitle: B\n---\nbody\n"
    );
}

#[test]
fn set_property_reports_unreadable_yaml() {
    let bad = "---\ntitle: [unclosed\n---\nbody\n";
    assert!(matches!(
        set_property_in_text(bad, "title", &Value::String("x".into())),
        Err(FrontmatterError::Yaml(_))
    ));
}

#[test]
fn set_properties_sets_each_in_turn() {
    let entries = vec![
        ("title".to_string(), Value::String("New".into())),
        ("author".to_string(), Value::String("me".into())),
    ];
    let out = set_properties_in_text(NOTE, &entries).unwrap();
    assert_eq!(text(&out, "title"), Some("New".to_string()));
    assert_eq!(text(&out, "author"), Some("me".to_string()));
    assert!(out.contains("# keep this comment"));
    assert_eq!(set_properties_in_text("body\n", &Vec::new()).unwrap(), "body\n");
}
