use diaryx_core::frontmatter::{
    extract_body, extract_yaml, replace_body, serialize, sort_alphabetically, sort_by_pattern, split,
};
use diaryx_core::yaml::Value;

#[test]
fn test_extract_body() {
    let content = "---\ntitle: Test\n---\n\nBody content";
    assert_eq!(extract_body(content).trim(), "Body content");
}

#[test]
fn test_replace_body_preserves_frontmatter_comments() {
    // A comment in the frontmatter must survive a body-only write.
    let content = "---\ntitle: Test\n# keep this comment\ntags:\n- x\n---\noriginal body\n";
    let updated = replace_body(content, "new body\n");
    assert_eq!(
        updated,
        "---\ntitle: Test\n# keep this comment\ntags:\n- x\n---\nnew body\n",
    );
}

#[test]
fn test_replace_body_round_trips_with_extract_body() {
    // replace_body(c, extract_body(c)) is the identity (no spurious blank line).
    let content = "---\ntitle: Test\n---\n\nBody content\n";
    assert_eq!(replace_body(content, extract_body(content)), content);
}

#[test]
fn test_extract_body_no_frontmatter() {
    let content = "Just body content";
    assert_eq!(extract_body(content), content);
}

#[test]
fn test_replace_body_with_frontmatter() {
    // The body is everything after the closing fence's newline and owns its
    // own leading blank line, so the new body is spliced in verbatim (this
    // matches the slice `parse`/`extract_body` return as the body).
    let content = "---\ntitle: Test\n---\n\nOld body";
    let result = replace_body(content, "\nNew body");
    assert_eq!(result, "---\ntitle: Test\n---\n\nNew body");
}

#[test]
fn test_replace_body_no_frontmatter() {
    let result = replace_body("Just body", "New body");
    assert_eq!(result, "New body");
}

#[test]
fn test_replace_body_empty_new_body() {
    // Clearing the body leaves just the frontmatter block + closing fence.
    let content = "---\ntitle: Test\n---\n\nOld body";
    let result = replace_body(content, "");
    assert_eq!(result, "---\ntitle: Test\n---\n");
}

#[test]
fn test_replace_body_crlf() {
    let content = "---\r\ntitle: Test\r\n---\r\n\r\nOld body";
    let result = replace_body(content, "\r\nNew body");
    assert_eq!(result, "---\r\ntitle: Test\r\n---\r\n\r\nNew body");
}

#[test]
fn test_replace_body_malformed() {
    let content = "---\nunclosed frontmatter";
    let result = replace_body(content, "New body");
    assert_eq!(result, "New body");
}

#[test]
fn test_replace_body_preserves_formatting() {
    let content = "---\ntitle: \"Quoted Title\"\ntags:\n  - rust\n  - swift\n---\n\nOld body";
    let result = replace_body(content, "New body");
    assert!(
        result.starts_with("---\ntitle: \"Quoted Title\"\ntags:\n  - rust\n  - swift\n---\n")
    );
    assert!(result.ends_with("\nNew body"));
}

#[test]
fn split_returns_yaml_and_body() {
    let content = "---\ntitle: Test\n---\nBody";
    assert_eq!(split(content), Some(("title: Test", "Body")));
    assert_eq!(extract_yaml(content), Some("title: Test"));
}

#[test]
fn split_without_closing_fence_is_none() {
    assert_eq!(split("---\ntitle: Test\n"), None);
    assert_eq!(split("no frontmatter"), None);
    assert_eq!(extract_yaml("no frontmatter"), None);
}

#[test]
fn extract_after_replace_gives_new_body() {
    let content = "---\na: 1\n---\nold";
    let replaced = replace_body(content, "fresh body\n");
    assert_eq!(extract_body(&replaced), "fresh body\n");
    assert_eq!(extract_yaml(&replaced), Some("a: 1"));
}

#[test]
fn crlf_closing_fence_body_starts_after_line_break() {
    // The body read starts after the closing fence's CRLF, where the kept
    // header ends, so putting it back changes nothing.
    let content = "---\na: 1\n---\r\nbody";
    assert_eq!(extract_body(content), "body");
    assert_eq!(replace_body(content, extract_body(content)), content);
    let c2 = "---\na\n---\r\nbody";
    assert_eq!(replace_body(c2, extract_body(c2)), c2);
}

#[test]
fn test_sort_alphabetically() {
    let fm = vec![
        ("zebra".to_string(), Value::Null),
        ("apple".to_string(), Value::Null),
        ("banana".to_string(), Value::Null),
    ];

    let sorted = sort_alphabetically(fm);
    let keys: Vec<_> = sorted.iter().map(|(k, _)| k.as_str()).collect();
    assert_eq!(keys, vec!["apple", "banana", "zebra"]);
}

#[test]
fn test_sort_by_pattern() {
    let fm = vec![
        ("zebra".to_string(), Value::Null),
        ("title".to_string(), Value::Null),
        ("apple".to_string(), Value::Null),
    ];

    let sorted = sort_by_pattern(fm, "title,*");
    let keys: Vec<_> = sorted.iter().map(|(k, _)| k.as_str()).collect();
    assert_eq!(keys, vec!["title", "apple", "zebra"]);
}

#[test]
fn test_serialize() {
    let fm = vec![("title".to_string(), Value::String("Test".to_string()))];
    let result = serialize(&fm, "\nBody").unwrap();
    assert!(result.starts_with("---\n"));
    assert!(result.contains("title: Test"));
    assert!(result.contains("---\n\nBody"));
}
