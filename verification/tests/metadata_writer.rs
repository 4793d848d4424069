use diaryx_core::link_parser::path_to_title;
use diaryx_core::metadata_writer::FrontmatterMetadata;
use diaryx_core::yaml::Value;

#[test]
fn test_frontmatter_metadata_to_yaml() {
    let fm = FrontmatterMetadata {
        title: Some("Test Title".to_string()),
        link: None,
        links: None,
        link_of: None,
        part_of: Some("[Parent Index](/folder/parent.md)".to_string()),
        contents: Some(vec!["[Child](/folder/child.md)".to_string()]),
        audience: None,
        description: Some("A description".to_string()),
        attachments: None,
        updated: None,
        extra: Vec::new(),
    };

    let yaml = fm.to_yaml();
    assert!(yaml.contains("title: Test Title"));
    // Markdown links are quoted in YAML because they contain special
    // characters: single-quoted scalars and column-0 block items.
    assert!(yaml.contains("part_of: '[Parent Index](/folder/parent.md)'"));
    assert!(yaml.contains("contents:"));
    assert!(yaml.contains("- '[Child](/folder/child.md)'"));
    assert!(yaml.contains("description: A description"));
}

#[test]
fn test_frontmatter_metadata_to_yaml_uses_local_offset_for_updated() {
    let fm = FrontmatterMetadata {
        title: Some("Test Title".to_string()),
        updated: Some(1_700_000_000_000),
        ..Default::default()
    };

    let yaml = fm.to_yaml();
    let updated_line = yaml
        .lines()
        .find(|line| line.starts_with("updated: "))
        .unwrap();
    let value = updated_line
        .strip_prefix("updated: ")
        .unwrap()
        .trim_matches('"')
        .trim_matches('\'');
    let parsed = chrono::DateTime::parse_from_rfc3339(value).unwrap();
    assert_eq!(parsed.timestamp_millis(), 1_700_000_000_000);
    assert!(!value.ends_with('Z'));
}

#[test]
fn test_empty_contents_written_as_empty_array() {
    // Empty contents (Some([])) should be written as "contents: []"
    // to preserve index file identity
    let fm = FrontmatterMetadata {
        title: Some("Root Index".to_string()),
        link: None,
        links: None,
        link_of: None,
        part_of: None,
        contents: Some(vec![]), // Empty but explicitly set
        audience: None,
        description: None,
        attachments: None,
        updated: None,
        extra: Vec::new(),
    };

    let yaml = fm.to_yaml();
    assert!(
        yaml.contains("contents: []"),
        "Empty contents should be written as 'contents: []', got: {}",
        yaml
    );
}

#[test]
fn test_none_contents_not_written() {
    // None contents should NOT be written at all
    let fm = FrontmatterMetadata {
        title: Some("Regular File".to_string()),
        link: None,
        links: None,
        link_of: None,
        part_of: Some("parent.md".to_string()),
        contents: None, // Not an index file
        audience: None,
        description: None,
        attachments: None,
        updated: None,
        extra: Vec::new(),
    };

    let yaml = fm.to_yaml();
    assert!(
        !yaml.contains("contents"),
        "None contents should not be written, got: {}",
        yaml
    );
}

#[test]
fn test_roundtrip_markdown_link_to_yaml() {
    let fm = FrontmatterMetadata {
        title: Some("Test Entry".to_string()),
        link: None,
        links: None,
        link_of: None,
        part_of: Some("[Parent Index](/Folder/index.md)".to_string()),
        contents: Some(vec!["[Child Entry](/Folder/child.md)".to_string()]),
        audience: None,
        description: None,
        attachments: None,
        updated: None,
        extra: Vec::new(),
    };

    let yaml = fm.to_yaml();
    // The serialized YAML must reparse to the same scalar values.
    let map: serde_yaml::Mapping = serde_yaml::from_str(&yaml).expect("reparse to_yaml output");
    assert_eq!(
        map.get("part_of").and_then(|v| v.as_str()),
        Some("[Parent Index](/Folder/index.md)")
    );
    let contents = map
        .get("contents")
        .and_then(|v| v.as_sequence())
        .expect("contents sequence");
    assert_eq!(
        contents.first().and_then(|v| v.as_str()),
        Some("[Child Entry](/Folder/child.md)")
    );
}

#[test]
fn test_to_yaml_exact_layout() {
    let fm = FrontmatterMetadata {
        title: Some("T".to_string()),
        links: Some(vec![]),
        audience: Some(vec!["family".to_string(), "friends".to_string()]),
        extra: vec![
            ("mood".to_string(), Value::String("calm".to_string())),
            ("count".to_string(), Value::Int(-12)),
            (
                "nested".to_string(),
                Value::Mapping(vec![
                    ("a".to_string(), Value::Bool(true)),
                    ("b".to_string(), Value::Sequence(vec![Value::Null, Value::Real("1.5".to_string(), 1)])),
                ]),
            ),
            ("title".to_string(), Value::String("Override".to_string())),
        ],
        ..Default::default()
    };
    assert_eq!(
        fm.to_yaml(),
        "title: Override\naudience:\n- family\n- friends\nmood: calm\ncount: -12\nnested:\n  a: true\n  b:\n  - null\n  - 1.5"
    );
}

#[test]
fn test_to_yaml_with_given_updated_text() {
    let fm = FrontmatterMetadata {
        updated: Some(5),
        ..Default::default()
    };
    assert_eq!(fm.to_yaml_with(None), "updated: 5");
    assert_eq!(fm.to_yaml_with(Some("yesterday".to_string())), "updated: yesterday");
    let empty = FrontmatterMetadata::default();
    assert_eq!(empty.to_yaml(), "");
}

fn s(t: &str) -> Value {
    Value::String(t.to_string())
}

fn obj(entries: Vec<(&str, Value)>) -> Value {
    Value::Mapping(entries.into_iter().map(|(k, v)| (k.to_string(), v)).collect())
}

fn has_extra(fm: &FrontmatterMetadata, key: &str) -> bool {
    fm.extra.iter().any(|(k, _)| k == key)
}

#[test]
fn test_frontmatter_metadata_from_json() {
    let json = obj(vec![
        ("title", s("Test Title")),
        ("part_of", s("workspace/parent.md")),
        ("contents", Value::Sequence(vec![s("child1.md"), s("child2.md")])),
        ("description", s("A test file")),
        (
            "extra",
            obj(vec![("custom_key", s("custom_value")), ("_body", s("should be excluded"))]),
        ),
    ]);

    let fm = FrontmatterMetadata::from_json(&json);
    assert_eq!(fm.title, Some("Test Title".to_string()));
    assert_eq!(fm.part_of, Some("[Parent](/workspace/parent.md)".to_string()));
    assert_eq!(
        fm.contents,
        Some(vec!["[Child1](/child1.md)".to_string(), "[Child2](/child2.md)".to_string()])
    );
    assert_eq!(fm.description, Some("A test file".to_string()));
    assert!(has_extra(&fm, "custom_key"));
    assert!(!has_extra(&fm, "_body"));
}

#[test]
fn test_from_json_with_markdown_links_formats_part_of() {
    let json = obj(vec![("title", s("Child File")), ("part_of", s("folder/parent.md"))]);
    let fm = FrontmatterMetadata::from_json_with_file_path(&json, Some("folder/child.md"));
    assert_eq!(fm.part_of, Some("[Parent](/folder/parent.md)".to_string()));
}

#[test]
fn test_from_json_with_markdown_links_formats_contents() {
    let json = obj(vec![
        ("title", s("Parent Index")),
        ("contents", Value::Sequence(vec![s("folder/child1.md"), s("folder/sub/child2.md")])),
    ]);
    let fm = FrontmatterMetadata::from_json_with_file_path(&json, Some("folder/index.md"));
    assert_eq!(
        fm.contents,
        Some(vec![
            "[Child1](/folder/child1.md)".to_string(),
            "[Child2](/folder/sub/child2.md)".to_string()
        ])
    );
}

#[test]
fn test_from_json_with_markdown_links_formats_attachments() {
    let json = obj(vec![
        ("title", s("Entry")),
        (
            "attachments",
            Value::Sequence(vec![
                s("folder/_attachments/image.png"),
                s("folder/_attachments/report.pdf"),
            ]),
        ),
    ]);
    let fm = FrontmatterMetadata::from_json_with_file_path(&json, Some("folder/entry.md"));
    assert_eq!(
        fm.attachments,
        Some(vec![
            "[image.png](/folder/_attachments/image.png)".to_string(),
            "[report.pdf](/folder/_attachments/report.pdf)".to_string(),
        ])
    );
}

#[test]
fn test_from_json_with_markdown_links_formats_binary_ref_attachments() {
    let json = obj(vec![
        ("title", s("Entry")),
        (
            "attachments",
            Value::Sequence(vec![obj(vec![
                ("path", s("folder/_attachments/photo.jpg")),
                ("hash", s("abc")),
            ])]),
        ),
    ]);
    let fm = FrontmatterMetadata::from_json_with_file_path(&json, Some("folder/entry.md"));
    assert_eq!(
        fm.attachments,
        Some(vec!["[photo.jpg](/folder/_attachments/photo.jpg)".to_string()])
    );
}

#[test]
fn test_from_json_with_custom_title_resolver() {
    let json = obj(vec![
        ("title", s("Index")),
        ("part_of", s("root/parent.md")),
        ("contents", Value::Sequence(vec![s("root/child.md")])),
    ]);
    let fm = FrontmatterMetadata::from_json_with_markdown_links(&json, |path: &str| {
        if path == "root/parent.md" {
            "My Custom Parent Title".to_string()
        } else if path == "root/child.md" {
            "My Custom Child Title".to_string()
        } else {
            diaryx_core::link_parser::path_to_title(path)
        }
    });
    assert_eq!(fm.part_of, Some("[My Custom Parent Title](/root/parent.md)".to_string()));
    assert_eq!(
        fm.contents,
        Some(vec!["[My Custom Child Title](/root/child.md)".to_string()])
    );
}

#[test]
fn test_from_json_with_already_formatted_markdown_links() {
    let json = obj(vec![
        ("title", s("Child File")),
        ("part_of", s("[Parent Index](/folder/parent.md)")),
        (
            "contents",
            Value::Sequence(vec![
                s("[Child A](/folder/child_a.md)"),
                s("[Child B](/folder/child_b.md)"),
            ]),
        ),
    ]);
    let fm = FrontmatterMetadata::from_json_with_file_path(&json, Some("folder/child.md"));
    assert_eq!(fm.part_of, Some("[Parent Index](/folder/parent.md)".to_string()));
    assert_eq!(
        fm.contents,
        Some(vec![
            "[Child A](/folder/child_a.md)".to_string(),
            "[Child B](/folder/child_b.md)".to_string(),
        ])
    );
}

#[test]
fn test_from_json_handles_mixed_formats() {
    let json = obj(vec![
        ("title", s("Mixed Index")),
        (
            "contents",
            Value::Sequence(vec![
                s("folder/plain_path.md"),
                s("[Already Formatted](/folder/formatted.md)"),
            ]),
        ),
    ]);
    let fm = FrontmatterMetadata::from_json_with_file_path(&json, Some("folder/index.md"));
    assert_eq!(
        fm.contents,
        Some(vec![
            "[Plain Path](/folder/plain_path.md)".to_string(),
            "[Already Formatted](/folder/formatted.md)".to_string(),
        ])
    );
}

#[test]
fn test_from_json_reads_updated_and_extra_overrides() {
    let json = obj(vec![
        ("modified_at", Value::Int(42)),
        ("audience", Value::Sequence(vec![s("family"), Value::Int(3)])),
        ("extra", obj(vec![("a", s("1")), ("a", s("2"))])),
    ]);
    let fm = FrontmatterMetadata::from_json(&json);
    assert_eq!(fm.updated, Some(42));
    assert_eq!(fm.audience, Some(vec!["family".to_string()]));
    assert_eq!(fm.extra.len(), 1);
    assert!(matches!(&fm.extra[0].1, Value::String(t) if t == "2"));
    assert_eq!(fm.title, None);
}

#[test]
fn file_path_reading_matches_path_to_title_resolver() {
    let json = obj(vec![
        ("part_of", s("folder/my-parent.md")),
        ("link", s("[Kept](/a.md)")),
        ("contents", Value::Sequence(vec![s("x/child_one.md"), s("[T](/y.md)")])),
    ]);
    let by_path = FrontmatterMetadata::from_json_with_file_path(&json, Some("folder/index.md"));
    let no_path = FrontmatterMetadata::from_json_with_file_path(&json, None);
    let by_resolver = FrontmatterMetadata::from_json_with_markdown_links(&json, |p: &str| path_to_title(p));
    for other in [&no_path, &by_resolver] {
        assert_eq!(by_path.part_of, other.part_of);
        assert_eq!(by_path.link, other.link);
        assert_eq!(by_path.contents, other.contents);
    }
    assert_eq!(by_path.link, Some("[Kept](/a.md)".to_string()));
}
