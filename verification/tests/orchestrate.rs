use diaryx_core::import::hierarchy::{month_dir_exec, month_key_exec, root_key_exec, year_key_exec};
use diaryx_core::import::orchestrate::{
    capitalize, deduplicate_path, entry_slug, format_entry, graft_contents, graft_part_of,
    is_root_index, plan_entries, root_title,
};
use diaryx_core::import::{ImportedAttachment, ImportedEntry};
use diaryx_core::yaml::Value;

/// 2024-01-15T10:30:00Z in milliseconds.
const JAN_15: i64 = 1_705_314_600_000;
/// 2024-02-01T00:00:00Z in milliseconds.
const FEB_1: i64 = 1_706_745_600_000;

fn entry(title: &str, date: Option<i64>, body: &str) -> ImportedEntry {
    ImportedEntry {
        title: title.to_string(),
        date,
        body: body.to_string(),
        metadata: Vec::new(),
        attachments: Vec::new(),
    }
}

fn s(x: &str) -> Value {
    Value::String(x.to_string())
}

#[test]
fn slug_of_title() {
    assert_eq!(entry_slug("Hello World"), "hello-world");
    assert_eq!(entry_slug("!!!"), "untitled");
    assert_eq!(entry_slug(""), "untitled");
}

#[test]
fn capitalize_first_letter() {
    assert_eq!(capitalize("emails"), "Emails");
    assert_eq!(capitalize("élan"), "Élan");
    assert_eq!(capitalize(""), "");
}

#[test]
fn hierarchy_paths() {
    assert_eq!(month_dir_exec("emails", "2024", "01"), "emails/2024/01");
    assert_eq!(month_key_exec("emails", "2024", "01"), "emails/2024/01/2024_01.md");
    assert_eq!(year_key_exec("emails", "2024"), "emails/2024/2024_index.md");
    assert_eq!(root_key_exec("emails"), "emails/index.md");
}

#[test]
fn deduplicate_counts_from_two() {
    let mut used: Vec<String> = Vec::new();
    assert_eq!(deduplicate_path("a/b", "x", &used), "a/b/x.md");
    used.push("a/b/x.md".to_string());
    assert_eq!(deduplicate_path("a/b", "x", &used), "a/b/x-2.md");
    used.push("a/b/x-2.md".to_string());
    assert_eq!(deduplicate_path("a/b", "x", &used), "a/b/x-3.md");
    assert_eq!(deduplicate_path("a/b", "y", &used), "a/b/y.md");
}

#[test]
fn entry_file_with_metadata_and_attachment() {
    let mut e = entry("Hello", Some(JAN_15), "Body text\n");
    e.metadata.push(("from".to_string(), s("alice@example.com")));
    e.attachments.push(ImportedAttachment {
        filename: "photo.jpg".to_string(),
        content_type: "image/jpeg".to_string(),
        data: vec![1, 2, 3],
    });
    let out = format_entry(
        &e,
        "emails/2024/01/2024-01-15-hello.md",
        "emails/2024/01/2024_01.md",
        "2024-01",
    );
    assert_eq!(
        out,
        "---\ntitle: Hello\nfrom: alice@example.com\ndate: 2024-01-15T10:30:00+00:00\npart_of: '[2024-01](/emails/2024/01/2024_01.md)'\nattachments:\n- emails/2024/01/2024-01-15-hello/_attachments/photo.jpg\n---\nBody text\n"
    );
}

#[test]
fn metadata_title_replaces_in_place() {
    let mut e = entry("First", None, "");
    e.metadata.push(("title".to_string(), s("Second")));
    let out = format_entry(&e, "f/x.md", "f/m.md", "2024-01");
    assert_eq!(out, "---\ntitle: Second\npart_of: '[2024-01](/f/m.md)'\n---\n");
}

#[test]
fn plan_files_and_indexes() {
    let entries = vec![
        entry("Hello", Some(JAN_15), "one"),
        entry("Hello", Some(JAN_15), "two"),
        entry("Later", Some(FEB_1), "three"),
    ];
    let plan = plan_entries("emails", &entries, 0);
    assert_eq!(plan.entries.len(), 3);
    let paths: Vec<String> = plan
        .entries
        .iter()
        .map(|f| f.as_ref().unwrap().path.clone())
        .collect();
    assert_eq!(
        paths,
        vec![
            "emails/2024/01/2024-01-15-hello.md",
            "emails/2024/01/2024-01-15-hello-2.md",
            "emails/2024/02/2024-02-01-later.md",
        ]
    );
    assert_eq!(plan.entries[0].as_ref().unwrap().dir, "emails/2024/01");
    assert_eq!(
        plan.entries[1].as_ref().unwrap().content,
        "---\ntitle: Hello\ndate: 2024-01-15T10:30:00+00:00\npart_of: '[2024-01](/emails/2024/01/2024_01.md)'\n---\ntwo"
    );
    let index_paths: Vec<String> = plan.indexes.iter().map(|i| i.path.clone()).collect();
    assert_eq!(
        index_paths,
        vec![
            "emails/index.md",
            "emails/2024/2024_index.md",
            "emails/2024/01/2024_01.md",
            "emails/2024/02/2024_02.md",
        ]
    );
    assert_eq!(
        plan.indexes[0].content,
        "---\ntitle: Emails\ncontents:\n- '[2024](/emails/2024/2024_index.md)'\n---\n"
    );
    assert_eq!(plan.indexes[1].dir, "emails/2024");
    assert_eq!(
        plan.indexes[1].content,
        "---\ntitle: '2024'\npart_of: '[Emails](/emails/index.md)'\ncontents:\n- '[2024-01](/emails/2024/01/2024_01.md)'\n- '[2024-02](/emails/2024/02/2024_02.md)'\n---\n"
    );
    assert_eq!(
        plan.indexes[2].content,
        "---\ntitle: 2024-01\npart_of: '[2024](/emails/2024/2024_index.md)'\ncontents:\n- '[Hello](/emails/2024/01/2024-01-15-hello.md)'\n- '[Hello](/emails/2024/01/2024-01-15-hello-2.md)'\n---\n"
    );
}

#[test]
fn plan_of_nothing_writes_nothing() {
    let plan = plan_entries("emails", &Vec::new(), 0);
    assert!(plan.entries.is_empty());
    assert!(plan.indexes.is_empty());
}

#[test]
fn undated_entry_uses_now() {
    let plan = plan_entries("notes", &vec![entry("Idea", None, "")], FEB_1);
    assert_eq!(
        plan.entries[0].as_ref().unwrap().path,
        "notes/2024/02/2024-02-01-idea.md"
    );
}

#[test]
fn out_of_range_date_is_not_planned() {
    let plan = plan_entries("notes", &vec![entry("Far", Some(i64::MAX), "")], 0);
    assert!(plan.entries[0].is_none());
    assert_eq!(plan.indexes.len(), 1);
}

#[test]
fn attachment_paths_follow_the_entry_file() {
    let mut e = entry("Pic", Some(JAN_15), "");
    e.attachments.push(ImportedAttachment {
        filename: "a.png".to_string(),
        content_type: "image/png".to_string(),
        data: vec![],
    });
    let plan = plan_entries("x", &vec![e], 0);
    let f = plan.entries[0].as_ref().unwrap();
    assert_eq!(f.attachment_dir, "x/2024/01/2024-01-15-pic/_attachments");
    assert_eq!(f.attachment_paths, vec!["x/2024/01/2024-01-15-pic/_attachments/a.png"]);
}

#[test]
fn graft_adds_link_to_contents() {
    let fm = vec![
        ("title".to_string(), s("Home")),
        ("contents".to_string(), Value::Sequence(vec![s("[A](/a.md)")])),
    ];
    let out = graft_contents(fm, "emails/index.md", "Emails").unwrap();
    assert_eq!(out[1].0, "contents");
    match &out[1].1 {
        Value::Sequence(xs) => {
            assert_eq!(xs.len(), 2);
            assert!(matches!(&xs[1], Value::String(t) if t == "[Emails](/emails/index.md)"));
        }
        _ => panic!("contents is not a list"),
    }
}

#[test]
fn graft_skips_when_listed() {
    let fm = vec![(
        "contents".to_string(),
        Value::Sequence(vec![s("[Emails](/emails/index.md)")]),
    )];
    assert!(graft_contents(fm, "emails/index.md", "Emails").is_none());
}

#[test]
fn graft_replaces_non_list_contents() {
    let fm = vec![("contents".to_string(), s("nothing"))];
    let out = graft_contents(fm, "e/index.md", "E").unwrap();
    assert_eq!(out.len(), 1);
    assert!(matches!(&out[0].1, Value::Sequence(xs) if xs.len() == 1));
    let fm = vec![("title".to_string(), s("Home"))];
    let out = graft_contents(fm, "e/index.md", "E").unwrap();
    assert_eq!(out.len(), 2);
    assert_eq!(out[1].0, "contents");
}

#[test]
fn graft_part_of_once() {
    let fm = vec![("title".to_string(), s("Emails"))];
    let out = graft_part_of(fm, "README.md", "Home").unwrap();
    assert_eq!(out.len(), 2);
    assert_eq!(out[1].0, "part_of");
    assert!(matches!(&out[1].1, Value::String(t) if t == "[Home](/README.md)"));
    let fm = vec![("part_of".to_string(), s("x"))];
    assert!(graft_part_of(fm, "README.md", "Home").is_none());
}

#[test]
fn root_title_sources() {
    let fm = vec![("title".to_string(), s("My Workspace"))];
    assert_eq!(root_title(&fm, Some("readme")), "My Workspace");
    let fm = vec![("title".to_string(), Value::Int(3))];
    assert_eq!(root_title(&fm, Some("my-notes")), "My Notes");
    assert_eq!(root_title(&Vec::new(), None), "Index");
}

#[test]
fn root_index_needs_contents_without_parent() {
    let fm = vec![("contents".to_string(), Value::Sequence(vec![]))];
    assert!(is_root_index(&fm));
    let fm = vec![
        ("contents".to_string(), Value::Sequence(vec![])),
        ("part_of".to_string(), s("x")),
    ];
    assert!(!is_root_index(&fm));
    assert!(!is_root_index(&Vec::new()));
}
